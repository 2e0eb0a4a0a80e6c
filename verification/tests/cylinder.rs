//! A cylinder, from a body to records and back.

use acadrust::entities::acis::types::{
    SatCoedge, SatDocument, SatEdge, SatFace, SatLoop, SatLump, SatPoint, SatRecord, SatShell,
    SatToken, SatVertex,
};
use acadrust::entities::acis::{SabReader, SabWriter};
use acis_append::append::{append, Written};
use acis_append::body::{Body, Coedge, Edge, Face, Loop, Lump, Shell, Vertex};
use acis_append::geometry::{Curve3, Frame, Point3, Surface};

fn point(x: f64, y: f64, z: f64) -> Point3 {
    Point3 { x: x.to_bits(), y: y.to_bits(), z: z.to_bits() }
}

fn upright(height: f64) -> Frame {
    Frame {
        origin: point(0.0, 0.0, height),
        x_axis: point(1.0, 0.0, 0.0),
        normal: Some(point(0.0, 0.0, 1.0)),
    }
}

fn coedge(edge: usize, owner: usize, forward: bool, partner: usize) -> Coedge {
    Coedge { edge, owner, forward, partner: Some(partner), pcurve: None }
}

fn edge(start: usize, end: usize, length: f64, curve: usize, coedges: Vec<usize>) -> Edge {
    Edge {
        start,
        end,
        start_parameter: 0.0f64.to_bits(),
        end_parameter: length.to_bits(),
        curve,
        coedges,
    }
}

/// The cylinder with centre 0,0,0, radius 1 and height 2.
fn cylinder() -> Body {
    let turn = std::f64::consts::TAU;
    Body {
        vertices: vec![
            Vertex { point: point(1.0, 0.0, 0.0) },
            Vertex { point: point(1.0, 0.0, 2.0) },
        ],
        curves: vec![
            Curve3::Circle { plane: upright(0.0), major: point(1.0, 0.0, 0.0) },
            Curve3::Circle { plane: upright(2.0), major: point(1.0, 0.0, 0.0) },
            Curve3::Line { origin: point(1.0, 0.0, 0.0), direction: point(0.0, 0.0, 1.0) },
        ],
        surfaces: vec![
            Surface::Plane { frame: upright(0.0) },
            Surface::Plane { frame: upright(2.0) },
            Surface::Cylinder {
                frame: upright(0.0),
                major: point(1.0, 0.0, 0.0),
                radius: 1.0f64.to_bits(),
            },
        ],
        edges: vec![
            edge(0, 0, turn, 0, vec![0, 2]),
            edge(1, 1, turn, 1, vec![1, 4]),
            edge(0, 1, 2.0, 2, vec![3, 5]),
        ],
        coedges: vec![
            coedge(0, 0, false, 2),
            coedge(1, 1, true, 4),
            coedge(0, 2, true, 0),
            coedge(2, 2, true, 5),
            coedge(1, 2, false, 1),
            coedge(2, 2, false, 3),
        ],
        loops: vec![
            Loop { owner: 0, coedges: vec![0] },
            Loop { owner: 1, coedges: vec![1] },
            Loop { owner: 2, coedges: vec![2, 3, 4, 5] },
        ],
        faces: vec![
            Face { owner: 0, surface: 0, forward: false, loops: vec![0] },
            Face { owner: 0, surface: 1, forward: true, loops: vec![1] },
            Face { owner: 0, surface: 2, forward: true, loops: vec![2] },
        ],
        shells: vec![Shell { owner: 0, faces: vec![0, 1, 2] }],
        lumps: vec![Lump { shells: vec![0] }],
        roots: vec![0],
        faults: vec![],
    }
}

fn cylinder_document() -> SatDocument {
    let mut document = SatDocument::new();
    append(&cylinder(), &mut document).expect("cylinder should append");
    document
}

fn tokens_of<'a>(document: &'a SatDocument, entity_type: &str) -> Vec<&'a [SatToken]> {
    document
        .records
        .iter()
        .filter(|record| record.entity_type == entity_type)
        .map(|record| record.tokens.as_slice())
        .collect()
}

fn ends_with_idents(tokens: &[SatToken], expected: &[&str]) -> bool {
    let tail = &tokens[tokens.len() - expected.len()..];
    tail.iter()
        .zip(expected)
        .all(|(token, want)| matches!(token, SatToken::Ident(name) if name == want))
}

#[test]
fn appended_cylinder_records_carry_their_mandatory_trailing_fields() {
    let document = cylinder_document();

    // Header must count the body it contains.
    assert_eq!(document.header.num_bodies, 1, "num_bodies");

    for tokens in tokens_of(&document, "plane-surface") {
        assert!(
            ends_with_idents(tokens, &["forward_v", "I", "I", "I", "I"]),
            "plane-surface missing forward_v I I I I: {tokens:?}"
        );
    }
    for tokens in tokens_of(&document, "cone-surface") {
        assert!(
            ends_with_idents(tokens, &["forward", "I", "I", "I", "I"]),
            "cone-surface missing forward I I I I: {tokens:?}"
        );
    }
    for tokens in tokens_of(&document, "ellipse-curve") {
        assert!(
            ends_with_idents(tokens, &["I", "I"]),
            "ellipse-curve missing trailing I I: {tokens:?}"
        );
    }
    for tokens in tokens_of(&document, "straight-curve") {
        assert!(
            ends_with_idents(tokens, &["I", "I"]),
            "straight-curve missing trailing I I: {tokens:?}"
        );
    }
    for tokens in tokens_of(&document, "edge") {
        assert!(
            matches!(tokens.last(), Some(SatToken::String(s)) if s == "unknown"),
            "edge missing trailing \"unknown\" string: {tokens:?}"
        );
    }
}

/// The faces of the only body of a document, reached from its `body` record,
/// each with the lengths of its loops.
fn faces_from_the_body(document: &SatDocument) -> Vec<(String, Vec<usize>)> {
    let bodies = document.bodies();
    assert_eq!(bodies.len(), 1, "expected exactly one body back");
    let follow = |pointer| document.resolve(pointer);
    let mut found = Vec::new();
    let mut lump = follow(bodies[0].lump());
    while let Some(record) = lump {
        let here = SatLump::from_record(record).expect("lump");
        let mut shell = follow(here.shell());
        while let Some(record) = shell {
            let here = SatShell::from_record(record).expect("shell");
            let mut face = follow(here.face());
            while let Some(record) = face {
                let here = SatFace::from_record(record).expect("face");
                let surface = follow(here.surface()).expect("surface");
                let mut sizes = Vec::new();
                let mut ring = follow(here.first_loop());
                while let Some(record) = ring {
                    let here = SatLoop::from_record(record).expect("loop");
                    sizes.push(ring_length(document, record, &here));
                    ring = follow(here.next_loop());
                }
                found.push((surface.entity_type.clone(), sizes));
                face = follow(here.next_face());
            }
            shell = follow(here.next_shell());
        }
        lump = follow(here.next_lump());
    }
    found
}

/// How many coedges there are around a loop. Each has to lead back to the loop,
/// to the one it was reached from, and through its edge to two points.
fn ring_length(document: &SatDocument, owner: &SatRecord, ring: &SatLoop) -> usize {
    let first = ring.first_coedge();
    let mut at = first;
    let mut length = 0;
    loop {
        let coedge = SatCoedge::from_record(document.resolve(at).expect("coedge")).expect("coedge");
        let next = SatCoedge::from_record(document.resolve(coedge.next()).expect("next")).expect("next");
        assert_eq!(next.prev(), at);
        assert_eq!(coedge.owner_loop().0, owner.index);
        let partner = SatCoedge::from_record(document.resolve(coedge.partner()).expect("partner"));
        assert_eq!(partner.expect("partner").partner(), at);
        let edge = SatEdge::from_record(document.resolve(coedge.edge()).expect("edge")).expect("edge");
        assert!(document.resolve(edge.curve()).is_some());
        for end in [edge.start_vertex(), edge.end_vertex()] {
            let vertex = SatVertex::from_record(document.resolve(end).expect("vertex"));
            let point = document.resolve(vertex.expect("vertex").point()).expect("point");
            let (x, y, z) = SatPoint::from_record(point).expect("point").position();
            assert_eq!((x, y), (1.0, 0.0));
            assert!(z == 0.0 || z == 2.0);
        }
        length += 1;
        at = coedge.next();
        if at == first {
            return length;
        }
        assert!(length < 100, "ring does not close");
    }
}

#[test]
fn appended_cylinder_survives_sab_roundtrip() {
    let document = cylinder_document();
    let text = document.to_sat_string();
    let mut reparsed = SatDocument::parse(&text).expect("emitted SAT should re-parse");
    // Mirror the writer path: strip non-geometry records, then validate the
    // pointer graph before serializing to SAB.
    reparsed.strip_for_sab();
    assert!(
        reparsed.validate().is_empty(),
        "appended cylinder SAT should validate after strip_for_sab"
    );
    let sab = SabWriter::write(&reparsed);
    let readback = SabReader::read(&sab).expect("SAB should read back");
    assert!(readback.validate().is_empty(), "SAB round-trip invalid");

    let faces = faces_from_the_body(&readback);
    assert_eq!(
        faces,
        vec![
            ("plane-surface".to_string(), vec![1]),
            ("plane-surface".to_string(), vec![1]),
            ("cone-surface".to_string(), vec![4]),
        ],
        "the body should read back"
    );
}

#[test]
fn a_reader_finds_the_whole_cylinder() {
    let document = cylinder_document();
    assert!(document.validate().is_empty());
    let faces = faces_from_the_body(&document);
    let sizes: Vec<Vec<usize>> = faces.into_iter().map(|(_, sizes)| sizes).collect();
    assert_eq!(sizes, vec![vec![1], vec![1], vec![4]]);
}

#[test]
fn what_is_returned_leads_to_the_body() {
    let mut document = SatDocument::new();
    let before = document.record_count();
    let written = append(&cylinder(), &mut document).expect("cylinder should append");
    assert_eq!(written, Written { body: (before + 27) as i32, records: 28 });
    assert_eq!(document.record_count(), before + 28);
    assert_eq!(document.header.num_records, before + 28);
    assert_eq!(document.records[before + 27].entity_type, "body");
}

#[test]
fn records_stand_at_their_indices() {
    let document = cylinder_document();
    let kinds: Vec<&str> = document.records.iter().map(|r| r.entity_type.as_str()).collect();
    let expected = vec![
        "point", "vertex", "point", "vertex", "ellipse-curve", "ellipse-curve", "straight-curve",
        "plane-surface", "plane-surface", "cone-surface", "edge", "edge", "edge", "coedge",
        "coedge", "coedge", "coedge", "coedge", "coedge", "loop", "loop", "loop", "face", "face",
        "face", "shell", "lump", "body",
    ];
    assert_eq!(kinds, expected);
    for (position, record) in document.records.iter().enumerate() {
        assert_eq!(record.index, position as i32);
        assert!(record.attribute.is_null());
        assert_eq!(record.sub_type, None);
    }
}

#[test]
fn a_second_cylinder_leaves_the_first_as_it_is() {
    let mut document = cylinder_document();
    let first = document.records.clone();
    let written = append(&cylinder(), &mut document).expect("cylinder should append");
    assert_eq!(written, Written { body: 55, records: 28 });
    assert_eq!(document.records[..28], first[..]);
    assert_eq!(document.header.num_bodies, 2);
    assert_eq!(document.header.num_records, 56);
    assert!(document.validate().is_empty());
}
