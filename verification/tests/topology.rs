//! What the records of a body point at.

use acadrust::entities::acis::types::{SatDocument, SatPointer, SatRecord, SatToken};
use acis_append::append::{append, Written};
use acis_append::body::{Body, Coedge, Edge, Face, Loop, Lump, Shell, Vertex};
use acis_append::geometry::{Curve2, Curve3, Frame, Point2, Point3, Surface};
use acis_append::ids::{lookup, next_in};
use std::collections::HashMap;

fn point(x: f64, y: f64, z: f64) -> Point3 {
    Point3 { x: x.to_bits(), y: y.to_bits(), z: z.to_bits() }
}

fn plane() -> Surface {
    Surface::Plane {
        frame: Frame {
            origin: point(0.0, 0.0, 0.0),
            x_axis: point(1.0, 0.0, 0.0),
            normal: Some(point(0.0, 0.0, 1.0)),
        },
    }
}

fn line() -> Curve3 {
    Curve3::Line { origin: point(0.0, 0.0, 0.0), direction: point(1.0, 0.0, 0.0) }
}

fn pointer(id: i32) -> SatToken {
    SatToken::Pointer(SatPointer::new(id))
}

fn ident(name: &str) -> SatToken {
    SatToken::Ident(name.to_string())
}

fn edge(start: usize, end: usize, coedges: Vec<usize>) -> Edge {
    Edge {
        start,
        end,
        start_parameter: 0.25f64.to_bits(),
        end_parameter: 0.75f64.to_bits(),
        curve: 0,
        coedges,
    }
}

fn coedge(edge: usize, owner: usize, partner: Option<usize>) -> Coedge {
    Coedge { edge, owner, forward: true, partner, pcurve: None }
}

/// Two lumps, two shells in the first, three faces in the first shell, two
/// loops in the first face; a triangle and a two-gon for loops.
fn branching() -> Body {
    Body {
        vertices: vec![
            Vertex { point: point(0.0, 0.0, 0.0) },
            Vertex { point: point(1.0, 0.0, 0.0) },
            Vertex { point: point(0.0, 1.0, 0.0) },
            Vertex { point: point(9.0, 9.0, 9.0) },
        ],
        curves: vec![line()],
        surfaces: vec![plane()],
        edges: vec![
            edge(1, 2, vec![1]),
            edge(0, 1, vec![0, 3]),
            edge(2, 0, vec![]),
        ],
        coedges: vec![
            coedge(1, 0, Some(3)),
            coedge(0, 0, None),
            coedge(2, 0, None),
            coedge(1, 1, Some(0)),
            coedge(0, 1, None),
        ],
        loops: vec![
            Loop { owner: 0, coedges: vec![0, 1, 2] },
            Loop { owner: 0, coedges: vec![3, 4] },
            Loop { owner: 1, coedges: vec![] },
        ],
        faces: vec![
            Face { owner: 0, surface: 0, forward: true, loops: vec![1, 0] },
            Face { owner: 0, surface: 0, forward: false, loops: vec![2] },
            Face { owner: 0, surface: 8, forward: true, loops: vec![] },
        ],
        shells: vec![
            Shell { owner: 0, faces: vec![2, 0, 1] },
            Shell { owner: 0, faces: vec![] },
        ],
        lumps: vec![Lump { shells: vec![0, 1] }, Lump { shells: vec![] }],
        roots: vec![1, 0],
        faults: vec![],
    }
}

// Where things stand: points and vertices from 0, the curve at 8, the surface
// at 9, edges from 10, coedges from 13, loops from 18, faces from 21, shells
// from 24, lumps from 26, the body at 28.
fn written() -> SatDocument {
    let mut document = SatDocument::new();
    assert_eq!(
        append(&branching(), &mut document),
        Ok(Written { body: 28, records: 29 })
    );
    document
}

fn following(document: &SatDocument, from: i32, field: usize) -> Vec<i32> {
    let mut at = from;
    let mut found = vec![];
    while at >= 0 && found.len() < 100 {
        found.push(at);
        at = document.records[at as usize].tokens[field].as_pointer().unwrap().0;
    }
    found
}

fn target(record: &SatRecord, field: usize) -> i32 {
    record.tokens[field].as_pointer().unwrap().0
}

#[test]
fn points_hold_their_positions() {
    let document = written();
    assert_eq!(
        document.records[6].tokens,
        vec![pointer(-1), SatToken::Position(9.0, 9.0, 9.0)]
    );
}

#[test]
fn vertices_lead_to_their_first_edge_and_point() {
    let document = written();
    assert_eq!(document.records[1].tokens, vec![pointer(-1), pointer(11), pointer(0)]);
    assert_eq!(document.records[3].tokens, vec![pointer(-1), pointer(10), pointer(2)]);
    assert_eq!(document.records[5].tokens, vec![pointer(-1), pointer(10), pointer(4)]);
    assert_eq!(document.records[7].tokens, vec![pointer(-1), pointer(-1), pointer(6)]);
}

#[test]
fn edges_lead_to_vertices_coedge_and_curve() {
    let document = written();
    assert_eq!(
        document.records[11].tokens,
        vec![
            pointer(-1),
            pointer(1),
            SatToken::Float(0.25),
            pointer(3),
            SatToken::Float(0.75),
            pointer(13),
            pointer(8),
            ident("forward"),
            SatToken::String("unknown".to_string()),
        ]
    );
    assert_eq!(target(&document.records[12], 5), -1);
}

#[test]
fn coedges_form_rings() {
    let document = written();
    assert_eq!(
        document.records[13].tokens,
        vec![
            pointer(-1),
            pointer(14),
            pointer(15),
            pointer(16),
            pointer(11),
            ident("forward"),
            pointer(18),
            pointer(-1),
        ]
    );
    for ring in [vec![13, 14, 15], vec![16, 17]] {
        let n = ring.len();
        for o in 0..n {
            let record = &document.records[ring[o]];
            assert_eq!(target(record, 1), ring[(o + 1) % n] as i32);
            assert_eq!(target(record, 2), ring[(o + n - 1) % n] as i32);
        }
    }
    assert_eq!(target(&document.records[16], 3), 13);
}

#[test]
fn a_ring_of_one_leads_to_itself() {
    let mut body = branching();
    body.loops[1].coedges = vec![3];
    let mut document = SatDocument::new();
    append(&body, &mut document).expect("body should append");
    assert_eq!(target(&document.records[16], 1), 16);
    assert_eq!(target(&document.records[16], 2), 16);
    // The coedge in no loop keeps nothing but its leading pointer.
    assert_eq!(document.records[17].tokens, vec![pointer(-1)]);
}

#[test]
fn siblings_are_strung_together() {
    let document = written();
    assert_eq!(following(&document, target(&document.records[21], 2), 1), vec![19, 18]);
    assert_eq!(following(&document, target(&document.records[24], 3), 1), vec![23, 21, 22]);
    assert_eq!(following(&document, target(&document.records[26], 2), 1), vec![24, 25]);
    assert_eq!(following(&document, target(&document.records[28], 1), 1), vec![27, 26]);
    assert!(following(&document, target(&document.records[27], 2), 1).is_empty());
}

#[test]
fn owners_are_led_to() {
    let document = written();
    assert_eq!(target(&document.records[18], 3), 21);
    assert_eq!(target(&document.records[20], 3), 22);
    assert_eq!(target(&document.records[21], 3), 24);
    assert_eq!(target(&document.records[25], 5), 26);
    assert_eq!(target(&document.records[26], 3), 28);
    assert_eq!(target(&document.records[27], 3), 28);
}

#[test]
fn loops_faces_shells_lumps_and_the_body() {
    let document = written();
    assert_eq!(
        document.records[20].tokens,
        vec![pointer(-1), pointer(-1), pointer(-1), pointer(22)]
    );
    assert_eq!(
        document.records[22].tokens,
        vec![
            pointer(-1),
            pointer(-1),
            pointer(20),
            pointer(24),
            pointer(-1),
            pointer(9),
            ident("reversed"),
            ident("single"),
        ]
    );
    // A surface that is not there is null.
    assert_eq!(target(&document.records[23], 5), -1);
    assert_eq!(
        document.records[24].tokens,
        vec![pointer(-1), pointer(25), pointer(-1), pointer(23), pointer(-1), pointer(26)]
    );
    assert_eq!(
        document.records[26].tokens,
        vec![pointer(-1), pointer(-1), pointer(24), pointer(28)]
    );
    assert_eq!(
        document.records[28].tokens,
        vec![pointer(-1), pointer(27), pointer(-1), pointer(-1)]
    );
}

#[test]
fn keys_that_refer_to_nothing_are_null() {
    let mut body = branching();
    body.edges[0] = Edge { curve: 4, ..edge(40, 41, vec![50]) };
    body.coedges[0].partner = Some(77);
    body.coedges[0].edge = 66;
    body.roots = vec![5, 1];
    let mut document = SatDocument::new();
    append(&body, &mut document).expect("body should append");
    for field in [1, 3, 5, 6] {
        assert_eq!(target(&document.records[10], field), -1);
    }
    assert_eq!(target(&document.records[13], 3), -1);
    assert_eq!(target(&document.records[13], 4), -1);
    assert_eq!(target(&document.records[28], 1), -1);
    assert!(document.validate().is_empty());
}

#[test]
fn the_last_place_of_a_coedge_counts() {
    let mut body = branching();
    body.loops[1].coedges = vec![0, 4];
    let mut document = SatDocument::new();
    append(&body, &mut document).expect("body should append");
    assert_eq!(target(&document.records[13], 6), 19);
    assert_eq!(target(&document.records[13], 1), 17);
    // The first loop still starts at it.
    assert_eq!(target(&document.records[18], 2), 13);
}

#[test]
fn curves_of_coedges_stand_before_them() {
    let mut body = branching();
    let line = Curve2::Line {
        start: Point2 { u: 0, v: 0 },
        end: Point2 { u: 1.0f64.to_bits(), v: 0 },
    };
    body.coedges[1].pcurve = Some(line);
    let mut document = SatDocument::new();
    assert_eq!(append(&body, &mut document), Ok(Written { body: 29, records: 30 }));
    let kinds: Vec<&str> =
        document.records[13..19].iter().map(|record| record.entity_type.as_str()).collect();
    assert_eq!(kinds, vec!["coedge", "pcurve", "coedge", "coedge", "coedge", "coedge"]);
    assert_eq!(target(&document.records[15], 7), 14);
    assert_eq!(target(&document.records[13], 7), -1);
    assert_eq!(target(&document.records[13], 1), 15);
    assert!(document.validate().is_empty());
}

#[test]
fn a_body_goes_behind_what_there_was() {
    let mut document = SatDocument::new();
    document.add_record(SatRecord::new(0, "asmheader"));
    document.add_record(SatRecord::new(0, "transform"));
    let before = document.records.clone();
    let written = append(&branching(), &mut document).expect("body should append");
    assert_eq!(written, Written { body: 30, records: 29 });
    assert_eq!(document.records[..2], before[..]);
    assert_eq!(target(&document.records[30], 1), 29);
    assert_eq!(document.records[2].index, 2);
    assert!(document.validate().is_empty());
}

#[test]
fn the_next_one_in_a_list() {
    let mut ids: HashMap<u64, i32> = HashMap::new();
    ids.insert(4, 40);
    ids.insert(5, 50);
    ids.insert(6, 60);
    let order = [5u64, 4, 6, 4, 7];
    assert_eq!(next_in(&order, 5, &ids), 40);
    // The first place of a key decides.
    assert_eq!(next_in(&order, 4, &ids), 60);
    assert_eq!(next_in(&order, 6, &ids), 40);
    // At the end, not in the list, and without a record.
    assert_eq!(next_in(&order, 7, &ids), -1);
    assert_eq!(next_in(&order, 9, &ids), -1);
    assert_eq!(next_in(&[4u64, 7], 4, &ids), -1);
    assert_eq!(next_in(&[], 4u64, &ids), -1);
}

#[test]
fn an_entity_without_a_record_is_null() {
    let mut ids: HashMap<usize, i32> = HashMap::new();
    ids.insert(3, 12);
    assert_eq!(lookup(&ids, 3), 12);
    assert_eq!(lookup(&ids, 2), -1);
}
