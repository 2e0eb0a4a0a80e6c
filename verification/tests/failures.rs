//! What is refused, and what a refused body leaves behind.

use acadrust::entities::acis::types::{SatDocument, SatPointer, SatRecord, SatToken};
use acis_append::append::{append, try_append, Unappendable, Written};
use acis_append::body::{Body, Coedge, Edge, Face, Loop, Lump, Shell, Vertex};
use acis_append::geometry::{
    Curve2, Curve3, Frame, NurbsCurve3, NurbsSurface3, Point2, Point3, Surface,
};
use acis_append::legible::is_readable;
use acis_append::limits::{is_fitting, is_taking};

fn point(x: f64, y: f64, z: f64) -> Point3 {
    Point3 { x: x.to_bits(), y: y.to_bits(), z: z.to_bits() }
}

fn at(u: f64, v: f64) -> Point2 {
    Point2 { u: u.to_bits(), v: v.to_bits() }
}

fn frame(normal: Option<Point3>) -> Frame {
    Frame { origin: point(0.0, 0.0, 0.0), x_axis: point(1.0, 0.0, 0.0), normal }
}

fn plane() -> Surface {
    Surface::Plane { frame: frame(Some(point(0.0, 0.0, 1.0))) }
}

fn bits(values: &[f64]) -> Vec<u64> {
    values.iter().map(|value| value.to_bits()).collect()
}

fn bilinear() -> Surface {
    Surface::Nurbs(NurbsSurface3 {
        u_degree: 1,
        v_degree: 1,
        u_knots: bits(&[0.0, 0.0, 1.0, 1.0]),
        v_knots: bits(&[0.0, 0.0, 1.0, 1.0]),
        control_points: vec![
            vec![point(0.0, 0.0, 0.0), point(0.0, 1.0, 0.0)],
            vec![point(1.0, 0.0, 0.0), point(1.0, 1.0, 0.0)],
        ],
        weights: vec![bits(&[1.0, 1.0]), bits(&[1.0, 1.0])],
        rational: false,
        u_periodic: false,
        v_periodic: false,
        v_reversed: false,
    })
}

fn empty() -> Body {
    Body {
        vertices: vec![],
        curves: vec![],
        surfaces: vec![],
        edges: vec![],
        coedges: vec![],
        loops: vec![],
        faces: vec![],
        shells: vec![],
        lumps: vec![],
        roots: vec![],
        faults: vec![],
    }
}

/// One face that one closed edge bounds.
fn disc(surface: Surface, pcurve: Option<Curve2>) -> Body {
    Body {
        vertices: vec![Vertex { point: point(1.0, 0.0, 0.0) }],
        curves: vec![Curve3::Circle {
            plane: frame(Some(point(0.0, 0.0, 1.0))),
            major: point(1.0, 0.0, 0.0),
        }],
        surfaces: vec![surface],
        edges: vec![Edge {
            start: 0,
            end: 0,
            start_parameter: 0.0f64.to_bits(),
            end_parameter: 1.0f64.to_bits(),
            curve: 0,
            coedges: vec![0],
        }],
        coedges: vec![Coedge { edge: 0, owner: 0, forward: true, partner: None, pcurve }],
        loops: vec![Loop { owner: 0, coedges: vec![0] }],
        faces: vec![Face { owner: 0, surface: 0, forward: true, loops: vec![0] }],
        shells: vec![Shell { owner: 0, faces: vec![0] }],
        lumps: vec![Lump { shells: vec![0] }],
        roots: vec![0],
        faults: vec![],
    }
}

fn kinds(document: &SatDocument) -> Vec<&str> {
    document.records.iter().map(|record| record.entity_type.as_str()).collect()
}

fn pointer(id: i32) -> SatToken {
    SatToken::Pointer(SatPointer::new(id))
}

#[test]
fn an_inconsistent_body_leaves_no_trace() {
    let mut body = disc(plane(), None);
    body.faults.push("edge 0 has no partner".to_string());
    let mut document = SatDocument::new();
    let before = document.clone();
    assert_eq!(append(&body, &mut document), Err(Unappendable::Inconsistent));
    assert_eq!(document.records, before.records);
    assert_eq!(document.header, before.header);
}

#[test]
fn a_curve_without_a_normal_is_refused() {
    let mut body = disc(plane(), None);
    body.curves.push(Curve3::Circle { plane: frame(None), major: point(1.0, 0.0, 0.0) });
    body.curves.push(Curve3::Line { origin: point(0.0, 0.0, 0.0), direction: point(1.0, 0.0, 0.0) });
    let mut document = SatDocument::new();
    assert_eq!(append(&body, &mut document), Err(Unappendable::Curve));
    // What was added before stays, and the header announces it.
    assert_eq!(kinds(&document), vec!["point", "vertex", "ellipse-curve"]);
    assert_eq!(document.header.num_records, 3);
    assert_eq!(document.header.num_bodies, 0);
}

#[test]
fn an_ellipse_without_a_normal_is_refused() {
    let mut body = empty();
    body.curves.push(Curve3::Ellipse {
        plane: frame(None),
        major: point(2.0, 0.0, 0.0),
        ratio: 0.5f64.to_bits(),
    });
    let mut document = SatDocument::new();
    assert_eq!(append(&body, &mut document), Err(Unappendable::Curve));
    assert_eq!(document.record_count(), 0);
}

fn planar(width: f64, lifted: bool) -> Curve3 {
    let spline = NurbsCurve3 {
        degree: 1,
        knots: bits(&[0.0, 0.0, 1.0, 1.0]),
        control_points: vec![point(0.0, 0.0, 0.0), point(1.0, 0.0, 0.0)],
        weights: bits(&[1.0, 1.0]),
        rational: false,
        periodic: false,
    };
    Curve3::PlanarSpline {
        width: width.to_bits(),
        lifted: if lifted { Some(spline) } else { None },
        closed: true,
    }
}

#[test]
fn a_planar_spline_needs_a_domain_of_some_finite_width() {
    for width in [0.0, -0.0, -1.0, f64::INFINITY, f64::NEG_INFINITY, f64::NAN] {
        let mut body = empty();
        body.curves.push(planar(width, true));
        let mut document = SatDocument::new();
        assert_eq!(append(&body, &mut document), Err(Unappendable::Curve), "{width}");
    }
    for width in [f64::MIN_POSITIVE, 1.0, f64::MAX, f64::from_bits(1)] {
        let mut body = empty();
        body.curves.push(planar(width, true));
        let mut document = SatDocument::new();
        assert!(append(&body, &mut document).is_ok(), "{width}");
        assert_eq!(kinds(&document), vec!["intcurve-curve", "body"]);
    }
}

#[test]
fn a_planar_spline_that_has_no_lift_is_refused() {
    let mut body = empty();
    body.curves.push(planar(1.0, false));
    let mut document = SatDocument::new();
    assert_eq!(append(&body, &mut document), Err(Unappendable::Curve));
}

#[test]
fn a_surface_without_a_normal_is_refused() {
    let body = disc(Surface::Plane { frame: frame(None) }, None);
    let mut document = SatDocument::new();
    assert_eq!(append(&body, &mut document), Err(Unappendable::Surface));
    assert_eq!(kinds(&document), vec!["point", "vertex", "ellipse-curve"]);
    assert_eq!(document.header.num_bodies, 0);
}

#[test]
fn a_curve_on_a_spline_surface_needs_a_spline_form() {
    let body = disc(bilinear(), Some(Curve2::Other));
    let mut document = SatDocument::new();
    assert_eq!(append(&body, &mut document), Err(Unappendable::Curve));
    assert_eq!(
        kinds(&document),
        vec!["point", "vertex", "ellipse-curve", "spline-surface", "edge"]
    );
}

#[test]
fn a_curve_on_a_plane_can_do_without() {
    let body = disc(plane(), Some(Curve2::Other));
    let mut document = SatDocument::new();
    assert_eq!(append(&body, &mut document), Ok(Written { body: 10, records: 11 }));
    let coedge = document.records_of_type("coedge")[0];
    assert_eq!(coedge.tokens[7], pointer(-1));
}

#[test]
fn a_curve_without_a_face_is_refused() {
    let line = || Some(Curve2::Line { start: at(0.0, 0.0), end: at(1.0, 0.0) });
    let mut body = disc(plane(), line());
    body.coedges[0].owner = 7;
    let mut document = SatDocument::new();
    assert_eq!(append(&body, &mut document), Err(Unappendable::Inconsistent));
    assert_eq!(
        kinds(&document),
        vec!["point", "vertex", "ellipse-curve", "plane-surface", "edge"]
    );
    let mut body = disc(plane(), line());
    body.loops[0].owner = 7;
    let mut document = SatDocument::new();
    assert_eq!(append(&body, &mut document), Err(Unappendable::Inconsistent));
    assert_eq!(document.record_count(), 5);
}

#[test]
fn a_loop_whose_coedge_is_missing_is_refused() {
    let mut body = disc(plane(), None);
    body.loops[0].coedges = vec![0, 9];
    let mut document = SatDocument::new();
    assert_eq!(append(&body, &mut document), Err(Unappendable::Inconsistent));
    assert_eq!(document.record_count(), 11);
    assert_eq!(document.header.num_bodies, 0);
    // The coedge before the missing one is linked, to null on either side.
    let coedge = document.records_of_type("coedge")[0];
    assert_eq!(coedge.tokens[1], pointer(-1));
    assert_eq!(coedge.tokens[2], pointer(-1));
    assert_eq!(coedge.tokens[6], pointer(6));
    // The loop itself is not.
    assert_eq!(document.records_of_type("loop")[0].tokens, vec![pointer(-1)]);
    assert!(document.validate().is_empty());
}

#[test]
fn a_loop_whose_face_is_missing_is_refused() {
    let mut body = disc(plane(), None);
    body.loops[0].owner = 3;
    let mut document = SatDocument::new();
    assert_eq!(append(&body, &mut document), Err(Unappendable::Inconsistent));
    assert_eq!(document.records_of_type("coedge")[0].tokens.len(), 8);
    assert_eq!(document.records_of_type("loop")[0].tokens, vec![pointer(-1)]);
}

#[test]
fn a_face_whose_shell_is_missing_is_refused() {
    let mut body = disc(plane(), None);
    body.faces[0].owner = 3;
    let mut document = SatDocument::new();
    assert_eq!(append(&body, &mut document), Err(Unappendable::Inconsistent));
    assert_eq!(document.records_of_type("loop")[0].tokens.len(), 4);
    assert_eq!(document.records_of_type("face")[0].tokens, vec![pointer(-1)]);
}

#[test]
fn a_shell_whose_lump_is_missing_is_refused() {
    let mut body = disc(plane(), None);
    body.shells[0].owner = 3;
    let mut document = SatDocument::new();
    assert_eq!(append(&body, &mut document), Err(Unappendable::Inconsistent));
    assert_eq!(document.records_of_type("face")[0].tokens.len(), 8);
    assert_eq!(document.records_of_type("shell")[0].tokens, vec![pointer(-1)]);
    assert_eq!(document.header.num_bodies, 0);
    assert_eq!(document.header.num_records, 11);
}

#[test]
fn the_first_thing_amiss_is_reported() {
    let mut body = disc(Surface::Plane { frame: frame(None) }, None);
    body.curves.push(Curve3::Circle { plane: frame(None), major: point(1.0, 0.0, 0.0) });
    body.shells[0].owner = 3;
    let mut document = SatDocument::new();
    assert_eq!(append(&body, &mut document), Err(Unappendable::Curve));
    body.curves.pop();
    let mut document = SatDocument::new();
    assert_eq!(append(&body, &mut document), Err(Unappendable::Surface));
    body.surfaces[0] = plane();
    let mut document = SatDocument::new();
    assert_eq!(append(&body, &mut document), Err(Unappendable::Inconsistent));
    body.shells[0].owner = 0;
    let mut document = SatDocument::new();
    assert!(append(&body, &mut document).is_ok());
}

#[test]
fn an_empty_body_is_one_record() {
    let mut document = SatDocument::new();
    assert_eq!(append(&empty(), &mut document), Ok(Written { body: 0, records: 1 }));
    assert_eq!(
        document.records[0].tokens,
        vec![pointer(-1), pointer(-1), pointer(-1), pointer(-1)]
    );
    assert_eq!(document.header.num_bodies, 1);
}

#[test]
fn an_append_that_fits_is_tried() {
    let body = disc(plane(), None);
    let mut document = SatDocument::new();
    assert!(is_fitting(&body, 0, 0));
    assert_eq!(
        try_append(&body, &mut document),
        Some(Ok(Written { body: 10, records: 11 }))
    );
    let mut body = disc(plane(), None);
    body.faces[0].owner = 1;
    assert_eq!(
        try_append(&body, &mut document),
        Some(Err(Unappendable::Inconsistent))
    );
}

#[test]
fn what_does_not_fit_is_not_tried() {
    let line = Curve2::Line { start: at(0.0, 0.0), end: at(1.0, 0.0) };
    let mut dangling = disc(plane(), Some(line));
    dangling.faces[0].surface = 5;
    let mut ragged = disc(bilinear(), None);
    if let Surface::Nurbs(surface) = &mut ragged.surfaces[0] {
        surface.weights[1].pop();
    }
    let mut netless = disc(bilinear(), None);
    if let Surface::Nurbs(surface) = &mut netless.surfaces[0] {
        surface.control_points.clear();
    }
    for body in [dangling, ragged, netless] {
        let mut document = SatDocument::new();
        assert_eq!(try_append(&body, &mut document), None);
        assert_eq!(document.record_count(), 0);
        assert_eq!(document.header.num_bodies, 0);
    }
}

#[test]
fn what_is_never_reached_need_not_fit() {
    let ragged = || {
        let mut body = disc(bilinear(), None);
        if let Surface::Nurbs(surface) = &mut body.surfaces[0] {
            surface.control_points[1].pop();
        }
        body
    };
    let mut body = ragged();
    assert!(!is_fitting(&body, 0, 0));
    body.faults.push("face 0 is open".to_string());
    let mut document = SatDocument::new();
    assert_eq!(try_append(&body, &mut document), Some(Err(Unappendable::Inconsistent)));
    assert!(is_fitting(&body, usize::MAX, usize::MAX));
    let mut body = ragged();
    body.curves.push(Curve3::Circle { plane: frame(None), major: point(1.0, 0.0, 0.0) });
    let mut document = SatDocument::new();
    assert_eq!(try_append(&body, &mut document), Some(Err(Unappendable::Curve)));
    let mut body = ragged();
    body.surfaces.insert(0, Surface::Plane { frame: frame(None) });
    let mut document = SatDocument::new();
    assert_eq!(try_append(&body, &mut document), Some(Err(Unappendable::Surface)));
    let line = || Some(Curve2::Line { start: at(0.0, 0.0), end: at(1.0, 0.0) });
    let mut body = disc(plane(), line());
    body.faces[0].surface = 5;
    body.coedges.insert(
        0,
        Coedge { edge: 0, owner: 8, forward: true, partner: None, pcurve: line() },
    );
    let mut document = SatDocument::new();
    assert_eq!(try_append(&body, &mut document), Some(Err(Unappendable::Inconsistent)));
}

#[test]
fn documents_have_room_for_so_many_records() {
    let body = disc(plane(), None);
    let limit = i32::MAX as usize;
    assert!(is_fitting(&body, limit - 11, 0));
    assert!(!is_fitting(&body, limit - 10, 0));
    assert!(is_fitting(&body, 0, usize::MAX - 1));
    assert!(!is_fitting(&body, 0, usize::MAX));
    // A body that is refused needs room for no more than gets written, and none
    // in the count of bodies.
    let mut body = disc(plane(), None);
    body.shells[0].owner = 3;
    assert!(is_fitting(&body, limit - 11, usize::MAX));
    assert!(!is_fitting(&body, limit - 10, usize::MAX));
    let mut body = disc(plane(), None);
    body.loops[0].coedges.push(9);
    assert!(is_fitting(&body, 0, usize::MAX));
    let mut body = disc(plane(), None);
    body.loops[0].owner = 9;
    assert!(is_fitting(&body, 0, usize::MAX));
    let mut body = disc(plane(), None);
    body.faces[0].owner = 9;
    assert!(is_fitting(&body, 0, usize::MAX));
    let body = disc(bilinear(), Some(Curve2::Other));
    assert!(is_fitting(&body, limit - 5, usize::MAX));
    assert!(!is_fitting(&body, limit - 4, usize::MAX));
    let body = disc(Surface::Plane { frame: frame(None) }, None);
    assert!(is_fitting(&body, limit - 3, usize::MAX));
    assert!(!is_fitting(&body, limit - 2, usize::MAX));
    let mut body = disc(plane(), None);
    body.curves[0] = Curve3::Circle { plane: frame(None), major: point(1.0, 0.0, 0.0) };
    assert!(is_fitting(&body, limit - 2, usize::MAX));
    assert!(!is_fitting(&body, limit - 1, usize::MAX));

    let body = disc(plane(), None);
    let mut document = SatDocument::new();
    document.header.num_bodies = usize::MAX;
    assert_eq!(try_append(&body, &mut document), None);
    document.header.num_bodies = usize::MAX - 1;
    assert!(try_append(&body, &mut document).is_some());
    assert_eq!(document.header.num_bodies, usize::MAX);
}

/// A document with one record before the body, of the given tokens.
fn holding(tokens: Vec<SatToken>) -> SatDocument {
    let mut document = SatDocument::new();
    let mut record = SatRecord::new(0, "attrib");
    record.tokens = tokens;
    document.add_record(record);
    document
}

fn raw(tag: u8, data: &[u8]) -> SatToken {
    SatToken::Sab { tag, data: data.to_vec() }
}

fn on_a_spline() -> Body {
    let line = Curve2::Line { start: at(0.0, 0.0), end: at(1.0, 0.0) };
    disc(bilinear(), Some(line))
}

#[test]
fn a_binary_string_that_is_cut_off_is_not_searched() {
    for (tag, length) in [(0x07, 1), (0x0D, 1), (0x0E, 1), (0x08, 2), (0x09, 4), (0x12, 4)] {
        for bytes in 0..6 {
            let mut document = holding(vec![raw(tag, &vec![0; bytes]), SatToken::True]);
            let before = document.clone();
            assert_eq!(is_readable(&document), bytes >= length);
            match try_append(&on_a_spline(), &mut document) {
                Some(result) => {
                    assert!(bytes >= length);
                    assert_eq!(result, Ok(Written { body: 12, records: 12 }));
                }
                None => {
                    assert!(bytes < length);
                    assert_eq!(document.records, before.records);
                    assert_eq!(document.header, before.header);
                }
            }
        }
    }
}

#[test]
fn a_binary_token_of_another_kind_may_be_of_any_length() {
    for tag in [0x02, 0x06, 0x0A, 0x0C, 0x0F, 0x10, 0x11, 0x13, 0xFF] {
        let mut document = holding(vec![raw(tag, &[]), SatToken::True]);
        assert!(is_readable(&document));
        assert!(try_append(&on_a_spline(), &mut document).is_some());
    }
}

#[test]
fn the_last_token_is_searched_behind_an_opening_brace() {
    let short = || raw(0x0D, &[]);
    let openings = [
        SatToken::Ident("{".to_string()),
        SatToken::Enum("{".to_string()),
        raw(0x0F, &[]),
        raw(0x07, &[1, 0x7b]),
        raw(0x08, &[1, 0, 0x7b]),
        raw(0x12, &[1, 0, 0, 0, 0x7b]),
    ];
    for opening in openings {
        let mut document = holding(vec![opening, short()]);
        assert!(!is_readable(&document));
        assert_eq!(try_append(&on_a_spline(), &mut document), None);
    }
    let others = [
        SatToken::Ident("}".to_string()),
        SatToken::String("{".to_string()),
        SatToken::Integer(0x7b),
        raw(0x10, &[]),
        raw(0x07, &[1, 0x7d]),
        raw(0x07, &[2, 0x7b, 0x7b]),
        raw(0x02, &[0x7b]),
    ];
    for other in others {
        let mut document = holding(vec![other, short()]);
        assert!(is_readable(&document));
        assert!(try_append(&on_a_spline(), &mut document).is_some());
    }
    let mut document = holding(vec![short()]);
    assert!(is_readable(&document));
    assert!(try_append(&on_a_spline(), &mut document).is_some());
}

#[test]
fn a_document_is_searched_for_curves_on_spline_surfaces_only() {
    let illegible = || holding(vec![raw(0x0D, &[]), SatToken::True]);
    let line = || Some(Curve2::Line { start: at(0.0, 0.0), end: at(1.0, 0.0) });
    // On a plane, without a curve, and where something else is wrong first.
    let mut inconsistent = on_a_spline();
    inconsistent.faults.push("loop 0 is open".to_string());
    let mut curveless = on_a_spline();
    curveless.curves.push(Curve3::Circle { plane: frame(None), major: point(1.0, 0.0, 0.0) });
    let mut faceless = on_a_spline();
    faceless.loops[0].owner = 9;
    for body in [disc(plane(), line()), disc(bilinear(), None), inconsistent, curveless, faceless] {
        assert!(try_append(&body, &mut illegible()).is_some());
        assert!(is_taking(&illegible(), &body));
    }
    assert!(!is_taking(&illegible(), &on_a_spline()));
}

#[test]
fn a_legible_document_stays_legible() {
    let mut document = holding(vec![raw(0x0D, &[0]), SatToken::True]);
    for bodies in 1..4 {
        assert!(matches!(try_append(&on_a_spline(), &mut document), Some(Ok(_))));
        assert!(is_readable(&document));
        assert_eq!(document.header.num_bodies, bodies);
        assert_eq!(document.header.num_records, document.record_count());
    }
    assert_eq!(append(&on_a_spline(), &mut document).map(|written| written.records), Ok(12));
}

#[test]
fn the_header_counts_what_is_written_and_no_more() {
    let mut refused = disc(plane(), None);
    refused.shells[0].owner = 9;
    let mut inconsistent = disc(plane(), None);
    inconsistent.faults.push("loop 0 is open".to_string());
    let bodies = [disc(plane(), None), refused, on_a_spline(), inconsistent, empty()];
    let mut document = SatDocument::new();
    for body in bodies {
        let _ = append(&body, &mut document);
    }
    assert_eq!(document.header.num_bodies, 3);
    assert_eq!(document.header.num_records, document.record_count());
}
