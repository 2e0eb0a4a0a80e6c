//! The records of curves and surfaces.

use acadrust::entities::acis::types::{SatDocument, SatPointer, SatToken};
use acis_append::append::append;
use acis_append::body::{Body, Coedge, Face, Loop, Lump, Shell};
use acis_append::geometry::{
    is_same_position, Curve2, Curve3, Frame, NurbsCurve2, NurbsCurve3, NurbsSurface3, Point2,
    Point3, Surface,
};
use acis_append::knots::distinct_knots;
use acis_append::records::{
    cone_tokens, curve_record, ellipse_tokens, null, pointer, position, sense, surface_record,
};
use acis_append::scalar::{
    is_positive_and_finite, same_value, INFINITY, NEGATIVE_ZERO, ONE, ZERO,
};
use acis_append::splines::flatten;
use acis_append::token::Token;

fn point(x: f64, y: f64, z: f64) -> Point3 {
    Point3 { x: x.to_bits(), y: y.to_bits(), z: z.to_bits() }
}

fn at(u: f64, v: f64) -> Point2 {
    Point2 { u: u.to_bits(), v: v.to_bits() }
}

fn bits(values: &[f64]) -> Vec<u64> {
    values.iter().map(|value| value.to_bits()).collect()
}

fn frame() -> Frame {
    Frame {
        origin: point(1.0, 2.0, 3.0),
        x_axis: point(1.0, 0.0, 0.0),
        normal: Some(point(0.0, 0.0, 1.0)),
    }
}

fn ident(name: &str) -> Token {
    Token::Ident(name.to_string())
}

fn float(value: f64) -> Token {
    Token::Float(value.to_bits())
}

fn empty() -> Body {
    Body {
        vertices: vec![],
        curves: vec![],
        surfaces: vec![],
        edges: vec![],
        coedges: vec![],
        loops: vec![],
        faces: vec![],
        shells: vec![],
        lumps: vec![],
        roots: vec![],
        faults: vec![],
    }
}

/// The tokens of a written record, after what every one leads with.
fn written(body: &Body, index: usize, kind: &str) -> Vec<SatToken> {
    let mut document = SatDocument::new();
    append(body, &mut document).expect("body should append");
    let record = &document.records[index];
    assert_eq!(record.entity_type, kind);
    assert_eq!(record.tokens[0], SatToken::Pointer(SatPointer::new(-1)));
    assert!(document.validate().is_empty());
    record.tokens[1..].to_vec()
}

fn word(name: &str) -> SatToken {
    SatToken::Ident(name.to_string())
}

fn choice(name: &str) -> SatToken {
    SatToken::Enum(name.to_string())
}

fn numbers(values: &[f64]) -> Vec<SatToken> {
    values.iter().map(|value| SatToken::Float(*value)).collect()
}

#[test]
fn single_tokens() {
    assert_eq!(position(point(1.0, 2.0, 3.0)), Token::Position(point(1.0, 2.0, 3.0)));
    assert_eq!(pointer(7), Token::Pointer(7));
    assert_eq!(null(), Token::Pointer(-1));
    assert_eq!(sense(true), ident("forward"));
    assert_eq!(sense(false), ident("reversed"));
}

#[test]
fn planes() {
    let (kind, tokens) = surface_record(&Surface::Plane { frame: frame() }).expect("plane");
    assert_eq!(kind, "plane-surface");
    assert_eq!(
        tokens,
        vec![
            Token::Position(point(1.0, 2.0, 3.0)),
            Token::Position(point(0.0, 0.0, 1.0)),
            Token::Position(point(1.0, 0.0, 0.0)),
            ident("forward_v"),
            ident("I"),
            ident("I"),
            ident("I"),
            ident("I"),
        ]
    );
}

#[test]
fn cones() {
    let tokens = cone_tokens(
        point(1.0, 2.0, 3.0),
        point(0.0, 0.0, 1.0),
        point(4.0, 0.0, 0.0),
        (-0.6f64).to_bits(),
        0.8f64.to_bits(),
        4.0f64.to_bits(),
    );
    assert_eq!(
        tokens,
        vec![
            Token::Position(point(1.0, 2.0, 3.0)),
            Token::Position(point(0.0, 0.0, 1.0)),
            Token::Position(point(4.0, 0.0, 0.0)),
            float(1.0),
            ident("I"),
            ident("I"),
            float(-0.6),
            float(0.8),
            float(4.0),
            ident("forward"),
            ident("I"),
            ident("I"),
            ident("I"),
            ident("I"),
        ]
    );
    let cone = Surface::Cone {
        frame: frame(),
        major: point(4.0, 0.0, 0.0),
        sine: (-0.6f64).to_bits(),
        cosine: 0.8f64.to_bits(),
        radius: 4.0f64.to_bits(),
    };
    assert_eq!(surface_record(&cone), Some(("cone-surface", tokens)));
}

#[test]
fn a_cylinder_is_a_cone_without_an_angle() {
    let (sine, cosine) = (-0.0f64).sin_cos();
    let cylinder = Surface::Cylinder {
        frame: frame(),
        major: point(4.0, 0.0, 0.0),
        radius: 4.0f64.to_bits(),
    };
    let cone = Surface::Cone {
        frame: frame(),
        major: point(4.0, 0.0, 0.0),
        sine: sine.to_bits(),
        cosine: cosine.to_bits(),
        radius: 4.0f64.to_bits(),
    };
    assert_eq!(surface_record(&cylinder), surface_record(&cone));
    let (kind, tokens) = surface_record(&cylinder).expect("cylinder");
    assert_eq!(kind, "cone-surface");
    assert_eq!(tokens[6], Token::Float(NEGATIVE_ZERO));
    assert_eq!(tokens[7], Token::Float(ONE));
}

#[test]
fn a_reader_finds_the_angle_and_the_radius_of_a_cone() {
    let mut body = empty();
    body.surfaces.push(Surface::Cone {
        frame: frame(),
        major: point(4.0, 0.0, 0.0),
        sine: (-0.6f64).to_bits(),
        cosine: 0.8f64.to_bits(),
        radius: 4.0f64.to_bits(),
    });
    let mut document = SatDocument::new();
    append(&body, &mut document).expect("body should append");
    let text = document.to_sat_string();
    let parsed = SatDocument::parse(&text).expect("emitted SAT should re-parse");
    let record = parsed.records_of_type("cone-surface")[0];
    assert_eq!(record.tokens[13].as_float(), Some(-0.6));
    assert_eq!(record.tokens[14].as_float(), Some(0.8));
    assert_eq!(record.tokens[15].as_float(), Some(4.0));
}

#[test]
fn spheres() {
    let sphere = Surface::Sphere { frame: frame(), radius: 4.0f64.to_bits() };
    let (kind, tokens) = surface_record(&sphere).expect("sphere");
    assert_eq!(kind, "sphere-surface");
    assert_eq!(
        tokens,
        vec![
            Token::Position(point(1.0, 2.0, 3.0)),
            float(4.0),
            Token::Position(point(1.0, 0.0, 0.0)),
            Token::Position(point(0.0, 0.0, 1.0)),
            ident("forward_v"),
            ident("I"),
            ident("I"),
            ident("I"),
            ident("I"),
        ]
    );
}

#[test]
fn tori() {
    let torus = Surface::Torus {
        frame: frame(),
        major_radius: 4.0f64.to_bits(),
        minor_radius: 0.5f64.to_bits(),
    };
    let (kind, tokens) = surface_record(&torus).expect("torus");
    assert_eq!(kind, "torus-surface");
    assert_eq!(
        tokens,
        vec![
            Token::Position(point(1.0, 2.0, 3.0)),
            Token::Position(point(0.0, 0.0, 1.0)),
            float(4.0),
            float(0.5),
            Token::Position(point(1.0, 0.0, 0.0)),
            ident("forward_v"),
            ident("I"),
            ident("I"),
            ident("I"),
            ident("I"),
        ]
    );
}

#[test]
fn surfaces_without_a_record() {
    let degenerate = Frame { normal: None, ..frame() };
    assert_eq!(surface_record(&Surface::Plane { frame: degenerate }), None);
    assert_eq!(surface_record(&net(false)), None);
    assert_eq!(net(false).frame(), None);
    assert_eq!(Surface::Plane { frame: degenerate }.frame(), Some(degenerate));
}

#[test]
fn lines() {
    let line = Curve3::Line { origin: point(1.0, 2.0, 3.0), direction: point(0.0, 0.0, 1.0) };
    assert_eq!(
        curve_record(&line),
        Some((
            "straight-curve",
            vec![
                Token::Position(point(1.0, 2.0, 3.0)),
                Token::Position(point(0.0, 0.0, 1.0)),
                ident("I"),
                ident("I"),
            ]
        ))
    );
}

#[test]
fn circles_and_ellipses() {
    let tokens = ellipse_tokens(
        point(1.0, 2.0, 3.0),
        point(0.0, 0.0, 1.0),
        point(4.0, 0.0, 0.0),
        0.5f64.to_bits(),
    );
    assert_eq!(
        tokens,
        vec![
            Token::Position(point(1.0, 2.0, 3.0)),
            Token::Position(point(0.0, 0.0, 1.0)),
            Token::Position(point(4.0, 0.0, 0.0)),
            float(0.5),
            ident("I"),
            ident("I"),
        ]
    );
    let ellipse = Curve3::Ellipse {
        plane: frame(),
        major: point(4.0, 0.0, 0.0),
        ratio: 0.5f64.to_bits(),
    };
    assert_eq!(curve_record(&ellipse), Some(("ellipse-curve", tokens)));
    let circle = Curve3::Circle { plane: frame(), major: point(4.0, 0.0, 0.0) };
    let (kind, tokens) = curve_record(&circle).expect("circle");
    assert_eq!(kind, "ellipse-curve");
    assert_eq!(tokens[3], float(1.0));
}

#[test]
fn curves_without_a_record() {
    let degenerate = Frame { normal: None, ..frame() };
    let circle = Curve3::Circle { plane: degenerate, major: point(4.0, 0.0, 0.0) };
    assert_eq!(curve_record(&circle), None);
    let ellipse = Curve3::Ellipse { plane: degenerate, major: point(4.0, 0.0, 0.0), ratio: ONE };
    assert_eq!(curve_record(&ellipse), None);
    assert_eq!(curve_record(&Curve3::Nurbs(spline(false))), None);
    let planar = Curve3::PlanarSpline { width: ONE, lifted: Some(spline(false)), closed: false };
    assert_eq!(curve_record(&planar), None);
}

#[test]
fn numbers_reach_their_tokens() {
    let mut body = empty();
    body.surfaces.push(Surface::Sphere { frame: frame(), radius: (-1.5e300f64).to_bits() });
    let tokens = written(&body, 0, "sphere-surface");
    assert_eq!(tokens[0], SatToken::Position(1.0, 2.0, 3.0));
    assert_eq!(tokens[1], SatToken::Float(-1.5e300));
    assert_eq!(tokens[4], word("forward_v"));
}

fn spline(rational: bool) -> NurbsCurve3 {
    NurbsCurve3 {
        degree: 2,
        knots: bits(&[0.0, 0.0, 0.0, 1.0, 1.0, 1.0]),
        control_points: vec![point(0.0, 0.0, 0.0), point(1.0, 2.0, 0.0), point(2.0, 0.0, 0.0)],
        weights: bits(&[1.0, 0.5, 1.0]),
        rational,
        periodic: false,
    }
}

fn curve_tail() -> Vec<SatToken> {
    let mut tail = numbers(&[0.0]);
    tail.extend(["null_surface", "null_surface", "nullbs", "nullbs", "I", "I"].map(word));
    tail.extend([SatToken::Integer(0), SatToken::Integer(0), SatToken::Integer(0)]);
    tail.extend([word("F"), SatToken::Float(1.0), word("F"), SatToken::Float(0.0)]);
    tail.extend(["}", "I", "I"].map(word));
    tail
}

fn curve_head(form: &str, closure: &str) -> Vec<SatToken> {
    vec![
        word("forward"),
        word("{"),
        word("exactcur"),
        choice("full"),
        word(form),
        SatToken::Integer(2),
        choice(closure),
        SatToken::Integer(2),
        SatToken::Float(0.0),
        SatToken::Integer(2),
        SatToken::Float(1.0),
        SatToken::Integer(2),
    ]
}

#[test]
fn spline_curves() {
    let mut body = empty();
    body.curves.push(Curve3::Nurbs(spline(false)));
    let mut expected = curve_head("nubs", "open");
    expected.extend(numbers(&[0.0, 0.0, 0.0, 1.0, 2.0, 0.0, 2.0, 0.0, 0.0]));
    expected.extend(curve_tail());
    assert_eq!(written(&body, 0, "intcurve-curve"), expected);
}

#[test]
fn rational_spline_curves_carry_their_weights() {
    let mut body = empty();
    body.curves.push(Curve3::Nurbs(spline(true)));
    let mut expected = curve_head("nurbs", "open");
    expected.extend(numbers(&[
        0.0, 0.0, 0.0, 1.0, 1.0, 2.0, 0.0, 0.5, 2.0, 0.0, 0.0, 1.0,
    ]));
    expected.extend(curve_tail());
    assert_eq!(written(&body, 0, "intcurve-curve"), expected);
}

#[test]
fn a_planar_spline_is_periodic_where_it_is_closed() {
    let mut body = empty();
    body.curves.push(Curve3::PlanarSpline {
        width: 3.0f64.to_bits(),
        lifted: Some(spline(false)),
        closed: true,
    });
    let mut expected = curve_head("nubs", "closed");
    expected.extend(numbers(&[0.0, 0.0, 0.0, 1.0, 2.0, 0.0, 2.0, 0.0, 0.0]));
    expected.extend(curve_tail());
    assert_eq!(written(&body, 0, "intcurve-curve"), expected);
}

/// A net of two by three control points.
fn net(rational: bool) -> Surface {
    Surface::Nurbs(NurbsSurface3 {
        u_degree: 1,
        v_degree: 2,
        u_knots: bits(&[0.0, 0.0, 1.0, 1.0]),
        v_knots: bits(&[0.0, 0.0, 0.0, 1.0, 1.0, 1.0]),
        control_points: vec![
            vec![point(0.0, 0.0, 0.0), point(0.0, 1.0, 0.0), point(0.0, 2.0, 0.0)],
            vec![point(1.0, 0.0, 0.0), point(1.0, 1.0, 0.0), point(1.0, 2.0, 0.0)],
        ],
        weights: vec![bits(&[1.0, 2.0, 3.0]), bits(&[4.0, 5.0, 6.0])],
        rational,
        u_periodic: false,
        v_periodic: true,
        v_reversed: true,
    })
}

#[test]
fn spline_surfaces() {
    let mut body = empty();
    body.surfaces.push(net(false));
    let tokens = written(&body, 0, "spline-surface");
    assert_eq!(tokens[0], word("reversed"));
    assert_eq!(tokens[1], word("{"));
    assert_eq!(tokens[2], word("exactsur"));
    let floats: Vec<f64> = tokens
        .iter()
        .filter_map(|token| match token {
            SatToken::Float(value) => Some(*value),
            _ => None,
        })
        .collect();
    // The knots of either direction, then the net column by column, then the
    // tolerance.
    assert_eq!(floats[..4], [0.0, 1.0, 0.0, 1.0]);
    assert_eq!(
        floats[4..22],
        [
            0.0, 0.0, 0.0, 1.0, 0.0, 0.0, 0.0, 1.0, 0.0, 1.0, 1.0, 0.0, 0.0, 2.0, 0.0, 1.0, 2.0,
            0.0
        ]
    );
    assert_eq!(floats[22..], [0.0]);
}

#[test]
fn rational_spline_surfaces_carry_their_weights() {
    let mut body = empty();
    body.surfaces.push(net(true));
    let tokens = written(&body, 0, "spline-surface");
    assert!(tokens.contains(&word("nurbs")));
    let floats: Vec<f64> = tokens
        .iter()
        .filter_map(|token| match token {
            SatToken::Float(value) => Some(*value),
            _ => None,
        })
        .collect();
    assert_eq!(
        floats[4..28],
        [
            0.0, 0.0, 0.0, 1.0, 1.0, 0.0, 0.0, 4.0, 0.0, 1.0, 0.0, 2.0, 1.0, 1.0, 0.0, 5.0, 0.0,
            2.0, 0.0, 3.0, 1.0, 2.0, 0.0, 6.0
        ]
    );
}

fn on(surface: Surface, pcurve: Curve2) -> Body {
    let mut body = empty();
    body.surfaces.push(surface);
    body.coedges.push(Coedge {
        edge: 0,
        owner: 0,
        forward: true,
        partner: None,
        pcurve: Some(pcurve),
    });
    body.loops.push(Loop { owner: 0, coedges: vec![0] });
    body.faces.push(Face { owner: 0, surface: 0, forward: true, loops: vec![0] });
    body.shells.push(Shell { owner: 0, faces: vec![0] });
    body.lumps.push(Lump { shells: vec![0] });
    body.roots.push(0);
    body
}

#[test]
fn a_line_on_a_plane() {
    let body = on(
        Surface::Plane { frame: frame() },
        Curve2::Line { start: at(0.25, 0.5), end: at(0.75, 1.0) },
    );
    let mut expected = vec![
        SatToken::Integer(0),
        word("forward"),
        word("{"),
        word("exppc"),
        word("nubs"),
        SatToken::Integer(1),
        choice("open"),
        SatToken::Integer(2),
        SatToken::Float(0.0),
        SatToken::Integer(1),
        SatToken::Float(1.0),
        SatToken::Integer(1),
    ];
    expected.extend(numbers(&[0.25, 0.5, 0.75, 1.0, 0.0]));
    expected.extend([
        word("plane"),
        SatToken::Position(1.0, 2.0, 3.0),
        SatToken::Position(0.0, 0.0, 1.0),
        SatToken::Position(1.0, 0.0, 0.0),
    ]);
    expected.extend(["forward_v", "I", "I", "I", "I", "}"].map(word));
    expected.extend(numbers(&[0.0, 0.0]));
    assert_eq!(written(&body, 1, "pcurve"), expected);
}

fn pcurve(rational: bool, end: Point2) -> Curve2 {
    Curve2::Nurbs(NurbsCurve2 {
        degree: 1,
        knots: bits(&[0.0, 0.0, 2.0, 2.0]),
        control_points: vec![at(0.0, 0.0), at(1.0, 0.5)],
        weights: bits(&[1.0, 0.5]),
        rational,
        start: at(0.0, 0.0),
        end,
    })
}

#[test]
fn a_spline_on_a_spline_surface() {
    let tokens = written(&on(net(false), pcurve(true, at(1.0, 0.5))), 1, "pcurve");
    let mut expected = vec![
        SatToken::Integer(0),
        word("forward"),
        word("{"),
        word("exppc"),
        word("nurbs"),
        SatToken::Integer(1),
        choice("open"),
        SatToken::Integer(2),
        SatToken::Float(0.0),
        SatToken::Integer(1),
        SatToken::Float(2.0),
        SatToken::Integer(1),
    ];
    expected.extend(numbers(&[0.0, 0.0, 1.0, 1.0, 0.5, 0.5, 0.0]));
    expected.extend([
        word("spline"),
        word("reversed"),
        word("{"),
        word("ref"),
        SatToken::Integer(0),
        word("}"),
    ]);
    expected.extend(["I", "I", "I", "I", "}"].map(word));
    expected.extend(numbers(&[0.0, 0.0]));
    assert_eq!(tokens, expected);
}

#[test]
fn a_spline_that_ends_where_it_starts_is_closed() {
    let closure = |end: Point2| {
        written(&on(Surface::Plane { frame: frame() }, pcurve(false, end)), 1, "pcurve")[6].clone()
    };
    assert_eq!(closure(at(0.0, 0.0)), choice("closed"));
    assert_eq!(closure(at(-0.0, 0.0)), choice("closed"));
    assert_eq!(closure(at(0.0, 0.5)), choice("open"));
    assert_eq!(closure(at(f64::NAN, 0.0)), choice("open"));
}

#[test]
fn knots_are_grouped() {
    let grouped = distinct_knots(&bits(&[0.0, 0.0, 0.5, 1.0, 1.0, 1.0, 0.5]));
    assert_eq!(
        grouped,
        vec![(ZERO, 2), (0.5f64.to_bits(), 1), (ONE, 3), (0.5f64.to_bits(), 1)]
    );
    assert_eq!(distinct_knots(&vec![]), vec![]);
    // Both zeros are one knot, the first of which is kept.
    assert_eq!(distinct_knots(&bits(&[-0.0, 0.0, -0.0])), vec![(NEGATIVE_ZERO, 3)]);
    // What is not a number is never the same.
    let nan = f64::NAN.to_bits();
    assert_eq!(distinct_knots(&vec![nan, nan]), vec![(nan, 1), (nan, 1)]);
}

#[test]
fn grouped_knots_give_the_knots_back() {
    let knots = bits(&[0.0, 0.0, 0.0, 0.25, 0.25, 1.0, 1.0]);
    let mut back = Vec::new();
    for (value, multiplicity) in distinct_knots(&knots) {
        assert!(multiplicity >= 1);
        for _ in 0..multiplicity {
            back.push(value);
        }
    }
    assert_eq!(back, knots);
}

#[test]
fn nets_are_laid_out_column_by_column() {
    let grid = vec![vec![1, 2, 3], vec![4, 5, 6]];
    assert_eq!(flatten(&grid, 2, 3), vec![1, 4, 2, 5, 3, 6]);
    assert_eq!(flatten(&grid, 2, 2), vec![1, 4, 2, 5]);
    assert_eq!(flatten(&grid, 0, 3), Vec::<i32>::new());
    assert_eq!(flatten(&grid, 9, 0), Vec::<i32>::new());
    let flat = flatten(&grid, 2, 3);
    for v in 0..3 {
        for u in 0..2 {
            assert_eq!(flat[v * 2 + u], grid[u][v]);
        }
    }
}

#[test]
fn bit_patterns_compare_as_doubles() {
    let values = [
        0.0,
        -0.0,
        1.0,
        -1.0,
        f64::MIN_POSITIVE,
        f64::MAX,
        f64::INFINITY,
        f64::NEG_INFINITY,
        f64::NAN,
        -f64::NAN,
        f64::from_bits(1),
    ];
    for left in values {
        for right in values {
            assert_eq!(same_value(left.to_bits(), right.to_bits()), left == right);
        }
        assert_eq!(is_positive_and_finite(left.to_bits()), left.is_finite() && left > 0.0);
    }
    assert_eq!(ZERO, 0.0f64.to_bits());
    assert_eq!(NEGATIVE_ZERO, (-0.0f64).to_bits());
    assert_eq!(ONE, 1.0f64.to_bits());
    assert_eq!(INFINITY, f64::INFINITY.to_bits());
    assert!(is_same_position(at(0.0, 1.0), at(-0.0, 1.0)));
    assert!(!is_same_position(at(0.0, 1.0), at(0.0, 2.0)));
}
