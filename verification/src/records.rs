//! The records of single tokens, curves and surfaces.

use vstd::prelude::*;
use crate::geometry::{Curve3, Frame, Point3, Surface};
use crate::scalar::{Bits, NEGATIVE_ZERO, ONE};
use crate::token::{token_views, NULL, Token, TokenView};

verus! {

/// The token of a position or a direction.
pub fn position(value: Point3) -> (token: Token)
    ensures
        token@ == TokenView::Position(value),
{
    Token::Position(value)
}

/// The token that points at a record.
pub fn pointer(id: i32) -> (token: Token)
    ensures
        token@ == TokenView::Pointer(id as int),
{
    Token::Pointer(id)
}

/// What [`null`] says.
pub open spec fn null_view() -> TokenView {
    TokenView::Pointer(NULL as int)
}

/// The token that points at nothing.
pub fn null() -> (token: Token)
    ensures
        token@ == null_view(),
{
    pointer(NULL)
}

/// What [`sense`] says.
pub open spec fn sense_view(forward: bool) -> TokenView {
    TokenView::Ident(
        if forward {
            "forward"@
        } else {
            "reversed"@
        },
    )
}

/// The keyword for a direction: along its geometry or against it.
pub fn sense(forward: bool) -> (token: Token)
    ensures
        token@ == sense_view(forward),
{
    Token::Ident(
        if forward {
            "forward".to_string()
        } else {
            "reversed".to_string()
        },
    )
}

/// A keyword.
fn ident(name: &str) -> (token: Token)
    ensures
        token@ == TokenView::Ident(name@),
{
    Token::Ident(name.to_string())
}

/// What [`cone_tokens`] says.
pub open spec fn cone_view(
    origin: Point3,
    axis: Point3,
    major: Point3,
    sine: Bits,
    cosine: Bits,
    radius: Bits,
) -> Seq<TokenView> {
    seq![
        TokenView::Position(origin),
        TokenView::Position(axis),
        TokenView::Position(major),
        TokenView::Float(ONE),
        TokenView::Ident("I"@),
        TokenView::Ident("I"@),
        TokenView::Float(sine),
        TokenView::Float(cosine),
        TokenView::Float(radius),
        TokenView::Ident("forward"@),
        TokenView::Ident("I"@),
        TokenView::Ident("I"@),
        TokenView::Ident("I"@),
        TokenView::Ident("I"@),
    ]
}

/// A cone record, cylinder included: ACIS has no separate cylinder record,
/// only a cone whose half angle is zero.
///
/// The radius is carried as the *length* of the major axis, which is how it is
/// read back. The two continuation tokens before the half angle are not
/// decoration: the reader looks for the sine at a fixed place. The sense and the
/// four bound flags at the end are mandatory: readers index these fields by
/// position and reject a record that ends early. A cone carries `forward`, not
/// `forward_v`.
pub fn cone_tokens(
    origin: Point3,
    axis: Point3,
    major: Point3,
    sine: Bits,
    cosine: Bits,
    radius: Bits,
) -> (tokens: Vec<Token>)
    ensures
        token_views(tokens@) == cone_view(origin, axis, major, sine, cosine, radius),
{
    let tokens = vec![
        position(origin),
        position(axis),
        position(major),
        Token::Float(ONE),
        ident("I"),
        ident("I"),
        Token::Float(sine),
        Token::Float(cosine),
        Token::Float(radius),
        ident("forward"),
        ident("I"),
        ident("I"),
        ident("I"),
        ident("I"),
    ];
    proof {
        assert(token_views(tokens@) =~= cone_view(origin, axis, major, sine, cosine, radius));
    }
    tokens
}

/// What [`ellipse_tokens`] says.
pub open spec fn ellipse_view(centre: Point3, normal: Point3, major: Point3, ratio: Bits) -> Seq<
    TokenView,
> {
    seq![
        TokenView::Position(centre),
        TokenView::Position(normal),
        TokenView::Position(major),
        TokenView::Float(ratio),
        TokenView::Ident("I"@),
        TokenView::Ident("I"@),
    ]
}

/// An ellipse record, circle included. Two bound flags close it.
pub fn ellipse_tokens(centre: Point3, normal: Point3, major: Point3, ratio: Bits) -> (tokens: Vec<
    Token,
>)
    ensures
        token_views(tokens@) == ellipse_view(centre, normal, major, ratio),
{
    let tokens = vec![
        position(centre),
        position(normal),
        position(major),
        Token::Float(ratio),
        ident("I"),
        ident("I"),
    ];
    proof {
        assert(token_views(tokens@) =~= ellipse_view(centre, normal, major, ratio));
    }
    tokens
}

/// What [`surface_record`] says: the entity type and the tokens of an analytic
/// surface. A surface whose frame is degenerate has no normal to write, and a
/// spline surface is no analytic one.
pub open spec fn surface_view(surface: Surface) -> Option<(Seq<char>, Seq<TokenView>)> {
    match surface.spec_frame() {
        None => None,
        Some(frame) => match frame.normal {
            None => None,
            Some(normal) => Some(
                match surface {
                    Surface::Plane { .. } => (
                        "plane-surface"@,
                        seq![
                            TokenView::Position(frame.origin),
                            TokenView::Position(normal),
                            TokenView::Position(frame.x_axis),
                            TokenView::Ident("forward_v"@),
                            TokenView::Ident("I"@),
                            TokenView::Ident("I"@),
                            TokenView::Ident("I"@),
                            TokenView::Ident("I"@),
                        ],
                    ),
                    Surface::Cylinder { major, radius, .. } => (
                        "cone-surface"@,
                        cone_view(frame.origin, normal, major, NEGATIVE_ZERO, ONE, radius),
                    ),
                    Surface::Cone { major, sine, cosine, radius, .. } => (
                        "cone-surface"@,
                        cone_view(frame.origin, normal, major, sine, cosine, radius),
                    ),
                    Surface::Sphere { radius, .. } => (
                        "sphere-surface"@,
                        seq![
                            TokenView::Position(frame.origin),
                            TokenView::Float(radius),
                            TokenView::Position(frame.x_axis),
                            TokenView::Position(normal),
                            TokenView::Ident("forward_v"@),
                            TokenView::Ident("I"@),
                            TokenView::Ident("I"@),
                            TokenView::Ident("I"@),
                            TokenView::Ident("I"@),
                        ],
                    ),
                    Surface::Torus { major_radius, minor_radius, .. } => (
                        "torus-surface"@,
                        seq![
                            TokenView::Position(frame.origin),
                            TokenView::Position(normal),
                            TokenView::Float(major_radius),
                            TokenView::Float(minor_radius),
                            TokenView::Position(frame.x_axis),
                            TokenView::Ident("forward_v"@),
                            TokenView::Ident("I"@),
                            TokenView::Ident("I"@),
                            TokenView::Ident("I"@),
                            TokenView::Ident("I"@),
                        ],
                    ),
                    Surface::Nurbs(_) => (Seq::empty(), Seq::empty()),
                },
            ),
        },
    }
}

/// What an entity type and its tokens say.
pub open spec fn entry_view(entry: Option<(&'static str, Vec<Token>)>) -> Option<
    (Seq<char>, Seq<TokenView>),
> {
    match entry {
        Some((kind, tokens)) => Some((kind@, token_views(tokens@))),
        None => None,
    }
}

/// The entity type and the tokens of an analytic surface, after the leading
/// pointer. `None` for a spline surface and for a degenerate frame.
pub fn surface_record(surface: &Surface) -> (entry: Option<(&'static str, Vec<Token>)>)
    ensures
        entry_view(entry) == surface_view(*surface),
{
    let frame = match surface.frame() {
        Some(frame) => frame,
        None => return None,
    };
    let normal: Point3 = match frame.normal {
        Some(normal) => normal,
        None => return None,
    };
    let origin: Point3 = frame.origin;
    let u: Point3 = frame.x_axis;
    let entry: Option<(&'static str, Vec<Token>)> = match surface {
        Surface::Plane { .. } => Some(
            (
                "plane-surface",
                vec![
                    position(origin),
                    position(normal),
                    position(u),
                    ident("forward_v"),
                    ident("I"),
                    ident("I"),
                    ident("I"),
                    ident("I"),
                ],
            ),
        ),
        Surface::Cylinder { major, radius, .. } => Some(
            ("cone-surface", cone_tokens(origin, normal, *major, NEGATIVE_ZERO, ONE, *radius)),
        ),
        Surface::Cone { major, sine, cosine, radius, .. } => Some(
            ("cone-surface", cone_tokens(origin, normal, *major, *sine, *cosine, *radius)),
        ),
        Surface::Sphere { radius, .. } => Some(
            (
                "sphere-surface",
                vec![
                    position(origin),
                    Token::Float(*radius),
                    position(u),
                    position(normal),
                    ident("forward_v"),
                    ident("I"),
                    ident("I"),
                    ident("I"),
                    ident("I"),
                ],
            ),
        ),
        Surface::Torus { major_radius, minor_radius, .. } => Some(
            (
                "torus-surface",
                vec![
                    position(origin),
                    position(normal),
                    Token::Float(*major_radius),
                    Token::Float(*minor_radius),
                    position(u),
                    ident("forward_v"),
                    ident("I"),
                    ident("I"),
                    ident("I"),
                    ident("I"),
                ],
            ),
        ),
        Surface::Nurbs(_) => None,
    };
    proof {
        assert(entry_view(entry).unwrap().1 =~= surface_view(*surface).unwrap().1);
    }
    entry
}

/// What [`curve_record`] says: the entity type and the tokens of an analytic
/// curve. A circle or an ellipse whose plane is degenerate has no normal to
/// write, and a spline is no analytic curve.
pub open spec fn curve_view(curve: Curve3) -> Option<(Seq<char>, Seq<TokenView>)> {
    match curve {
        Curve3::Line { origin, direction } => Some(
            (
                "straight-curve"@,
                seq![
                    TokenView::Position(origin),
                    TokenView::Position(direction),
                    TokenView::Ident("I"@),
                    TokenView::Ident("I"@),
                ],
            ),
        ),
        Curve3::Circle { plane, major } => match plane.normal {
            Some(normal) => Some(
                ("ellipse-curve"@, ellipse_view(plane.origin, normal, major, ONE)),
            ),
            None => None,
        },
        Curve3::Ellipse { plane, major, ratio } => match plane.normal {
            Some(normal) => Some(
                ("ellipse-curve"@, ellipse_view(plane.origin, normal, major, ratio)),
            ),
            None => None,
        },
        Curve3::PlanarSpline { .. } => None,
        Curve3::Nurbs(_) => None,
    }
}

/// The entity type and the tokens of an analytic curve, after the leading
/// pointer. `None` for a spline and for a degenerate plane.
pub fn curve_record(curve: &Curve3) -> (entry: Option<(&'static str, Vec<Token>)>)
    ensures
        entry_view(entry) == curve_view(*curve),
{
    match curve {
        Curve3::Line { origin, direction } => {
            let tokens = vec![position(*origin), position(*direction), ident("I"), ident("I")];
            proof {
                assert(token_views(tokens@) =~= curve_view(*curve).unwrap().1);
            }
            Some(("straight-curve", tokens))
        },
        Curve3::Circle { plane, major } => match plane.normal {
            Some(normal) => Some(
                ("ellipse-curve", ellipse_tokens(plane.origin, normal, *major, ONE)),
            ),
            None => None,
        },
        Curve3::Ellipse { plane, major, ratio } => match plane.normal {
            Some(normal) => Some(
                ("ellipse-curve", ellipse_tokens(plane.origin, normal, *major, *ratio)),
            ),
            None => None,
        },
        Curve3::PlanarSpline { .. } => None,
        Curve3::Nurbs(_) => None,
    }
}

/// Whether a list of tokens ends in another.
pub open spec fn ends_with(tokens: Seq<TokenView>, tail: Seq<TokenView>) -> bool {
    &&& tail.len() <= tokens.len()
    &&& tokens.skip(tokens.len() - tail.len()) == tail
}

/// So many bound flags.
pub open spec fn bounds(count: nat) -> Seq<TokenView> {
    Seq::new(count, |i: int| TokenView::Ident("I"@))
}

/// Every analytic surface ends in its sense and four bound flags; the sense is
/// `forward` for a cone or a cylinder and `forward_v` for any other.
pub proof fn surfaces_end_in_a_sense_and_bounds(surface: Surface)
    requires
        surface_view(surface) is Some,
    ensures
        ends_with(
            surface_view(surface).unwrap().1,
            seq![
                TokenView::Ident(
                    if surface is Cone || surface is Cylinder {
                        "forward"@
                    } else {
                        "forward_v"@
                    },
                ),
            ] + bounds(4),
        ),
{
    let tokens = surface_view(surface).unwrap().1;
    assert(tokens.skip(tokens.len() - 5) =~= seq![
        TokenView::Ident(
            if surface is Cone || surface is Cylinder {
                "forward"@
            } else {
                "forward_v"@
            },
        ),
    ] + bounds(4));
}

/// Every analytic curve ends in two bound flags.
pub proof fn curves_end_in_bounds(curve: Curve3)
    requires
        curve_view(curve) is Some,
    ensures
        ends_with(curve_view(curve).unwrap().1, bounds(2)),
{
    let tokens = curve_view(curve).unwrap().1;
    assert(tokens.skip(tokens.len() - 2) =~= bounds(2));
}

/// A cylinder is the cone whose half angle is zero.
pub proof fn cylinders_are_cones(frame: Frame, major: Point3, radius: Bits)
    ensures
        surface_view(Surface::Cylinder { frame, major, radius }) == surface_view(
            Surface::Cone { frame, major, sine: NEGATIVE_ZERO, cosine: ONE, radius },
        ),
{
}

/// How many fields a token takes: a position takes three.
pub open spec fn width(token: TokenView) -> int {
    if token is Position {
        3
    } else {
        1
    }
}

/// How many fields the first `n` tokens take.
pub open spec fn fields(tokens: Seq<TokenView>, n: int) -> int
    decreases n,
{
    if n <= 0 {
        0
    } else {
        fields(tokens, n - 1) + width(tokens[n - 1])
    }
}

/// The sine of a cone stands at field thirteen, behind the leading pointer, and
/// the cosine and the radius follow it.
pub proof fn the_sine_stands_at_thirteen(
    origin: Point3,
    axis: Point3,
    major: Point3,
    sine: Bits,
    cosine: Bits,
    radius: Bits,
)
    ensures
        ({
            let tokens = seq![null_view()] + cone_view(origin, axis, major, sine, cosine, radius);
            &&& fields(tokens, 7) == 13
            &&& tokens[7] == TokenView::Float(sine)
            &&& tokens[8] == TokenView::Float(cosine)
            &&& tokens[9] == TokenView::Float(radius)
        }),
{
    reveal_with_fuel(fields, 8);
}

} // verus!
