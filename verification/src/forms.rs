//! What the records of geometry hold, field by field.
//!
//! The fields are counted from zero behind the attribute pointer for analytic
//! geometry. What a reader takes from a field is what the curve or the surface
//! carries for it.

use vstd::prelude::*;
use crate::document::{pcurve_tokens, spline_curve_tokens, spline_surface_tokens};
use crate::geometry::{
    Curve2, Curve3, Frame, NurbsCurve2, NurbsCurve3, NurbsSurface3, Point2, Point3, Surface,
};
use crate::knots::runs;
use crate::records::{curve_view, null_view, sense_view, surface_view};
use crate::scalar::{same, Bits};
use crate::splines::{curve_entry, pcurve_entry, pcurve_form, surface_entry, v_major, PcurveForm};
use crate::token::{RecordView, TokenView};

verus! {

/// Whether tokens from a place on are a keyword and so many bound flags, and
/// nothing else.
pub open spec fn closes(tokens: Seq<TokenView>, from: int, sense: Seq<char>, flags: int) -> bool {
    &&& tokens.len() == from + 1 + flags
    &&& tokens[from] == TokenView::Ident(sense)
    &&& forall|i: int| from < i < tokens.len() ==> #[trigger] tokens[i] == TokenView::Ident("I"@)
}

/// A plane holds the origin of its frame, its normal and its x axis.
pub proof fn planes_hold_their_frame(frame: Frame, normal: Point3)
    requires
        frame.normal == Some(normal),
    ensures
        surface_view(Surface::Plane { frame }) matches Some((kind, tokens)) && {
            &&& kind == "plane-surface"@
            &&& tokens[0] == TokenView::Position(frame.origin)
            &&& tokens[1] == TokenView::Position(normal)
            &&& tokens[2] == TokenView::Position(frame.x_axis)
            &&& closes(tokens, 3, "forward_v"@, 4)
        },
{
}

/// A cone holds the origin of its frame, its normal, the major axis that it
/// carries, ratio one, and the sine, the cosine and the radius that it carries.
pub proof fn cones_hold_what_they_carry(
    frame: Frame,
    normal: Point3,
    major: Point3,
    sine: Bits,
    cosine: Bits,
    radius: Bits,
)
    requires
        frame.normal == Some(normal),
    ensures
        surface_view(Surface::Cone { frame, major, sine, cosine, radius }) matches Some(
            (kind, tokens),
        ) && {
            &&& kind == "cone-surface"@
            &&& tokens[0] == TokenView::Position(frame.origin)
            &&& tokens[1] == TokenView::Position(normal)
            &&& tokens[2] == TokenView::Position(major)
            &&& tokens[3] == TokenView::Float(0x3ff0_0000_0000_0000)
            &&& tokens[4] == TokenView::Ident("I"@)
            &&& tokens[5] == TokenView::Ident("I"@)
            &&& tokens[6] == TokenView::Float(sine)
            &&& tokens[7] == TokenView::Float(cosine)
            &&& tokens[8] == TokenView::Float(radius)
            &&& closes(tokens, 9, "forward"@, 4)
        },
{
}

/// A cylinder holds the origin of its frame, its normal, the major axis and the
/// radius that it carries, ratio one, and the sine and the cosine of no angle.
pub proof fn cylinders_hold_what_they_carry(
    frame: Frame,
    normal: Point3,
    major: Point3,
    radius: Bits,
)
    requires
        frame.normal == Some(normal),
    ensures
        surface_view(Surface::Cylinder { frame, major, radius }) matches Some((kind, tokens)) && {
            &&& kind == "cone-surface"@
            &&& tokens[0] == TokenView::Position(frame.origin)
            &&& tokens[1] == TokenView::Position(normal)
            &&& tokens[2] == TokenView::Position(major)
            &&& tokens[3] == TokenView::Float(0x3ff0_0000_0000_0000)
            &&& tokens[4] == TokenView::Ident("I"@)
            &&& tokens[5] == TokenView::Ident("I"@)
            &&& tokens[6] == TokenView::Float(0x8000_0000_0000_0000)
            &&& tokens[7] == TokenView::Float(0x3ff0_0000_0000_0000)
            &&& tokens[8] == TokenView::Float(radius)
            &&& closes(tokens, 9, "forward"@, 4)
        },
{
}

/// A sphere holds the origin of its frame, its radius, its x axis and its
/// normal.
pub proof fn spheres_hold_what_they_carry(frame: Frame, normal: Point3, radius: Bits)
    requires
        frame.normal == Some(normal),
    ensures
        surface_view(Surface::Sphere { frame, radius }) matches Some((kind, tokens)) && {
            &&& kind == "sphere-surface"@
            &&& tokens[0] == TokenView::Position(frame.origin)
            &&& tokens[1] == TokenView::Float(radius)
            &&& tokens[2] == TokenView::Position(frame.x_axis)
            &&& tokens[3] == TokenView::Position(normal)
            &&& closes(tokens, 4, "forward_v"@, 4)
        },
{
}

/// A torus holds the origin of its frame, its normal, its major and its minor
/// radius and its x axis.
pub proof fn tori_hold_what_they_carry(
    frame: Frame,
    normal: Point3,
    major_radius: Bits,
    minor_radius: Bits,
)
    requires
        frame.normal == Some(normal),
    ensures
        surface_view(Surface::Torus { frame, major_radius, minor_radius }) matches Some(
            (kind, tokens),
        ) && {
            &&& kind == "torus-surface"@
            &&& tokens[0] == TokenView::Position(frame.origin)
            &&& tokens[1] == TokenView::Position(normal)
            &&& tokens[2] == TokenView::Float(major_radius)
            &&& tokens[3] == TokenView::Float(minor_radius)
            &&& tokens[4] == TokenView::Position(frame.x_axis)
            &&& closes(tokens, 5, "forward_v"@, 4)
        },
{
}

/// The frame that an analytic surface was given, whichever it is.
pub open spec fn stands_in(surface: Surface, frame: Frame) -> bool {
    match surface {
        Surface::Plane { frame: own } => own == frame,
        Surface::Cylinder { frame: own, .. } => own == frame,
        Surface::Cone { frame: own, .. } => own == frame,
        Surface::Sphere { frame: own, .. } => own == frame,
        Surface::Torus { frame: own, .. } => own == frame,
        Surface::Nurbs(_) => false,
    }
}

/// An analytic surface has a record if and only if its frame has a normal. A
/// spline surface has no analytic one.
pub proof fn surfaces_need_a_normal(surface: Surface, frame: Frame)
    ensures
        stands_in(surface, frame) ==> (surface_view(surface) is Some <==> frame.normal is Some),
        surface is Nurbs ==> surface_view(surface) is None,
{
}

/// Analytic surfaces of one form with the same record stand at the same place,
/// face the same way and have the same measures: nothing of them is lost.
pub proof fn surfaces_are_told_apart(one: Surface, other: Surface)
    requires
        surface_view(one) is Some,
        surface_view(one) == surface_view(other),
    ensures
        one is Plane && other is Plane ==> one == other,
        one is Sphere && other is Sphere ==> one == other,
        one is Torus && other is Torus ==> one == other,
        one matches Surface::Cone { frame, major, sine, cosine, radius } ==> (other
            matches Surface::Cone {
            frame: frame2,
            major: major2,
            sine: sine2,
            cosine: cosine2,
            radius: radius2,
        } ==> frame.origin == frame2.origin && frame.normal == frame2.normal && major == major2
            && sine == sine2 && cosine == cosine2 && radius == radius2),
        one matches Surface::Cylinder { frame, major, radius } ==> (other
            matches Surface::Cylinder { frame: frame2, major: major2, radius: radius2 }
            ==> frame.origin == frame2.origin && frame.normal == frame2.normal && major == major2
            && radius == radius2),
{
    let tokens = surface_view(one).unwrap().1;
    let same = surface_view(other).unwrap().1;
    assert(tokens[0] == same[0] && tokens[1] == same[1] && tokens[2] == same[2]);
    assert(tokens[3] == same[3] && tokens[4] == same[4]);
    if one is Cone || one is Cylinder {
        assert(tokens[6] == same[6] && tokens[7] == same[7] && tokens[8] == same[8]);
    }
}

/// A line holds the origin and the direction that it carries.
pub proof fn lines_hold_what_they_carry(origin: Point3, direction: Point3)
    ensures
        curve_view(Curve3::Line { origin, direction }) matches Some((kind, tokens)) && {
            &&& kind == "straight-curve"@
            &&& tokens[0] == TokenView::Position(origin)
            &&& tokens[1] == TokenView::Position(direction)
            &&& closes(tokens, 2, "I"@, 1)
        },
{
}

/// An ellipse holds the origin of its plane, the normal, and the major axis and
/// the ratio that it carries.
pub proof fn ellipses_hold_what_they_carry(plane: Frame, normal: Point3, major: Point3, ratio: Bits)
    requires
        plane.normal == Some(normal),
    ensures
        curve_view(Curve3::Ellipse { plane, major, ratio }) matches Some((kind, tokens)) && {
            &&& kind == "ellipse-curve"@
            &&& tokens[0] == TokenView::Position(plane.origin)
            &&& tokens[1] == TokenView::Position(normal)
            &&& tokens[2] == TokenView::Position(major)
            &&& tokens[3] == TokenView::Float(ratio)
            &&& closes(tokens, 4, "I"@, 1)
        },
{
}

/// A circle holds the origin of its plane, the normal, the major axis that it
/// carries, whose length is the radius, and ratio one.
pub proof fn circles_hold_what_they_carry(plane: Frame, normal: Point3, major: Point3)
    requires
        plane.normal == Some(normal),
    ensures
        curve_view(Curve3::Circle { plane, major }) matches Some((kind, tokens)) && {
            &&& kind == "ellipse-curve"@
            &&& tokens[0] == TokenView::Position(plane.origin)
            &&& tokens[1] == TokenView::Position(normal)
            &&& tokens[2] == TokenView::Position(major)
            &&& tokens[3] == TokenView::Float(0x3ff0_0000_0000_0000)
            &&& closes(tokens, 4, "I"@, 1)
        },
{
}

/// A circle is the ellipse of the same plane and major axis with ratio one.
pub proof fn circles_are_ellipses(plane: Frame, major: Point3)
    ensures
        curve_view(Curve3::Circle { plane, major }) == curve_view(
            Curve3::Ellipse { plane, major, ratio: 0x3ff0_0000_0000_0000 },
        ),
{
}

/// Which curves have a record: every line and every spline in space, a circle
/// or an ellipse in a plane with a normal, and a planar spline that has been
/// lifted and whose domain is finite and wider than nothing.
pub open spec fn has_a_form(curve: Curve3) -> bool {
    match curve {
        Curve3::Line { .. } => true,
        Curve3::Circle { plane, .. } => plane.normal is Some,
        Curve3::Ellipse { plane, .. } => plane.normal is Some,
        Curve3::PlanarSpline { width, lifted, .. } => 0 < width < 0x7ff0_0000_0000_0000
            && lifted is Some,
        Curve3::Nurbs(_) => true,
    }
}

/// A curve has a record if and only if it has a form. An analytic curve has its
/// analytic one, behind a null pointer; a spline has no analytic one.
pub proof fn curves_have_records(curve: Curve3, index: int)
    ensures
        curve_entry(curve, index) is Some <==> has_a_form(curve),
        !(curve is PlanarSpline) && !(curve is Nurbs) && has_a_form(curve) ==> (curve_entry(
            curve,
            index,
        ) matches Some(record) && is_made_of(
            record,
            index,
            curve_view(curve).unwrap().0,
            curve_view(curve).unwrap().1,
        )),
        curve is PlanarSpline || curve is Nurbs ==> curve_view(curve) is None,
{
}

/// A surface has a record if and only if it is a spline surface or its frame has
/// a normal. An analytic surface has its analytic one, behind a null pointer.
pub proof fn surfaces_have_records(surface: Surface, frame: Frame, index: int)
    ensures
        surface is Nurbs ==> surface_entry(surface, index) is Some,
        stands_in(surface, frame) ==> (surface_entry(surface, index) is Some
            <==> frame.normal is Some),
        stands_in(surface, frame) && frame.normal is Some ==> (surface_entry(
            surface,
            index,
        ) matches Some(record) && is_made_of(
            record,
            index,
            surface_view(surface).unwrap().0,
            surface_view(surface).unwrap().1,
        )),
{
}

/// Whether a record was made with an index, of a kind, with a null pointer and
/// the tokens given behind it, and with nothing else.
pub open spec fn is_made_of(
    record: RecordView,
    index: int,
    kind: Seq<char>,
    tokens: Seq<TokenView>,
) -> bool {
    &&& is_bare(record, index, kind)
    &&& record.tokens.len() == tokens.len() + 1
    &&& record.tokens[0] == TokenView::Pointer(-1)
    &&& forall|i: int|
        0 < i < record.tokens.len() ==> (#[trigger] record.tokens[i]) == tokens[i - 1]
}

/// Whether a record has an index and a kind, and no attribute, sub-type or text.
pub open spec fn is_bare(record: RecordView, index: int, kind: Seq<char>) -> bool {
    &&& record.index == index
    &&& record.kind == kind
    &&& record.sub_type is None
    &&& record.attribute == -1
    &&& record.subtype_id == -1
    &&& record.raw_text is None
}

/// A spline in space is written with its own degree, closure, knots and control
/// points, with its weights where they matter and else without, and with no
/// tolerance.
pub proof fn splines_hold_what_they_carry(spline: NurbsCurve3, index: int)
    ensures
        curve_entry(Curve3::Nurbs(spline), index) matches Some(record) && {
            &&& is_bare(record, index, "intcurve-curve"@)
            &&& spline.rational ==> record.tokens == spline_curve_tokens(
                true,
                spline.degree as i32,
                spline.periodic,
                runs(spline.knots@),
                spline.control_points@,
                Some(spline.weights@),
                0,
            )
            &&& !spline.rational ==> record.tokens == spline_curve_tokens(
                false,
                spline.degree as i32,
                spline.periodic,
                runs(spline.knots@),
                spline.control_points@,
                None,
                0,
            )
        },
{
}

/// A planar spline is written as the spline in space that it was lifted to,
/// periodic where the planar one is closed.
pub proof fn planar_splines_are_written_as_lifted(
    width: Bits,
    lifted: NurbsCurve3,
    closed: bool,
    spline: NurbsCurve3,
    index: int,
)
    requires
        0 < width < 0x7ff0_0000_0000_0000,
        spline == (NurbsCurve3 { periodic: closed, ..lifted }),
    ensures
        curve_entry(Curve3::PlanarSpline { width, lifted: Some(lifted), closed }, index)
            == curve_entry(Curve3::Nurbs(spline), index),
{
}

/// A spline surface is written with its own degrees, closures and knots, each
/// in its own direction, with its control net column by column, with its weights
/// in the same order where they matter and else without, and with no tolerance.
pub proof fn spline_surfaces_hold_what_they_carry(surface: NurbsSurface3, index: int)
    ensures
        surface_entry(Surface::Nurbs(surface), index) matches Some(record) && {
            let rows = surface.control_points@.len();
            let columns = surface.control_points@[0]@.len();
            &&& is_bare(record, index, "spline-surface"@)
            &&& surface.rational ==> record.tokens == spline_surface_tokens(
                surface.v_reversed,
                true,
                surface.u_degree as i32,
                surface.v_degree as i32,
                surface.u_periodic,
                surface.v_periodic,
                runs(surface.u_knots@),
                runs(surface.v_knots@),
                v_major(surface.control_points@, rows, columns),
                Some(v_major(surface.weights@, rows, columns)),
                0,
            )
            &&& !surface.rational ==> record.tokens == spline_surface_tokens(
                surface.v_reversed,
                false,
                surface.u_degree as i32,
                surface.v_degree as i32,
                surface.u_periodic,
                surface.v_periodic,
                runs(surface.u_knots@),
                runs(surface.v_knots@),
                v_major(surface.control_points@, rows, columns),
                None,
                0,
            )
        },
{
}

/// A spline in the parameter space of a surface has the form of itself: its own
/// degree, knots, control points, weights and rational flag, closed where its
/// ends are the same position.
pub proof fn parameter_splines_keep_their_form(spline: NurbsCurve2)
    ensures
        pcurve_form(Curve2::Nurbs(spline)) matches Some(form) && {
            &&& form.degree == spline.degree as i32
            &&& form.knots == spline.knots@
            &&& form.control_points == spline.control_points@
            &&& form.weights == spline.weights@
            &&& form.rational == spline.rational
            &&& form.closed <==> same(spline.start.u, spline.end.u) && same(
                spline.start.v,
                spline.end.v,
            )
        },
{
}

/// A line in the parameter space of a surface has the form of the spline of
/// degree one from its start to its end over the unit interval, open and without
/// weights that matter. Any other curve has no form.
pub proof fn parameter_lines_are_splines(start: Point2, end: Point2)
    ensures
        pcurve_form(Curve2::Line { start, end }) matches Some(form) && {
            &&& form.degree == 1
            &&& form.knots.len() == 4
            &&& form.knots[0] == 0 && form.knots[1] == 0
            &&& form.knots[2] == 0x3ff0_0000_0000_0000 && form.knots[3] == 0x3ff0_0000_0000_0000
            &&& form.control_points.len() == 2
            &&& form.control_points[0] == start && form.control_points[1] == end
            &&& form.weights.len() == 2
            &&& form.weights[0] == 0x3ff0_0000_0000_0000
            &&& form.weights[1] == 0x3ff0_0000_0000_0000
            &&& !form.rational && !form.closed
        },
        pcurve_form(Curve2::Other) is None,
{
}

/// The record of a parameter-space curve goes behind the records there are and
/// is written with the form of the curve, with its weights where they matter and
/// else without, with no tolerance and no offsets, on the surface it lies on.
pub proof fn parameter_curves_hold_their_form(
    form: PcurveForm,
    before: Seq<RecordView>,
    support: i32,
)
    ensures
        ({
            let record = pcurve_entry(form, before, support as int);
            &&& is_bare(record, before.len() as int, "pcurve"@)
            &&& form.rational ==> record.tokens == pcurve_tokens(
                before,
                true,
                form.degree,
                form.closed,
                runs(form.knots),
                form.control_points,
                Some(form.weights),
                0,
                support,
                (0, 0),
            )
            &&& !form.rational ==> record.tokens == pcurve_tokens(
                before,
                false,
                form.degree,
                form.closed,
                runs(form.knots),
                form.control_points,
                None,
                0,
                support,
                (0, 0),
            )
        }),
{
}

/// An analytic surface stands in the frame it was given; a spline surface stands
/// in none.
pub proof fn frames_are_those_given(surface: Surface, frame: Frame)
    ensures
        stands_in(surface, frame) ==> surface.spec_frame() == Some(frame),
        surface is Nurbs ==> surface.spec_frame() is None,
{
}

/// The keywords of directions, and the pointer at nothing.
pub proof fn keywords_are_these()
    ensures
        sense_view(true) == TokenView::Ident("forward"@),
        sense_view(false) == TokenView::Ident("reversed"@),
        null_view() == TokenView::Pointer(-1),
{
}

} // verus!
