//! Points, curves and surfaces.
//!
//! What can only be computed in floating point (a normal, a scaled axis, a
//! sine, a ratio) is part of the value here, beside what it was computed from.

use vstd::prelude::*;
use crate::scalar::{positive_and_finite, same, same_value, Bits};

verus! {

/// A position or a direction in space.
#[derive(Debug, Clone, Copy, PartialEq, Eq, Structural)]
pub struct Point3 {
    pub x: Bits,
    pub y: Bits,
    pub z: Bits,
}

/// A position in the parameter space of a surface.
#[derive(Debug, Clone, Copy, PartialEq, Eq, Structural)]
pub struct Point2 {
    pub u: Bits,
    pub v: Bits,
}

/// Equality of positions, coordinate by coordinate, as doubles.
pub open spec fn same_position(left: Point2, right: Point2) -> bool {
    same(left.u, right.u) && same(left.v, right.v)
}

/// Whether two positions are equal, coordinate by coordinate, as doubles.
pub fn is_same_position(left: Point2, right: Point2) -> (equal: bool)
    ensures
        equal == same_position(left, right),
{
    same_value(left.u, right.u) && same_value(left.v, right.v)
}

/// Where a planar curve or an analytic surface stands.
#[derive(Debug, Clone, Copy, PartialEq, Eq)]
pub struct Frame {
    pub origin: Point3,
    pub x_axis: Point3,
    /// The direction across both axes; a degenerate frame has none.
    pub normal: Option<Point3>,
}

/// A spline curve in space.
#[derive(Debug)]
pub struct NurbsCurve3 {
    pub degree: usize,
    /// Every knot, repeated as often as it counts.
    pub knots: Vec<Bits>,
    pub control_points: Vec<Point3>,
    /// One weight per control point.
    pub weights: Vec<Bits>,
    /// Whether the weights matter.
    pub rational: bool,
    /// Whether the curve runs into itself.
    pub periodic: bool,
}

/// What a spline curve in space is.
#[verifier::ext_equal]
pub struct SplineView {
    pub degree: usize,
    pub knots: Seq<Bits>,
    pub control_points: Seq<Point3>,
    pub weights: Seq<Bits>,
    pub rational: bool,
    pub periodic: bool,
}

impl View for NurbsCurve3 {
    type V = SplineView;

    open spec fn view(&self) -> SplineView {
        SplineView {
            degree: self.degree,
            knots: self.knots@,
            control_points: self.control_points@,
            weights: self.weights@,
            rational: self.rational,
            periodic: self.periodic,
        }
    }
}

impl NurbsCurve3 {
    /// Whether the number of knots is one that a multiplicity can count.
    pub open spec fn well_formed(self) -> bool {
        self.knots@.len() <= i32::MAX
    }
}

/// A curve in space.
#[derive(Debug)]
pub enum Curve3 {
    /// A straight line.
    Line { origin: Point3, direction: Point3 },
    /// A circle. The major axis is the x axis scaled by the radius.
    Circle { plane: Frame, major: Point3 },
    /// An ellipse. The major axis is the x axis scaled by the major radius,
    /// the ratio is that of the minor radius to the major one.
    Ellipse { plane: Frame, major: Point3, ratio: Bits },
    /// A spline in a plane.
    PlanarSpline {
        /// The width of its domain.
        width: Bits,
        /// The same spline in space, its knots brought to the unit interval.
        lifted: Option<NurbsCurve3>,
        /// Whether it runs into itself.
        closed: bool,
    },
    /// A spline in space.
    Nurbs(NurbsCurve3),
}

impl Curve3 {
    /// Whether the splines in it are well formed.
    pub open spec fn well_formed(self) -> bool {
        match self {
            Curve3::PlanarSpline { lifted: Some(spline), .. } => spline.well_formed(),
            Curve3::Nurbs(spline) => spline.well_formed(),
            _ => true,
        }
    }

    /// The spline in space that stands for this curve, where one does. A
    /// planar spline needs a domain of some finite width.
    pub open spec fn spline(self) -> Option<SplineView> {
        match self {
            Curve3::PlanarSpline { width, lifted: Some(spline), closed } => {
                if positive_and_finite(width) {
                    Some(SplineView { periodic: closed, ..spline@ })
                } else {
                    None
                }
            },
            Curve3::Nurbs(spline) => Some(spline@),
            _ => None,
        }
    }
}

/// A spline surface.
#[derive(Debug)]
pub struct NurbsSurface3 {
    pub u_degree: usize,
    pub v_degree: usize,
    pub u_knots: Vec<Bits>,
    pub v_knots: Vec<Bits>,
    /// The control net, one list per step of `u`.
    pub control_points: Vec<Vec<Point3>>,
    /// The weights, laid out as the control net is.
    pub weights: Vec<Vec<Bits>>,
    /// Whether the weights differ.
    pub rational: bool,
    pub u_periodic: bool,
    pub v_periodic: bool,
    /// Whether `v` runs against the surface normal.
    pub v_reversed: bool,
}

/// Whether a grid has an entry at each of `rows` by `columns` places.
pub open spec fn covers<T>(grid: Seq<Vec<T>>, rows: nat, columns: nat) -> bool {
    columns > 0 ==> rows <= grid.len() && forall|u: int|
        0 <= u < rows ==> columns <= (#[trigger] grid[u])@.len()
}

impl NurbsSurface3 {
    /// The number of control points along `u`.
    pub open spec fn rows(self) -> nat {
        self.control_points@.len()
    }

    /// The number of control points along `v`.
    pub open spec fn columns(self) -> nat {
        self.control_points@[0]@.len()
    }

    /// Whether there is a control net, with a weight for each of its points,
    /// and the numbers of knots are ones that a multiplicity can count.
    pub open spec fn well_formed(self) -> bool {
        &&& self.control_points@.len() > 0
        &&& covers(self.control_points@, self.rows(), self.columns())
        &&& covers(self.weights@, self.rows(), self.columns())
        &&& self.u_knots@.len() <= i32::MAX
        &&& self.v_knots@.len() <= i32::MAX
    }
}

/// A surface.
#[derive(Debug)]
pub enum Surface {
    /// A plane.
    Plane { frame: Frame },
    /// A cylinder. The major axis is the x axis scaled by the radius.
    Cylinder { frame: Frame, major: Point3, radius: Bits },
    /// A cone. The major axis is the x axis scaled by the radius; the sine and
    /// the cosine are those of the half angle, negated.
    Cone { frame: Frame, major: Point3, sine: Bits, cosine: Bits, radius: Bits },
    /// A sphere.
    Sphere { frame: Frame, radius: Bits },
    /// A torus.
    Torus { frame: Frame, major_radius: Bits, minor_radius: Bits },
    /// A spline surface.
    Nurbs(NurbsSurface3),
}

impl Surface {
    /// Whether a spline surface in it is well formed.
    pub open spec fn well_formed(self) -> bool {
        self matches Surface::Nurbs(surface) ==> surface.well_formed()
    }

    /// The frame of an analytic surface.
    pub open spec fn spec_frame(self) -> Option<Frame> {
        match self {
            Surface::Plane { frame } => Some(frame),
            Surface::Cylinder { frame, .. } => Some(frame),
            Surface::Cone { frame, .. } => Some(frame),
            Surface::Sphere { frame, .. } => Some(frame),
            Surface::Torus { frame, .. } => Some(frame),
            Surface::Nurbs(_) => None,
        }
    }

    /// The frame of an analytic surface; a spline surface has none.
    pub fn frame(&self) -> (frame: Option<Frame>)
        ensures
            frame == self.spec_frame(),
    {
        match self {
            Surface::Plane { frame } => Some(*frame),
            Surface::Cylinder { frame, .. } => Some(*frame),
            Surface::Cone { frame, .. } => Some(*frame),
            Surface::Sphere { frame, .. } => Some(*frame),
            Surface::Torus { frame, .. } => Some(*frame),
            Surface::Nurbs(_) => None,
        }
    }
}

/// A spline curve in the parameter space of a surface.
#[derive(Debug)]
pub struct NurbsCurve2 {
    pub degree: usize,
    /// Every knot, repeated as often as it counts.
    pub knots: Vec<Bits>,
    pub control_points: Vec<Point2>,
    /// One weight per control point.
    pub weights: Vec<Bits>,
    /// Whether the weights matter.
    pub rational: bool,
    /// Where the domain begins.
    pub start: Point2,
    /// Where the domain ends.
    pub end: Point2,
}

/// A curve in the parameter space of a surface.
#[derive(Debug)]
pub enum Curve2 {
    /// A straight line.
    Line { start: Point2, end: Point2 },
    /// A spline.
    Nurbs(NurbsCurve2),
    /// Any other curve.
    Other,
}

impl Curve2 {
    /// Whether a spline in it is well formed.
    pub open spec fn well_formed(self) -> bool {
        self matches Curve2::Nurbs(spline) ==> spline.knots@.len() <= i32::MAX
    }
}

} // verus!
