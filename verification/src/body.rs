//! Bodies: topology over geometry.
//!
//! An entity is known by its key, the place where it stands in its list. A key
//! that is no such place refers to nothing.

use vstd::prelude::*;
use crate::geometry::{Curve2, Curve3, Point3, Surface};
use crate::scalar::Bits;

verus! {

/// A corner.
#[derive(Debug)]
pub struct Vertex {
    pub point: Point3,
}

/// A piece of a curve between two vertices.
#[derive(Debug)]
pub struct Edge {
    /// The key of the vertex it starts at.
    pub start: usize,
    /// The key of the vertex it ends at.
    pub end: usize,
    /// Where on the curve it starts.
    pub start_parameter: Bits,
    /// Where on the curve it ends.
    pub end_parameter: Bits,
    /// The key of its curve.
    pub curve: usize,
    /// The keys of the coedges that run along it.
    pub coedges: Vec<usize>,
}

/// One use of an edge by a loop.
#[derive(Debug)]
pub struct Coedge {
    /// The key of the edge.
    pub edge: usize,
    /// The key of the loop.
    pub owner: usize,
    /// Whether it runs along the edge or against it.
    pub forward: bool,
    /// The key of the coedge on the other side of the edge.
    pub partner: Option<usize>,
    /// Its curve on the surface of the face.
    pub pcurve: Option<Curve2>,
}

/// A closed ring of coedges.
#[derive(Debug)]
pub struct Loop {
    /// The key of the face.
    pub owner: usize,
    /// The keys of the coedges, in order around the ring.
    pub coedges: Vec<usize>,
}

/// A bounded piece of a surface.
#[derive(Debug)]
pub struct Face {
    /// The key of the shell.
    pub owner: usize,
    /// The key of the surface.
    pub surface: usize,
    /// Whether its normal is that of the surface.
    pub forward: bool,
    /// The keys of the loops that bound it.
    pub loops: Vec<usize>,
}

/// A connected set of faces.
#[derive(Debug)]
pub struct Shell {
    /// The key of the lump.
    pub owner: usize,
    /// The keys of the faces.
    pub faces: Vec<usize>,
}

/// A connected piece of material.
#[derive(Debug)]
pub struct Lump {
    /// The keys of the shells that bound it.
    pub shells: Vec<usize>,
}

/// A body.
#[derive(Debug)]
pub struct Body {
    pub vertices: Vec<Vertex>,
    pub curves: Vec<Curve3>,
    pub surfaces: Vec<Surface>,
    pub edges: Vec<Edge>,
    pub coedges: Vec<Coedge>,
    pub loops: Vec<Loop>,
    pub faces: Vec<Face>,
    pub shells: Vec<Shell>,
    pub lumps: Vec<Lump>,
    /// The keys of the lumps it consists of.
    pub roots: Vec<usize>,
    /// What the kernel that built the body reported when it validated the
    /// topology. Empty where the topology holds together.
    pub faults: Vec<String>,
}

} // verus!
