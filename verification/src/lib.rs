//! Writing boundary-representation bodies into ACIS SAT documents.
//!
//! A body is topology (vertices, edges, coedges, loops, faces, shells, lumps)
//! over geometry (points, curves, surfaces, parameter-space curves). A SAT
//! document is a flat list of records that point at each other by position.
//! [`append::append`] adds a body to a document as a fresh set of records.
//!
//! [`layout`] says what a body looks like as records, and [`document`] what is
//! taken from the crate that holds the document. What holds of that is stated in
//! [`laws`] for whole documents, in [`reading`] for readers that follow the
//! pointers, in [`forms`] and [`fields`] for the fields of single records, and in
//! [`refusals`] for bodies that cannot be written. Floating-point values pass
//! through this library as their bit patterns, see [`scalar`].

pub mod scalar;
pub mod geometry;
pub mod body;

pub mod token;
pub mod document;
pub mod legible;

pub mod knots;
pub mod records;
pub mod entities;
pub mod splines;
pub mod ids;

pub mod layout;
pub mod limits;
pub mod append;
mod allocate;
mod link;

pub mod shape;
pub mod linking;
pub mod laws;
pub mod reading;
pub mod forms;
pub mod fields;
pub mod refusals;
