//! A two-dimensional Barnes-Hut gravity library built on a quadtree.
//!
//! World coordinates and masses are fixed-point integers, so every
//! structural and arithmetic property of the index and of the force
//! evaluator is stated and proved exactly.  The floating-point force
//! kernel that consumes the evaluator's output lives outside the
//! verified library.

pub mod geom;
pub mod particle;
pub mod quadtree;
pub mod evaluator;
