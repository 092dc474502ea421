//! A k-d tree over axis-aligned boxes on the integer grid, with the
//! strategies that shape it and the facts that hold of every tree it builds.
use vstd::prelude::*;

pub mod aabb;
pub mod axis;
pub mod depth;
pub mod edge;
pub mod edge_order;
pub mod error;
pub mod kd_tree;
pub mod laws;
pub mod mesh;
pub mod primitive;
pub mod ray;
pub mod select;
pub mod slab_laws;
pub mod sorting;
pub mod walk;

verus! {

/// Number of coordinate axes.
pub const N_DIMS: usize = 3;

} // verus!
