//! A lazy tensor-computation library: a graph of primitive tensor
//! operators with symbolic shapes, a shape tracker that represents
//! views (permutes, expands, slices, pads) without moving data, a
//! pattern matcher over the graph, and a rewrite pass that lowers the
//! broadcast-multiply + sum-reduce idiom into dedicated matrix-multiply
//! kernel nodes.

use vstd::prelude::*;

pub mod executor;
pub mod expr;
pub mod graph;
pub mod hl;
pub mod matmul;
pub mod nn;
pub mod select;
pub mod shape;
pub mod store;

verus! {

/// Number of bytes a half-precision scalar occupies on the device.
pub const F16_BYTES: usize = 2;

} // verus!
