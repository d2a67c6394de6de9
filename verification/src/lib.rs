//! Iteration over contiguous scalars as fixed-width vectors.
//!
//! A producer hands out the whole vectors of its data one by one and then,
//! once, the partial vector which is left, padded from a default vector.
//! Maps, batches, reductions, in-place mutation and the export back to
//! scalars are built on that protocol.

pub mod adapter;
pub mod buffers;
pub mod into_scalar;
pub mod iters;
pub mod lanes;
pub mod laws;
pub mod model;
pub mod simd_iter;
pub mod simd_map;
pub mod unroll;
pub mod vecs;
