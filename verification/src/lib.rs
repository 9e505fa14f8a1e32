//! A derivative-free global-optimization engine over a bounded box domain.
//!
//! The caller drives evaluation: the optimizer suggests one point at a time
//! and is told the observed value of each suggestion.  Internally the domain
//! is partitioned into simplices ranked in a priority queue by a
//! potential-optimality score; the most promising simplex is repeatedly
//! split around its centroid.
//!
//! Coordinates and values are fixed-point integers: an internal coordinate
//! ranges over `0 ..= SCALE` (the unit interval scaled by `SCALE`), and a
//! domain coordinate or an observed value is a plain `i64` whose unit is the
//! caller's choice.

use vstd::prelude::*;

pub mod point;
pub mod search_space;
pub mod simplex;
pub mod pqueue;
pub mod algorithm;

verus! {

/// Fixed-point denominator of internal coordinates: an internal coordinate
/// `c` stands for the real number `c / SCALE` in the unit interval.
pub const SCALE: u64 = 1048576;

/// Magnitude bound on the domain bounds, so that the affine map between
/// internal and domain coordinates stays inside `i64`.
pub const COORD_LIMIT: i64 = 1099511627776;

/// Magnitude bound on reported objective values, so that ranges and scores
/// stay inside `i64`.
pub const VALUE_LIMIT: i64 = 1099511627776;

/// Bound on the number of dimensions, so that coordinate sums over the
/// `d + 1` corners of a simplex stay inside `u64`.
pub const DIM_LIMIT: usize = 1048576;

} // verus!
