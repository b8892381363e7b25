//! Numeric constants of the renderer.

use vstd::prelude::*;

pub use crate::math::deg2rad;

verus! {

/// The ray-parameter horizon: 2^40 in fixed-point representation, standing in
/// for an unbounded upper limit. No well-formed scene geometry lies beyond a
/// parameter of this size.
pub const INFINITY: i128 = 0x10000000000;

/// The circle constant, in fixed-point representation.
pub const PI: i128 = 205887;

} // verus!
