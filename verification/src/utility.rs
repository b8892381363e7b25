//! Small numeric helpers.

use vstd::prelude::*;

verus! {

/// Clamping into the inclusive range `[min, max]`.
pub open spec fn clamp_spec(min: int, max: int, x: int) -> int {
    if x < min {
        min
    } else if x > max {
        max
    } else {
        x
    }
}

pub fn clamp(min: i128, max: i128, x: i128) -> (r: i128)
    ensures
        r == clamp_spec(min as int, max as int, x as int),
{
    if x < min {
        min
    } else if x > max {
        max
    } else {
        x
    }
}

} // verus!
