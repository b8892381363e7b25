//! Closed numeric ranges of fixed-point ray parameters.

use vstd::prelude::*;
use crate::constants::INFINITY;

verus! {

/// A numeric range with inclusive `contains` and exclusive `surrounds`.
#[derive(Clone, Copy, Debug, PartialEq, Eq, Structural)]
pub struct Interval {
    pub min: i128,
    pub max: i128,
}

impl Interval {
    pub fn new(min: i128, max: i128) -> (r: Interval)
        ensures
            r == (Interval { min, max }),
    {
        Interval { min, max }
    }

    pub fn size(&self) -> (r: i128)
        requires
            -INFINITY <= self.min <= INFINITY,
            -INFINITY <= self.max <= INFINITY,
        ensures
            r == self.max - self.min,
    {
        self.max - self.min
    }

    pub open spec fn contains_spec(self, x: int) -> bool {
        self.min <= x <= self.max
    }

    pub fn contains(&self, x: i128) -> (r: bool)
        ensures
            r == self.contains_spec(x as int),
    {
        self.min <= x && x <= self.max
    }

    pub open spec fn surrounds_spec(self, x: int) -> bool {
        self.min < x < self.max
    }

    pub fn surrounds(&self, x: i128) -> (r: bool)
        ensures
            r == self.surrounds_spec(x as int),
    {
        self.min < x && x < self.max
    }
}

/// The default interval is empty.
impl Default for Interval {
    fn default() -> (r: Interval)
        ensures
            r == (Interval { min: INFINITY, max: (-INFINITY) as i128 }),
    {
        Interval { min: INFINITY, max: -INFINITY }
    }
}

} // verus!
