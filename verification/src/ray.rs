//! Rays: an origin plus a direction, evaluated by parameter.

use vstd::prelude::*;
use crate::math::{Point3, Vec3};
use crate::constants::INFINITY;

verus! {

/// 2^37: the magnitude cap on ray-origin components.
pub const RAY_ORIGIN_MAX: i128 = 0x2000000000;

/// 2^28: the magnitude cap on ray-direction components.
pub const RAY_DIR_MAX: i128 = 0x10000000;

#[derive(Clone, Copy, Debug, PartialEq, Eq, Structural)]
pub struct Ray {
    pub orig: Point3,
    pub dir: Vec3,
}

impl Ray {
    /// Origins and directions within the caps that keep every downstream
    /// intersection computation representable.
    pub open spec fn wf(self) -> bool {
        &&& self.orig.bounded(RAY_ORIGIN_MAX as int)
        &&& self.dir.bounded(RAY_DIR_MAX as int)
    }

    pub fn new(origin: Point3, direction: Vec3) -> (r: Ray)
        ensures
            r == (Ray { orig: origin, dir: direction }),
    {
        Ray { orig: origin, dir: direction }
    }

    pub fn origin(&self) -> (r: Point3)
        ensures
            r == self.orig,
    {
        self.orig
    }

    pub fn direction(&self) -> (r: Vec3)
        ensures
            r == self.dir,
    {
        self.dir
    }

    /// The point `origin + t * direction`.
    pub open spec fn at_spec(self, t: int) -> Point3 {
        self.orig.add_spec(self.dir.scale_spec(t))
    }

    pub fn at(&self, t: i128) -> (r: Point3)
        requires
            self.wf(),
            -INFINITY <= t <= INFINITY,
        ensures
            r == self.at_spec(t as int),
    {
        proof {
            let d = RAY_DIR_MAX as int;
            crate::math::lemma_fx_mul_le(self.dir.x as int, t as int, d, INFINITY as int);
            crate::math::lemma_fx_mul_le(self.dir.y as int, t as int, d, INFINITY as int);
            crate::math::lemma_fx_mul_le(self.dir.z as int, t as int, d, INFINITY as int);
        }
        let s = self.dir.scale(t);
        self.orig.add(&s)
    }
}

} // verus!
