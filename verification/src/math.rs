//! Vector math and random sampling helpers.

mod utility;
mod vec3;

use vstd::prelude::*;
use rand_xoshiro::Xoshiro256Plus;
use crate::fixed::FX_ONE;
use crate::rng::{rand_fx, rand_range_fx};

pub use utility::deg2rad;
pub use utility::deg2rad_spec;
pub use utility::PI_FX;
pub use utility::DEG_MAX;
pub use utility::TRIG_IN_MAX;
pub use utility::sin_fx;
pub use utility::sin_fx_spec;
pub use utility::cos_fx;
pub use utility::cos_fx_spec;
pub use vec3::Vec3;
pub use vec3::VEC_LIN_MAX;
pub use vec3::VEC_MUL_MAX;
pub use vec3::VEC_UNIT_IN_MAX;
pub use vec3::lemma_fx_mul_le;
pub use vec3::lemma_dot_le;
pub use vec3::lemma_mag2_nonneg;
pub use vec3::lemma_mag2_le;
pub use vec3::lemma_mag_at_least_min;
pub use vec3::lemma_unit_bounded;

verus! {

/// Points are vectors.
pub type Point3 = Vec3;

/// The componentwise threshold below which a vector counts as (numerically)
/// zero: 1/256 in fixed-point representation, the coarsest magnitude whose
/// square is still representable.
pub const NEAR_ZERO_EPS: i128 = 256;

pub fn point3(x: i128, y: i128, z: i128) -> (r: Point3)
    ensures
        r == (Vec3 { x, y, z }),
{
    Vec3 { x, y, z }
}

/// A vector with all components drawn from `[0, 1)`.
pub fn random(rng: &mut Xoshiro256Plus) -> (r: Vec3)
    ensures
        r.bounded(FX_ONE as int),
        0 <= r.x && 0 <= r.y && 0 <= r.z,
{
    let x = rand_fx(rng);
    let y = rand_fx(rng);
    let z = rand_fx(rng);
    Vec3 { x, y, z }
}

/// A vector with all components drawn from `[lo, hi)`.
pub fn random_range(rng: &mut Xoshiro256Plus, lo: i128, hi: i128) -> (r: Vec3)
    requires
        lo < hi,
        hi - lo <= 0x100000000,
    ensures
        lo <= r.x < hi && lo <= r.y < hi && lo <= r.z < hi,
{
    let x = rand_range_fx(rng, lo, hi);
    let y = rand_range_fx(rng, lo, hi);
    let z = rand_range_fx(rng, lo, hi);
    Vec3 { x, y, z }
}

/// Whether every component of `v` is below the near-zero threshold.
pub open spec fn near_zero_spec(v: Vec3) -> bool {
    &&& -NEAR_ZERO_EPS < v.x < NEAR_ZERO_EPS
    &&& -NEAR_ZERO_EPS < v.y < NEAR_ZERO_EPS
    &&& -NEAR_ZERO_EPS < v.z < NEAR_ZERO_EPS
}

pub fn near_zero(v: Vec3) -> (r: bool)
    requires
        v.bounded(VEC_LIN_MAX as int),
    ensures
        r == near_zero_spec(v),
{
    let e = NEAR_ZERO_EPS;
    -e < v.x && v.x < e && -e < v.y && v.y < e && -e < v.z && v.z < e
}

/// What the unit-direction sampler can hand back: the normalization of some
/// nonzero vector of the closed unit ball.
pub open spec fn is_unit_sample(u: Vec3) -> bool {
    exists|p: Vec3| (#[trigger] p.bounded(FX_ONE as int)) && 1 <= p.mag2_spec() <= FX_ONE
        && u == p.unit_spec()
}

/// A vector of roughly unit length, uniformly distributed in direction:
/// rejection-sample the unit ball, then normalize. The draw is capped at a
/// fixed number of attempts; an axis vector stands in if all are rejected
/// (with a real generator this does not happen in practice).
pub fn random_unit_vector(rng: &mut Xoshiro256Plus) -> (r: Vec3)
    ensures
        r.bounded(2 * FX_ONE as int),
        is_unit_sample(r),
{
    let mut tries: u32 = 0;
    while tries < 64
        invariant true,
        decreases 64 - tries,
    {
        let p = random_range(rng, -FX_ONE, FX_ONE);
        let lensq = p.mag2();
        if 1 <= lensq && lensq <= FX_ONE {
            proof {
                lemma_unit_bounded(p, FX_ONE as int);
            }
            let u = p.norm();
            proof {
                assert(p.bounded(FX_ONE as int) && 1 <= p.mag2_spec() <= FX_ONE
                    && u == p.unit_spec());
            }
            return u;
        }
        tries = tries + 1;
    }
    let axis = Vec3 { x: 0, y: 0, z: FX_ONE };
    proof {
        lemma_axis_unit();
    }
    axis.norm()
}

/// The fallback axis vector normalizes to itself-shaped output within bounds.
proof fn lemma_axis_unit()
    ensures
        (Vec3 { x: 0, y: 0, z: FX_ONE }).mag2_spec() == FX_ONE,
        (Vec3 { x: 0, y: 0, z: FX_ONE }).bounded(FX_ONE as int),
{
    let v = Vec3 { x: 0, y: 0, z: FX_ONE };
    assert(65536int * 65536 == 0x100000000) by (nonlinear_arith);
    assert(crate::fixed::tdiv(0x100000000, 65536) == 0x10000) by {
        crate::fixed::lemma_tdiv_basics(65536);
        assert(0x100000000int == 0x10000int * 65536) by (nonlinear_arith);
    }
    assert(crate::fixed::tdiv(0, 65536) == 0) by {
        crate::fixed::lemma_tdiv_basics(65536);
        assert(0int == 0int * 65536) by (nonlinear_arith);
    }
}

/// A unit-ish vector on the hemisphere around `normal`: flip the sampled
/// vector if it points against the normal, so the result never opposes it.
pub fn random_on_hemisphere(rng: &mut Xoshiro256Plus, normal: &Vec3) -> (r: Vec3)
    requires
        normal.bounded(VEC_MUL_MAX as int),
    ensures
        r.bounded(2 * FX_ONE as int),
        r.dot_spec(*normal) >= 0,
        exists|u: Vec3| (#[trigger] is_unit_sample(u)) && (r == u || r == u.neg_spec()),
{
    let on_unit_sphere = random_unit_vector(rng);
    if on_unit_sphere.dot(normal) > 0 {
        on_unit_sphere
    } else {
        proof {
            lemma_dot_neg(on_unit_sphere, *normal);
        }
        on_unit_sphere.neg()
    }
}

/// Negating one side of a dot product negates the product.
pub proof fn lemma_dot_neg(a: Vec3, b: Vec3)
    requires
        a.bounded(VEC_LIN_MAX as int),
    ensures
        a.neg_spec().dot_spec(b) == -a.dot_spec(b),
{
    assert((-(a.x as int)) * (b.x as int) == -((a.x as int) * (b.x as int)))
        by (nonlinear_arith);
    assert((-(a.y as int)) * (b.y as int) == -((a.y as int) * (b.y as int)))
        by (nonlinear_arith);
    assert((-(a.z as int)) * (b.z as int) == -((a.z as int) * (b.z as int)))
        by (nonlinear_arith);
    crate::fixed::lemma_tdiv_neg((a.x as int) * (b.x as int), FX_ONE as int);
    crate::fixed::lemma_tdiv_neg((a.y as int) * (b.y as int), FX_ONE as int);
    crate::fixed::lemma_tdiv_neg((a.z as int) * (b.z as int), FX_ONE as int);
}

/// A vector in the unit disk of the xy-plane (capped rejection sampling; the
/// origin stands in if every attempt is rejected).
pub fn random_in_unit_disk(rng: &mut Xoshiro256Plus) -> (r: Vec3)
    ensures
        r.bounded(FX_ONE as int),
        r.z == 0,
        r.mag2_spec() < FX_ONE,
{
    let mut tries: u32 = 0;
    while tries < 64
        invariant true,
        decreases 64 - tries,
    {
        let x = rand_range_fx(rng, -FX_ONE, FX_ONE);
        let y = rand_range_fx(rng, -FX_ONE, FX_ONE);
        let p = Vec3 { x, y, z: 0 };
        if p.mag2() < FX_ONE {
            return p;
        }
        tries = tries + 1;
    }
    proof {
        lemma_mag2_nonneg(Vec3 { x: 0, y: 0, z: 0 });
        assert((Vec3 { x: 0, y: 0, z: 0 }).mag2_spec() == 0) by {
            crate::fixed::lemma_tdiv_basics(65536);
            assert(0int == 0int * 65536) by (nonlinear_arith);
        }
    }
    Vec3 { x: 0, y: 0, z: 0 }
}

} // verus!
