//! Three-component fixed-point vectors, used interchangeably as points,
//! directions and RGB colors.

use vstd::prelude::*;
use crate::fixed::{
    fx_mul, tdiv, sqrt_fx, FX_ONE, fx_mul_e, tdiv_e, sqrt_fx_e,
    lemma_tdiv_le, lemma_tdiv_shrinks, lemma_isqrt_spec,
};

verus! {

/// A 3-vector of fixed-point scalars.
#[derive(Clone, Copy, Debug, PartialEq, Eq, Structural)]
pub struct Vec3 {
    pub x: i128,
    pub y: i128,
    pub z: i128,
}

/// 2^100: componentwise additions below this magnitude cannot overflow.
pub const VEC_LIN_MAX: i128 = 0x10000000000000000000000000;

/// 2^62: cap on the factors of fixed-point products.
pub const VEC_MUL_MAX: i128 = 0x4000000000000000;

/// 2^40: cap on the components of vectors that are normalized.
pub const VEC_UNIT_IN_MAX: i128 = 0x10000000000;

/// 2^36: cap on the components of vectors handed to `reflect`.
pub const VEC_REFLECT_IN_MAX: i128 = 0x1000000000;

impl Vec3 {
    /// All components within `[-b, b]`.
    pub open spec fn bounded(self, b: int) -> bool {
        &&& -b <= self.x <= b
        &&& -b <= self.y <= b
        &&& -b <= self.z <= b
    }

    pub open spec fn add_spec(self, o: Vec3) -> Vec3 {
        Vec3 { x: (self.x + o.x) as i128, y: (self.y + o.y) as i128, z: (self.z + o.z) as i128 }
    }

    pub open spec fn sub_spec(self, o: Vec3) -> Vec3 {
        Vec3 { x: (self.x - o.x) as i128, y: (self.y - o.y) as i128, z: (self.z - o.z) as i128 }
    }

    pub open spec fn neg_spec(self) -> Vec3 {
        Vec3 { x: -self.x as i128, y: -self.y as i128, z: -self.z as i128 }
    }

    /// Scaling by a fixed-point factor.
    pub open spec fn scale_spec(self, k: int) -> Vec3 {
        Vec3 {
            x: fx_mul(self.x as int, k) as i128,
            y: fx_mul(self.y as int, k) as i128,
            z: fx_mul(self.z as int, k) as i128,
        }
    }

    /// Componentwise fixed-point product (used for color attenuation).
    pub open spec fn mul_spec(self, o: Vec3) -> Vec3 {
        Vec3 {
            x: fx_mul(self.x as int, o.x as int) as i128,
            y: fx_mul(self.y as int, o.y as int) as i128,
            z: fx_mul(self.z as int, o.z as int) as i128,
        }
    }

    /// Componentwise truncating division by a plain (unscaled) integer.
    pub open spec fn divi_spec(self, k: int) -> Vec3 {
        Vec3 {
            x: tdiv(self.x as int, k) as i128,
            y: tdiv(self.y as int, k) as i128,
            z: tdiv(self.z as int, k) as i128,
        }
    }

    pub open spec fn dot_spec(self, o: Vec3) -> int {
        fx_mul(self.x as int, o.x as int) + fx_mul(self.y as int, o.y as int)
            + fx_mul(self.z as int, o.z as int)
    }

    pub open spec fn cross_spec(self, o: Vec3) -> Vec3 {
        Vec3 {
            x: (fx_mul(self.y as int, o.z as int) - fx_mul(self.z as int, o.y as int)) as i128,
            y: (fx_mul(self.z as int, o.x as int) - fx_mul(self.x as int, o.z as int)) as i128,
            z: (fx_mul(self.x as int, o.y as int) - fx_mul(self.y as int, o.x as int)) as i128,
        }
    }

    pub open spec fn mag2_spec(self) -> int {
        self.dot_spec(self)
    }

    pub open spec fn mag_spec(self) -> int {
        sqrt_fx(self.mag2_spec())
    }

    /// The normalized vector; meaningful when `mag2_spec >= 1`.
    pub open spec fn unit_spec(self) -> Vec3 {
        let m = self.mag_spec();
        Vec3 {
            x: tdiv(self.x * (FX_ONE as int), m) as i128,
            y: tdiv(self.y * (FX_ONE as int), m) as i128,
            z: tdiv(self.z * (FX_ONE as int), m) as i128,
        }
    }

    /// Mirror reflection about a normal: `d - 2 (d . n) n`.
    pub open spec fn reflect_spec(self, n: Vec3) -> Vec3 {
        self.sub_spec(n.scale_spec(2 * self.dot_spec(n)))
    }

    pub open spec fn zero_spec() -> Vec3 {
        Vec3 { x: 0, y: 0, z: 0 }
    }

    pub fn x(&self) -> (r: i128)
        ensures r == self.x,
    {
        self.x
    }

    pub fn y(&self) -> (r: i128)
        ensures r == self.y,
    {
        self.y
    }

    pub fn z(&self) -> (r: i128)
        ensures r == self.z,
    {
        self.z
    }

    pub fn zero() -> (r: Vec3)
        ensures r == Vec3::zero_spec(),
    {
        Vec3 { x: 0, y: 0, z: 0 }
    }

    pub fn add(&self, o: &Vec3) -> (r: Vec3)
        requires
            self.bounded(VEC_LIN_MAX as int),
            o.bounded(VEC_LIN_MAX as int),
        ensures
            r == self.add_spec(*o),
    {
        Vec3 { x: self.x + o.x, y: self.y + o.y, z: self.z + o.z }
    }

    pub fn sub(&self, o: &Vec3) -> (r: Vec3)
        requires
            self.bounded(VEC_LIN_MAX as int),
            o.bounded(VEC_LIN_MAX as int),
        ensures
            r == self.sub_spec(*o),
    {
        Vec3 { x: self.x - o.x, y: self.y - o.y, z: self.z - o.z }
    }

    pub fn neg(&self) -> (r: Vec3)
        requires
            self.bounded(VEC_LIN_MAX as int),
        ensures
            r == self.neg_spec(),
    {
        Vec3 { x: -self.x, y: -self.y, z: -self.z }
    }

    pub fn scale(&self, k: i128) -> (r: Vec3)
        requires
            self.bounded(VEC_MUL_MAX as int),
            -VEC_MUL_MAX <= k <= VEC_MUL_MAX,
        ensures
            r == self.scale_spec(k as int),
    {
        Vec3 { x: fx_mul_e(self.x, k), y: fx_mul_e(self.y, k), z: fx_mul_e(self.z, k) }
    }

    pub fn mul(&self, o: &Vec3) -> (r: Vec3)
        requires
            self.bounded(VEC_MUL_MAX as int),
            o.bounded(VEC_MUL_MAX as int),
        ensures
            r == self.mul_spec(*o),
    {
        Vec3 { x: fx_mul_e(self.x, o.x), y: fx_mul_e(self.y, o.y), z: fx_mul_e(self.z, o.z) }
    }

    /// Whether all components lie within `[-b, b]`.
    pub fn bounded_e(&self, b: i128) -> (r: bool)
        requires
            0 <= b,
        ensures
            r == self.bounded(b as int),
    {
        -b <= self.x && self.x <= b && -b <= self.y && self.y <= b
            && -b <= self.z && self.z <= b
    }

    pub fn divi(&self, k: i128) -> (r: Vec3)
        requires
            k >= 1,
        ensures
            r == self.divi_spec(k as int),
            forall|b: int| #[trigger] self.bounded(b) && b >= 0 ==> r.bounded(b),
    {
        proof {
            lemma_tdiv_shrinks(self.x as int, k as int);
            lemma_tdiv_shrinks(self.y as int, k as int);
            lemma_tdiv_shrinks(self.z as int, k as int);
        }
        Vec3 { x: tdiv_e(self.x, k), y: tdiv_e(self.y, k), z: tdiv_e(self.z, k) }
    }

    pub fn dot(&self, o: &Vec3) -> (r: i128)
        requires
            self.bounded(VEC_MUL_MAX as int),
            o.bounded(VEC_MUL_MAX as int),
        ensures
            r == self.dot_spec(*o),
    {
        proof {
            lemma_fx_mul_le(self.x as int, o.x as int, VEC_MUL_MAX as int, VEC_MUL_MAX as int);
            lemma_fx_mul_le(self.y as int, o.y as int, VEC_MUL_MAX as int, VEC_MUL_MAX as int);
            lemma_fx_mul_le(self.z as int, o.z as int, VEC_MUL_MAX as int, VEC_MUL_MAX as int);
        }
        fx_mul_e(self.x, o.x) + fx_mul_e(self.y, o.y) + fx_mul_e(self.z, o.z)
    }

    pub fn cross(&self, o: &Vec3) -> (r: Vec3)
        requires
            self.bounded(VEC_MUL_MAX as int),
            o.bounded(VEC_MUL_MAX as int),
        ensures
            r == self.cross_spec(*o),
    {
        proof {
            lemma_fx_mul_le(self.x as int, o.x as int, VEC_MUL_MAX as int, VEC_MUL_MAX as int);
            lemma_fx_mul_le(self.y as int, o.y as int, VEC_MUL_MAX as int, VEC_MUL_MAX as int);
            lemma_fx_mul_le(self.z as int, o.z as int, VEC_MUL_MAX as int, VEC_MUL_MAX as int);
            lemma_fx_mul_le(self.x as int, o.y as int, VEC_MUL_MAX as int, VEC_MUL_MAX as int);
            lemma_fx_mul_le(self.y as int, o.x as int, VEC_MUL_MAX as int, VEC_MUL_MAX as int);
            lemma_fx_mul_le(self.x as int, o.z as int, VEC_MUL_MAX as int, VEC_MUL_MAX as int);
            lemma_fx_mul_le(self.z as int, o.x as int, VEC_MUL_MAX as int, VEC_MUL_MAX as int);
            lemma_fx_mul_le(self.y as int, o.z as int, VEC_MUL_MAX as int, VEC_MUL_MAX as int);
            lemma_fx_mul_le(self.z as int, o.y as int, VEC_MUL_MAX as int, VEC_MUL_MAX as int);
        }
        Vec3 {
            x: fx_mul_e(self.y, o.z) - fx_mul_e(self.z, o.y),
            y: fx_mul_e(self.z, o.x) - fx_mul_e(self.x, o.z),
            z: fx_mul_e(self.x, o.y) - fx_mul_e(self.y, o.x),
        }
    }

    pub fn mag2(&self) -> (r: i128)
        requires
            self.bounded(VEC_MUL_MAX as int),
        ensures
            r == self.mag2_spec(),
            r >= 0,
    {
        proof {
            lemma_mag2_nonneg(*self);
        }
        self.dot(self)
    }

    pub fn mag(&self) -> (r: i128)
        requires
            self.bounded(VEC_UNIT_IN_MAX as int),
        ensures
            r == self.mag_spec(),
            r >= 0,
    {
        proof {
            lemma_mag2_nonneg(*self);
            lemma_mag2_le(*self, VEC_UNIT_IN_MAX as int);
        }
        sqrt_fx_e(self.mag2())
    }

    /// Normalize. The result has components within twice the fixed-point
    /// unit; see `lemma_unit_bounded`.
    pub fn norm(&self) -> (r: Vec3)
        requires
            self.bounded(VEC_UNIT_IN_MAX as int),
            self.mag2_spec() >= 1,
        ensures
            r == self.unit_spec(),
            r.bounded(2 * FX_ONE as int),
    {
        proof {
            lemma_mag2_nonneg(*self);
            lemma_mag2_le(*self, VEC_UNIT_IN_MAX as int);
            lemma_mag_at_least_min(*self);
            lemma_unit_bounded(*self, VEC_UNIT_IN_MAX as int);
        }
        let m = self.mag();
        Vec3 {
            x: tdiv_e(self.x * FX_ONE, m),
            y: tdiv_e(self.y * FX_ONE, m),
            z: tdiv_e(self.z * FX_ONE, m),
        }
    }

    /// Mirror reflection about `n`.
    pub fn reflect(&self, n: &Vec3) -> (r: Vec3)
        requires
            self.bounded(VEC_REFLECT_IN_MAX as int),
            n.bounded(VEC_REFLECT_IN_MAX as int),
        ensures
            r == self.reflect_spec(*n),
    {
        proof {
            let c = VEC_REFLECT_IN_MAX as int;
            lemma_fx_mul_le(self.x as int, n.x as int, c, c);
            lemma_fx_mul_le(self.y as int, n.y as int, c, c);
            lemma_fx_mul_le(self.z as int, n.z as int, c, c);
            let d = self.dot_spec(*n);
            assert(-0x800000000000000int <= 2 * d <= 0x800000000000000int);
            lemma_fx_mul_le(n.x as int, 2 * d, c, 0x800000000000000int);
            lemma_fx_mul_le(n.y as int, 2 * d, c, 0x800000000000000int);
            lemma_fx_mul_le(n.z as int, 2 * d, c, 0x800000000000000int);
        }
        let d = self.dot(n);
        let s = n.scale(2 * d);
        self.sub(&s)
    }
}

/// A fixed-point product of factors within `ca` and `cb` lies within
/// `ca * cb / FX_ONE + 1`.
pub proof fn lemma_fx_mul_le(a: int, b: int, ca: int, cb: int)
    requires
        -ca <= a <= ca,
        -cb <= b <= cb,
        0 <= ca,
        0 <= cb,
    ensures
        -((ca * cb) / (FX_ONE as int) + 1) <= fx_mul(a, b) <= (ca * cb) / (FX_ONE as int) + 1,
{
    let s = FX_ONE as int;
    let c = (ca * cb) / s + 1;
    assert(-(ca * cb) <= a * b <= ca * cb) by (nonlinear_arith)
        requires -ca <= a <= ca && -cb <= b <= cb && 0 <= ca && 0 <= cb;
    assert(ca * cb >= 0) by (nonlinear_arith)
        requires 0 <= ca && 0 <= cb;
    vstd::arithmetic::div_mod::lemma_fundamental_div_mod(ca * cb, s);
    vstd::arithmetic::div_mod::lemma_mod_division_less_than_divisor(ca * cb, s);
    vstd::arithmetic::div_mod::lemma_div_pos_is_pos(ca * cb, s);
    assert(ca * cb <= c * s) by (nonlinear_arith)
        requires ca * cb == s * ((ca * cb) / s) + (ca * cb) % s
            && 0 <= (ca * cb) % s < s && c == (ca * cb) / s + 1;
    lemma_tdiv_le(a * b, s, c);
}

/// A dot product of vectors bounded by `ca` and `cb` lies within
/// `3 * (ca * cb / FX_ONE + 1)`.
pub proof fn lemma_dot_le(a: Vec3, b: Vec3, ca: int, cb: int)
    requires
        a.bounded(ca),
        b.bounded(cb),
        0 <= ca,
        0 <= cb,
    ensures
        -(3 * ((ca * cb) / (FX_ONE as int) + 1)) <= a.dot_spec(b)
            <= 3 * ((ca * cb) / (FX_ONE as int) + 1),
{
    lemma_fx_mul_le(a.x as int, b.x as int, ca, cb);
    lemma_fx_mul_le(a.y as int, b.y as int, ca, cb);
    lemma_fx_mul_le(a.z as int, b.z as int, ca, cb);
}

/// Squared magnitudes are nonnegative.
pub proof fn lemma_mag2_nonneg(v: Vec3)
    ensures
        v.mag2_spec() >= 0,
{
    let s = FX_ONE as int;
    assert(v.x * v.x >= 0 && v.y * v.y >= 0 && v.z * v.z >= 0) by (nonlinear_arith);
    lemma_tdiv_shrinks(v.x * v.x, s);
    lemma_tdiv_shrinks(v.y * v.y, s);
    lemma_tdiv_shrinks(v.z * v.z, s);
}

/// Squared magnitude of a vector bounded by `c` is at most
/// `3 * (c * c / FX_ONE + 1)`.
pub proof fn lemma_mag2_le(v: Vec3, c: int)
    requires
        v.bounded(c),
        c >= 0,
    ensures
        0 <= v.mag2_spec() <= 3 * ((c * c) / (FX_ONE as int) + 1),
{
    lemma_mag2_nonneg(v);
    lemma_fx_mul_le(v.x as int, v.x as int, c, c);
    lemma_fx_mul_le(v.y as int, v.y as int, c, c);
    lemma_fx_mul_le(v.z as int, v.z as int, c, c);
}

/// A vector with `mag2_spec >= 1` has `mag_spec >= 256`.
pub proof fn lemma_mag_at_least_min(v: Vec3)
    requires
        v.mag2_spec() >= 1,
    ensures
        v.mag_spec() >= 256,
{
    let q = v.mag2_spec();
    let y = q * (FX_ONE as int);
    assert(q * 65536 >= 65536) by (nonlinear_arith)
        requires q >= 1;
    lemma_isqrt_spec(y);
    let m = crate::fixed::isqrt_spec(y);
    if m < 256 {
        assert((m + 1) * (m + 1) <= 65536) by (nonlinear_arith)
            requires 0 <= m < 256;
    }
}

/// Components of a normalized vector lie within twice the fixed-point unit.
pub proof fn lemma_unit_bounded(v: Vec3, c: int)
    requires
        v.bounded(c),
        0 <= c <= VEC_UNIT_IN_MAX as int,
        v.mag2_spec() >= 1,
    ensures
        v.unit_spec().bounded(2 * FX_ONE as int),
{
    lemma_mag_at_least_min(v);
    lemma_unit_comp(v, v.x as int);
    lemma_unit_comp(v, v.y as int);
    lemma_unit_comp(v, v.z as int);
}

/// One component of the normalization: `|comp * FX_ONE / mag| <= 2 * FX_ONE`.
proof fn lemma_unit_comp(v: Vec3, comp: int)
    requires
        v.mag2_spec() >= 1,
        comp == v.x as int || comp == v.y as int || comp == v.z as int,
    ensures
        -2 * (FX_ONE as int) <= tdiv(comp * (FX_ONE as int), v.mag_spec()) <= 2 * (FX_ONE as int),
{
    let s = FX_ONE as int;
    let q = v.mag2_spec();
    let m = v.mag_spec();
    // Each squared component, before rescaling, is within (q + 1) * s.
    assert(comp * comp >= 0) by (nonlinear_arith);
    vstd::arithmetic::div_mod::lemma_fundamental_div_mod(comp * comp, s);
    vstd::arithmetic::div_mod::lemma_mod_division_less_than_divisor(comp * comp, s);
    assert(tdiv(comp * comp, s) <= q) by {
        assert(v.x * v.x >= 0 && v.y * v.y >= 0 && v.z * v.z >= 0) by (nonlinear_arith);
        lemma_tdiv_shrinks(v.x * v.x, s);
        lemma_tdiv_shrinks(v.y * v.y, s);
        lemma_tdiv_shrinks(v.z * v.z, s);
    }
    assert(comp * comp < (q + 1) * s) by (nonlinear_arith)
        requires
            comp * comp == s * ((comp * comp) / s) + (comp * comp) % s,
            0 <= (comp * comp) % s < s,
            (comp * comp) / s <= q,
            comp * comp >= 0,
            s == 65536;
    // m is the integer root of q * s.
    assert(q * s >= 65536) by (nonlinear_arith)
        requires q >= 1 && s == 65536;
    lemma_isqrt_spec(q * s);
    assert(m * m <= q * s < (m + 1) * (m + 1));
    lemma_mag_at_least_min(v);
    // 256 (m + 1) <= 257 m, so 2 (m + 1)^2 <= 4 m^2 with room to spare.
    assert(comp * comp < 2 * (q * s)) by (nonlinear_arith)
        requires comp * comp < (q + 1) * s && q >= 1 && s == 65536;
    assert(65536 * ((m + 1) * (m + 1)) <= 66049 * (m * m)) by (nonlinear_arith)
        requires m >= 256;
    assert(comp * comp <= 4 * (m * m)) by (nonlinear_arith)
        requires
            comp * comp < 2 * (q * s),
            q * s < (m + 1) * (m + 1),
            65536 * ((m + 1) * (m + 1)) <= 66049 * (m * m),
            m >= 256;
    assert(-(2 * m) <= comp <= 2 * m) by (nonlinear_arith)
        requires comp * comp <= 4 * (m * m) && m >= 256;
    assert(-((2 * s) * m) <= comp * s <= (2 * s) * m) by (nonlinear_arith)
        requires -(2 * m) <= comp <= 2 * m && s == 65536 && m >= 1;
    lemma_tdiv_le(comp * s, m, 2 * s);
}

} // verus!
