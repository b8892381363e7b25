//! Fixed-point scalar arithmetic.
//!
//! All geometric and radiometric quantities in this crate are represented as
//! binary fixed-point numbers: an `i128` holding the real value scaled by
//! `FX_ONE` (2^16). Multiplication and division rescale with truncating
//! (round-toward-zero) integer division, and square roots are computed with an
//! exact integer square root, so every operation has an exact mathematical
//! specification.

use vstd::prelude::*;

verus! {

/// The fixed-point scale: the representation of the real number one.
pub const FX_ONE: i128 = 65536;

/// The representation of one half.
pub const FX_HALF: i128 = 32768;

/// Truncating (round-toward-zero) integer division, the rounding used by
/// Rust's `/` on signed integers. Meaningful for `d > 0`.
pub open spec fn tdiv(x: int, d: int) -> int {
    if x >= 0 {
        x / d
    } else {
        -((-x) / d)
    }
}

/// The product of two fixed-point numbers: rescale the double-scaled product.
pub open spec fn fx_mul(a: int, b: int) -> int {
    tdiv(a * b, FX_ONE as int)
}

/// The quotient of two fixed-point numbers: scale the dividend up first.
/// Meaningful for `b > 0`.
pub open spec fn fx_div(a: int, b: int) -> int {
    tdiv(a * FX_ONE, b)
}

/// Truncating division is exact on the scale constant itself.
pub proof fn lemma_tdiv_basics(d: int)
    requires
        d >= 1,
    ensures
        tdiv(0, d) == 0,
        forall|x: int| #![trigger tdiv(x * d, d)] tdiv(x * d, d) == x,
{
    assert forall|x: int| #![trigger tdiv(x * d, d)] tdiv(x * d, d) == x by {
        if x >= 0 {
            lemma_nonneg_div_exact(x, d);
        } else {
            assert(-(x * d) == (-x) * d) by (nonlinear_arith);
            assert(x * d <= 0) by (nonlinear_arith)
                requires x <= 0 && d >= 1;
            lemma_nonneg_div_exact(-x, d);
        }
    }
}

proof fn lemma_nonneg_div_exact(x: int, d: int)
    requires
        x >= 0,
        d >= 1,
    ensures
        (x * d) / d == x,
{
    vstd::arithmetic::div_mod::lemma_div_by_multiple(x, d);
}

/// Magnitude bound for truncating division: if `|x| <= c * d` then
/// `|tdiv(x, d)| <= c`.
pub proof fn lemma_tdiv_le(x: int, d: int, c: int)
    requires
        d >= 1,
        c >= 0,
        -(c * d) <= x <= c * d,
    ensures
        -c <= tdiv(x, d) <= c,
{
    if x >= 0 {
        assert(x / d >= 0) by {
            vstd::arithmetic::div_mod::lemma_div_pos_is_pos(x, d);
        }
        assert(x / d <= c) by {
            vstd::arithmetic::div_mod::lemma_div_is_ordered(x, c * d, d);
            lemma_nonneg_div_exact(c, d);
        }
    } else {
        assert((-x) / d >= 0) by {
            vstd::arithmetic::div_mod::lemma_div_pos_is_pos(-x, d);
        }
        assert((-x) / d <= c) by {
            vstd::arithmetic::div_mod::lemma_div_is_ordered(-x, c * d, d);
            lemma_nonneg_div_exact(c, d);
        }
    }
}

/// Truncating division preserves sign and never increases magnitude.
pub proof fn lemma_tdiv_shrinks(x: int, d: int)
    requires
        d >= 1,
    ensures
        x >= 0 ==> 0 <= tdiv(x, d) <= x,
        x < 0 ==> x <= tdiv(x, d) <= 0,
{
    if x >= 0 {
        assert(x <= x * d) by (nonlinear_arith)
            requires x >= 0 && d >= 1;
        lemma_tdiv_le(x, d, x);
    } else {
        assert(-((-x) * d) <= x <= (-x) * d) by (nonlinear_arith)
            requires x < 0 && d >= 1;
        lemma_tdiv_le(x, d, -x);
    }
}

/// Truncating division commutes with negation.
pub proof fn lemma_tdiv_neg(x: int, d: int)
    requires
        d >= 1,
    ensures
        tdiv(-x, d) == -tdiv(x, d),
{
}

/// Truncating division is monotone in the dividend, for a positive divisor.
pub proof fn lemma_tdiv_mono(x: int, y: int, d: int)
    requires
        d >= 1,
        x <= y,
    ensures
        tdiv(x, d) <= tdiv(y, d),
{
    if x >= 0 {
        vstd::arithmetic::div_mod::lemma_div_is_ordered(x, y, d);
    } else if y < 0 {
        vstd::arithmetic::div_mod::lemma_div_is_ordered(-y, -x, d);
    } else {
        vstd::arithmetic::div_mod::lemma_div_pos_is_pos(-x, d);
        vstd::arithmetic::div_mod::lemma_div_pos_is_pos(y, d);
    }
}

/// Exec form of `tdiv`: Rust's `/` on `i128` already truncates toward zero.
pub fn tdiv_e(x: i128, d: i128) -> (r: i128)
    requires
        d >= 1,
    ensures
        r == tdiv(x as int, d as int),
{
    proof {
        lemma_tdiv_shrinks(x as int, d as int);
    }
    x / d
}

/// 2^62: the magnitude cap on the factors of `fx_mul_e`.
pub const FX_MUL_IN_MAX: i128 = 0x4000000000000000;

/// 2^100: the magnitude cap on the dividend of `fx_div_e`.
pub const FX_DIV_IN_MAX: i128 = 0x10000000000000000000000000;

/// Exec fixed-point multiplication.
pub fn fx_mul_e(a: i128, b: i128) -> (r: i128)
    requires
        -FX_MUL_IN_MAX <= a <= FX_MUL_IN_MAX,
        -FX_MUL_IN_MAX <= b <= FX_MUL_IN_MAX,
    ensures
        r == fx_mul(a as int, b as int),
{
    proof {
        let m = FX_MUL_IN_MAX as int;
        assert(-(m * m) <= (a as int) * (b as int) <= m * m) by (nonlinear_arith)
            requires
                -m <= a as int <= m,
                -m <= b as int <= m;
        lemma_tdiv_shrinks((a as int) * (b as int), FX_ONE as int);
    }
    (a * b) / FX_ONE
}

/// Exec fixed-point division.
pub fn fx_div_e(a: i128, b: i128) -> (r: i128)
    requires
        b >= 1,
        -FX_DIV_IN_MAX <= a <= FX_DIV_IN_MAX,
    ensures
        r == fx_div(a as int, b as int),
{
    proof {
        let m = FX_DIV_IN_MAX as int;
        assert(-(m * 65536) <= (a as int) * 65536 <= m * 65536) by (nonlinear_arith)
            requires -m <= a as int <= m;
        lemma_tdiv_shrinks((a as int) * (FX_ONE as int), b as int);
    }
    (a * FX_ONE) / b
}

/// The integer square root: the largest `r` with `r * r <= x` (and `0` for
/// negative arguments).
pub open spec fn isqrt_spec(x: int) -> int
    decreases x,
{
    if x <= 0 {
        0
    } else {
        let p = isqrt_spec(x - 1);
        if (p + 1) * (p + 1) <= x {
            p + 1
        } else {
            p
        }
    }
}

/// `isqrt_spec(x)` is characterized by `r * r <= x < (r + 1) * (r + 1)`.
pub proof fn lemma_isqrt_spec(x: int)
    requires
        x >= 0,
    ensures
        0 <= isqrt_spec(x),
        isqrt_spec(x) * isqrt_spec(x) <= x,
        x < (isqrt_spec(x) + 1) * (isqrt_spec(x) + 1),
    decreases x,
{
    if x == 0 {
    } else {
        lemma_isqrt_spec(x - 1);
        let p = isqrt_spec(x - 1);
        if (p + 1) * (p + 1) <= x {
            assert(x < (p + 2) * (p + 2)) by (nonlinear_arith)
                requires x - 1 < (p + 1) * (p + 1) && p >= 0;
        }
    }
}

/// Any `r` with `r * r <= x < (r + 1) * (r + 1)` equals `isqrt_spec(x)`.
pub proof fn lemma_isqrt_unique(x: int, r: int)
    requires
        x >= 0,
        r >= 0,
        r * r <= x,
        x < (r + 1) * (r + 1),
    ensures
        r == isqrt_spec(x),
{
    lemma_isqrt_spec(x);
    let s = isqrt_spec(x);
    if r < s {
        assert((r + 1) * (r + 1) <= s * s) by (nonlinear_arith)
            requires 0 <= r + 1 <= s;
    }
    if s < r {
        assert((s + 1) * (s + 1) <= r * r) by (nonlinear_arith)
            requires 0 <= s + 1 <= r;
    }
}

/// The integer square root is monotone; in particular it is bounded by the
/// square root of any square bound.
pub proof fn lemma_isqrt_le(x: int, c: int)
    requires
        0 <= x,
        0 <= c,
        x <= c * c,
    ensures
        isqrt_spec(x) <= c,
{
    lemma_isqrt_spec(x);
    let s = isqrt_spec(x);
    if c < s {
        assert(c * c < s * s) by (nonlinear_arith)
            requires 0 <= c < s;
    }
}

/// 2^126: the exclusive cap on the argument of `isqrt_e`.
pub const ISQRT_IN_END: i128 = 0x40000000000000000000000000000000;

/// Exec integer square root, by binary search on the root.
pub fn isqrt_e(x: i128) -> (r: i128)
    requires
        0 <= x < ISQRT_IN_END,
    ensures
        r == isqrt_spec(x as int),
        0 <= r,
        r * r <= x,
{
    let mut lo: i128 = 0;
    let mut hi: i128 = 0x8000000000000000;
    proof {
        assert((hi as int) * (hi as int) == 0x40000000000000000000000000000000int)
            by (nonlinear_arith)
            requires hi == 0x8000000000000000i128;
    }
    while lo + 1 < hi
        invariant
            0 <= lo < hi <= 0x8000000000000000,
            (lo as int) * (lo as int) <= x as int,
            (x as int) < (hi as int) * (hi as int),
        decreases hi - lo,
    {
        let mid = lo + (hi - lo) / 2;
        assert(lo < mid < hi);
        assert((mid as int) * (mid as int) < 0x40000000000000000000000000000000int)
            by (nonlinear_arith)
            requires 0 <= (mid as int) && (mid as int) < 0x8000000000000000;
        if mid <= x / mid {
            proof {
                vstd::arithmetic::div_mod::lemma_fundamental_div_mod(x as int, mid as int);
                vstd::arithmetic::div_mod::lemma_mod_division_less_than_divisor(
                    x as int, mid as int);
                assert((mid as int) * (mid as int) <= (mid as int) * ((x as int) / (mid as int)))
                    by (nonlinear_arith)
                    requires mid as int >= 1 && mid as int <= (x as int) / (mid as int);
            }
            lo = mid;
        } else {
            proof {
                vstd::arithmetic::div_mod::lemma_fundamental_div_mod(x as int, mid as int);
                vstd::arithmetic::div_mod::lemma_mod_division_less_than_divisor(
                    x as int, mid as int);
                assert((x as int) < (mid as int) * (mid as int)) by (nonlinear_arith)
                    requires
                        mid as int >= 1,
                        (x as int) / (mid as int) < mid as int,
                        (x as int) == (mid as int) * ((x as int) / (mid as int))
                            + (x as int) % (mid as int),
                        0 <= (x as int) % (mid as int) < mid as int;
            }
            hi = mid;
        }
    }
    proof {
        lemma_isqrt_unique(x as int, lo as int);
    }
    lo
}

/// The fixed-point square root of a fixed-point number:
/// `sqrt(x / S) = sqrt(x * S) / S`, so take the integer root of `x * S`.
pub open spec fn sqrt_fx(x: int) -> int {
    isqrt_spec(x * (FX_ONE as int))
}

/// 2^108: the exclusive cap on the argument of `sqrt_fx_e`.
pub const SQRT_FX_IN_END: i128 = 0x1000000000000000000000000000;

/// Exec fixed-point square root.
pub fn sqrt_fx_e(x: i128) -> (r: i128)
    requires
        0 <= x < SQRT_FX_IN_END,
    ensures
        r == sqrt_fx(x as int),
        r >= 0,
{
    proof {
        assert((x as int) * 65536 < 0x40000000000000000000000000000000int) by (nonlinear_arith)
            requires 0 <= x as int && (x as int) < 0x1000000000000000000000000000int;
        lemma_tdiv_shrinks((x as int) * 65536, 1);
    }
    isqrt_e(x * FX_ONE)
}

} // verus!
