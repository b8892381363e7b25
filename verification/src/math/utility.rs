//! Angle conversion.

use vstd::prelude::*;
use crate::fixed::{fx_mul, tdiv, FX_ONE, fx_mul_e, tdiv_e, lemma_tdiv_shrinks, lemma_tdiv_le};

verus! {

/// The circle constant, in fixed-point representation.
pub const PI_FX: i128 = 205887;

/// 2^40: the magnitude cap on the argument of `deg2rad`.
pub const DEG_MAX: i128 = 0x10000000000;

/// Degrees to radians: `d * pi / 180`, all in fixed-point representation.
pub open spec fn deg2rad_spec(d: int) -> int {
    tdiv(fx_mul(d, PI_FX as int), 180)
}

pub fn deg2rad(degrees: i128) -> (r: i128)
    requires
        -DEG_MAX <= degrees <= DEG_MAX,
    ensures
        r == deg2rad_spec(degrees as int),
{
    proof {
        lemma_tdiv_le(
            (degrees as int) * (PI_FX as int),
            FX_ONE as int,
            0x10000000000int * 205887,
        );
        assert(-(0x10000000000int * 205887 * 65536) <= (degrees as int) * 205887
            <= 0x10000000000int * 205887 * 65536) by (nonlinear_arith)
            requires -0x10000000000 <= degrees as int <= 0x10000000000;
        lemma_tdiv_shrinks(fx_mul(degrees as int, PI_FX as int), 180);
    }
    tdiv_e(fx_mul_e(degrees, PI_FX), 180)
}

/// 2^17: the domain cap (two radians) for the trigonometric series.
pub const TRIG_IN_MAX: i128 = 131072;

/// The sine, by a truncated Taylor series over fixed-point numbers:
/// `x - x^3/6 + x^5/120 - x^7/5040`.
pub open spec fn sin_fx_spec(x: int) -> int {
    let x2 = fx_mul(x, x);
    let x3 = fx_mul(x2, x);
    let x5 = fx_mul(x3, x2);
    let x7 = fx_mul(x5, x2);
    x - tdiv(x3, 6) + tdiv(x5, 120) - tdiv(x7, 5040)
}

/// The cosine, by a truncated Taylor series over fixed-point numbers:
/// `1 - x^2/2 + x^4/24 - x^6/720 + x^8/40320`.
pub open spec fn cos_fx_spec(x: int) -> int {
    let x2 = fx_mul(x, x);
    let x4 = fx_mul(x2, x2);
    let x6 = fx_mul(x4, x2);
    let x8 = fx_mul(x6, x2);
    FX_ONE - tdiv(x2, 2) + tdiv(x4, 24) - tdiv(x6, 720) + tdiv(x8, 40320)
}

/// Power bounds for the series terms.
proof fn lemma_trig_powers(x: int)
    requires
        0 <= x <= TRIG_IN_MAX,
    ensures
        0 <= fx_mul(x, x) <= 4 * FX_ONE,
        0 <= fx_mul(fx_mul(x, x), x) <= 8 * FX_ONE,
        0 <= fx_mul(fx_mul(fx_mul(x, x), x), fx_mul(x, x)) <= 32 * FX_ONE,
        0 <= fx_mul(fx_mul(fx_mul(fx_mul(x, x), x), fx_mul(x, x)), fx_mul(x, x))
            <= 128 * FX_ONE,
        0 <= fx_mul(fx_mul(x, x), fx_mul(x, x)) <= 16 * FX_ONE,
        0 <= fx_mul(fx_mul(fx_mul(x, x), fx_mul(x, x)), fx_mul(x, x)) <= 64 * FX_ONE,
        0 <= fx_mul(fx_mul(fx_mul(fx_mul(x, x), fx_mul(x, x)), fx_mul(x, x)), fx_mul(x, x))
            <= 256 * FX_ONE,
{
    let s = FX_ONE as int;
    assert(0 <= x * x <= (4 * s) * s) by (nonlinear_arith)
        requires 0 <= x <= 2 * s && s == 65536;
    lemma_tdiv_shrinks(x * x, s);
    lemma_tdiv_le(x * x, s, 4 * s);
    let x2 = fx_mul(x, x);
    assert(0 <= x2 * x <= (8 * s) * s) by (nonlinear_arith)
        requires 0 <= x2 <= 4 * s && 0 <= x <= 2 * s && s == 65536;
    lemma_tdiv_shrinks(x2 * x, s);
    lemma_tdiv_le(x2 * x, s, 8 * s);
    let x3 = fx_mul(x2, x);
    assert(0 <= x3 * x2 <= (32 * s) * s) by (nonlinear_arith)
        requires 0 <= x3 <= 8 * s && 0 <= x2 <= 4 * s && s == 65536;
    lemma_tdiv_shrinks(x3 * x2, s);
    lemma_tdiv_le(x3 * x2, s, 32 * s);
    let x5 = fx_mul(x3, x2);
    assert(0 <= x5 * x2 <= (128 * s) * s) by (nonlinear_arith)
        requires 0 <= x5 <= 32 * s && 0 <= x2 <= 4 * s && s == 65536;
    lemma_tdiv_shrinks(x5 * x2, s);
    lemma_tdiv_le(x5 * x2, s, 128 * s);
    assert(0 <= x2 * x2 <= (16 * s) * s) by (nonlinear_arith)
        requires 0 <= x2 <= 4 * s && s == 65536;
    lemma_tdiv_shrinks(x2 * x2, s);
    lemma_tdiv_le(x2 * x2, s, 16 * s);
    let x4 = fx_mul(x2, x2);
    assert(0 <= x4 * x2 <= (64 * s) * s) by (nonlinear_arith)
        requires 0 <= x4 <= 16 * s && 0 <= x2 <= 4 * s && s == 65536;
    lemma_tdiv_shrinks(x4 * x2, s);
    lemma_tdiv_le(x4 * x2, s, 64 * s);
    let x6 = fx_mul(x4, x2);
    assert(0 <= x6 * x2 <= (256 * s) * s) by (nonlinear_arith)
        requires 0 <= x6 <= 64 * s && 0 <= x2 <= 4 * s && s == 65536;
    lemma_tdiv_shrinks(x6 * x2, s);
    lemma_tdiv_le(x6 * x2, s, 256 * s);
}

pub fn sin_fx(x: i128) -> (r: i128)
    requires
        0 <= x <= TRIG_IN_MAX,
    ensures
        r == sin_fx_spec(x as int),
        -(3 * FX_ONE) <= r <= 3 * FX_ONE,
{
    proof {
        lemma_trig_powers(x as int);
        let x2s = fx_mul(x as int, x as int);
        let x3s = fx_mul(x2s, x as int);
        let x5s = fx_mul(x3s, x2s);
        let x7s = fx_mul(x5s, x2s);
        lemma_tdiv_shrinks(x3s, 6);
        lemma_tdiv_shrinks(x5s, 120);
        lemma_tdiv_shrinks(x7s, 5040);
        lemma_tdiv_le(x3s, 6, 2 * FX_ONE as int);
        assert(8 * 65536int <= (2 * 65536) * 6);
        lemma_tdiv_le(x5s, 120, FX_ONE as int);
        assert(32 * 65536int <= 65536 * 120);
        lemma_tdiv_le(x7s, 5040, FX_ONE as int);
        assert(128 * 65536int <= 65536 * 5040);
    }
    let x2 = fx_mul_e(x, x);
    let x3 = fx_mul_e(x2, x);
    let x5 = fx_mul_e(x3, x2);
    let x7 = fx_mul_e(x5, x2);
    x - tdiv_e(x3, 6) + tdiv_e(x5, 120) - tdiv_e(x7, 5040)
}

pub fn cos_fx(x: i128) -> (r: i128)
    requires
        0 <= x <= TRIG_IN_MAX,
    ensures
        r == cos_fx_spec(x as int),
        -(4 * FX_ONE) <= r <= 4 * FX_ONE,
{
    proof {
        lemma_trig_powers(x as int);
        let x2s = fx_mul(x as int, x as int);
        let x4s = fx_mul(x2s, x2s);
        let x6s = fx_mul(x4s, x2s);
        let x8s = fx_mul(x6s, x2s);
        lemma_tdiv_shrinks(x2s, 2);
        lemma_tdiv_shrinks(x4s, 24);
        lemma_tdiv_shrinks(x6s, 720);
        lemma_tdiv_shrinks(x8s, 40320);
        lemma_tdiv_le(x2s, 2, 2 * FX_ONE as int);
        lemma_tdiv_le(x4s, 24, FX_ONE as int);
        assert(16 * 65536int <= 65536 * 24);
        lemma_tdiv_le(x6s, 720, FX_ONE as int);
        assert(64 * 65536int <= 65536 * 720);
        lemma_tdiv_le(x8s, 40320, FX_ONE as int);
        assert(256 * 65536int <= 65536 * 40320);
    }
    let x2 = fx_mul_e(x, x);
    let x4 = fx_mul_e(x2, x2);
    let x6 = fx_mul_e(x4, x2);
    let x8 = fx_mul_e(x6, x2);
    FX_ONE - tdiv_e(x2, 2) + tdiv_e(x4, 24) - tdiv_e(x6, 720) + tdiv_e(x8, 40320)
}

} // verus!
