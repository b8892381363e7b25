//! Colors and their textual form.
//!
//! A color is a vector of fixed-point channels in `[0, 1]`. For output, each
//! channel is gamma-corrected with a square root, clamped just below one, and
//! quantized to `0..=255`, giving one `"R G B"` text triple per pixel.

use vstd::prelude::*;
use vstd::string::StringExecFns;
use crate::math::Vec3;
use crate::fixed::{tdiv, sqrt_fx, FX_ONE, sqrt_fx_e, tdiv_e, lemma_tdiv_shrinks};
use crate::utility::{clamp, clamp_spec};

verus! {

pub type Color = Vec3;

/// A color whose channels all lie in `[0, 1]`.
pub open spec fn color_wf(c: Color) -> bool {
    &&& 0 <= c.x <= FX_ONE
    &&& 0 <= c.y <= FX_ONE
    &&& 0 <= c.z <= FX_ONE
}

/// The inclusive clamp ceiling just below one: 0.999 in fixed-point form.
pub const INTENSITY_MAX: i128 = 65470;

/// 2^40: the magnitude cap on channels handed to `linear_to_gamma`.
pub const CHANNEL_MAX: i128 = 0x10000000000;

pub fn color(r: i128, g: i128, b: i128) -> (c: Color)
    ensures
        c == (Vec3 { x: r, y: g, z: b }),
{
    Vec3 { x: r, y: g, z: b }
}

/// Gamma-2 correction: the fixed-point square root of the linear channel.
pub fn linear_to_gamma(linear_component: i128) -> (r: i128)
    requires
        0 <= linear_component <= CHANNEL_MAX,
    ensures
        r == sqrt_fx(linear_component as int),
        r >= 0,
{
    sqrt_fx_e(linear_component)
}

/// One channel quantized for output: gamma, clamp to `[0, 0.999]`, then
/// truncate `256 * channel` to an integer.
pub open spec fn quantize_spec(c: int) -> int {
    tdiv(256 * clamp_spec(0, INTENSITY_MAX as int, sqrt_fx(c)), FX_ONE as int)
}

pub fn quantize(c: i128) -> (r: i128)
    requires
        0 <= c <= CHANNEL_MAX,
    ensures
        r == quantize_spec(c as int),
        0 <= r <= 255,
{
    let g = linear_to_gamma(c);
    let k = clamp(0, INTENSITY_MAX, g);
    proof {
        lemma_tdiv_shrinks(256 * (k as int), FX_ONE as int);
        vstd::arithmetic::div_mod::lemma_div_is_ordered(
            256 * (k as int), 16760320, FX_ONE as int);
        vstd::arithmetic::div_mod::lemma_div_pos_is_pos(256 * (k as int), FX_ONE as int);
    }
    tdiv_e(256 * k, FX_ONE)
}

/// The digit character of a value in `0..=9`.
pub open spec fn digit_char(d: int) -> char {
    if d == 0 { '0' }
    else if d == 1 { '1' }
    else if d == 2 { '2' }
    else if d == 3 { '3' }
    else if d == 4 { '4' }
    else if d == 5 { '5' }
    else if d == 6 { '6' }
    else if d == 7 { '7' }
    else if d == 8 { '8' }
    else { '9' }
}

/// The decimal text of a nonnegative value, without leading zeros.
pub open spec fn dec_spec(n: int) -> Seq<char>
    decreases n,
{
    if n < 10 {
        seq![digit_char(n)]
    } else {
        dec_spec(n / 10) + seq![digit_char(n % 10)]
    }
}

fn digit_str(d: i128) -> (r: &'static str)
    requires
        0 <= d <= 9,
    ensures
        r@ == seq![digit_char(d as int)],
{
    proof {
        reveal_strlit("0");
        reveal_strlit("1");
        reveal_strlit("2");
        reveal_strlit("3");
        reveal_strlit("4");
        reveal_strlit("5");
        reveal_strlit("6");
        reveal_strlit("7");
        reveal_strlit("8");
        reveal_strlit("9");
    }
    let r: &'static str = if d == 0 { "0" }
    else if d == 1 { "1" }
    else if d == 2 { "2" }
    else if d == 3 { "3" }
    else if d == 4 { "4" }
    else if d == 5 { "5" }
    else if d == 6 { "6" }
    else if d == 7 { "7" }
    else if d == 8 { "8" }
    else { "9" };
    proof {
        assert(r@ =~= seq![digit_char(d as int)]);
    }
    r
}

/// Append the decimal text of `n` to `s`.
pub fn append_decimal(s: &mut String, n: i128)
    requires
        0 <= n,
    ensures
        final(s)@ == old(s)@ + dec_spec(n as int),
    decreases n,
{
    proof {
        vstd::arithmetic::div_mod::lemma_div_pos_is_pos(n as int, 10);
        vstd::arithmetic::div_mod::lemma_mod_division_less_than_divisor(n as int, 10);
        if n >= 10 {
            vstd::arithmetic::div_mod::lemma_div_is_strictly_smaller(n as int, 10);
            vstd::arithmetic::div_mod::lemma_div_nonincreasing(n as int, 10);
        }
    }
    if n < 10 {
        s.append(digit_str(n));
        proof {
            assert(s@ =~= old(s)@ + dec_spec(n as int));
        }
    } else {
        append_decimal(s, n / 10);
        s.append(digit_str(n % 10));
        proof {
            assert(s@ =~= old(s)@ + dec_spec(n as int));
        }
    }
}

/// The output line of one pixel: the three quantized channels, separated by
/// single spaces.
pub open spec fn format_color_spec(c: Vec3) -> Seq<char> {
    dec_spec(quantize_spec(c.x as int)) + seq![' '] + dec_spec(quantize_spec(c.y as int))
        + seq![' '] + dec_spec(quantize_spec(c.z as int))
}

pub fn format_color(c: Color) -> (r: String)
    requires
        0 <= c.x <= CHANNEL_MAX,
        0 <= c.y <= CHANNEL_MAX,
        0 <= c.z <= CHANNEL_MAX,
    ensures
        r@ == format_color_spec(c),
{
    proof {
        reveal_strlit(" ");
    }
    let mut s = String::new();
    append_decimal(&mut s, quantize(c.x));
    s.append(" ");
    append_decimal(&mut s, quantize(c.y));
    s.append(" ");
    append_decimal(&mut s, quantize(c.z));
    proof {
        assert(s@ =~= format_color_spec(c));
    }
    s
}

} // verus!
