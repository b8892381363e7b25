//! Pseudo-random sampling.
//!
//! The generator itself is `rand_xoshiro`'s `Xoshiro256Plus`; this module
//! declares it and wraps the two calls the renderer makes (seeding, drawing a
//! word). Nothing is assumed about the values drawn: every function that
//! consumes randomness states what holds of every outcome.
//!
//! The xoshiro256+ algorithm's lowest bits have low linear complexity, so the
//! reductions below keep only upper bits of each drawn word.

use vstd::prelude::*;
use rand_xoshiro::Xoshiro256Plus;
use rand_xoshiro::rand_core::{Rng, SeedableRng};
use crate::fixed::FX_ONE;

verus! {

/// Relies on `rand_xoshiro::Xoshiro256Plus` as an opaque generator state.
#[verifier::external_type_specification]
#[verifier::external_body]
pub struct ExXoshiro256Plus(Xoshiro256Plus);

/// Relies on `Xoshiro256Plus::seed_from_u64`: builds a generator from a seed
/// (deterministically, via SplitMix64); nothing about its state is assumed.
#[verifier::external_body]
pub fn rng_from_seed(seed: u64) -> Xoshiro256Plus {
    Xoshiro256Plus::seed_from_u64(seed)
}

/// Relies on `Rng::next_u64` for `Xoshiro256Plus`: draws one word and
/// advances the generator; nothing is assumed about the value drawn.
#[verifier::external_body]
pub fn rng_next(rng: &mut Xoshiro256Plus) -> u64 {
    rng.next_u64()
}

/// One uniform-ish fixed-point draw in `[0, 1)`: the top 16 bits of a word.
pub fn rand_fx(rng: &mut Xoshiro256Plus) -> (r: i128)
    ensures
        0 <= r < FX_ONE,
{
    let w = rng_next(rng);
    let top = w / 0x1000000000000;
    proof {
        vstd::arithmetic::div_mod::lemma_multiply_divide_lt(
            w as int, 0x1000000000000, 0x10000);
    }
    top as i128
}

/// One fixed-point draw in `[lo, hi)`: the top 32 bits of a word, reduced
/// onto the span by a fixed-point product.
pub fn rand_range_fx(rng: &mut Xoshiro256Plus, lo: i128, hi: i128) -> (r: i128)
    requires
        lo < hi,
        hi - lo <= 0x100000000,
    ensures
        lo <= r < hi,
{
    let w = rng_next(rng);
    let top = w / 0x100000000;
    let span = (hi - lo) as u64;
    proof {
        vstd::arithmetic::div_mod::lemma_multiply_divide_lt(
            w as int, 0x100000000, 0x100000000);
        assert((top as int) * (span as int) < 0x100000000 * (span as int))
            by (nonlinear_arith)
            requires 0 <= (top as int) && (top as int) < 0x100000000 && (span as int) >= 1;
        assert(0x100000000 * (span as int) == (span as int) * 0x100000000)
            by (nonlinear_arith);
        assert((top as int) * (span as int) <= 0xffffffffint * 0x100000000)
            by (nonlinear_arith)
            requires 0 <= top as int <= 0xffffffff && 0 <= span as int <= 0x100000000;
        vstd::arithmetic::div_mod::lemma_multiply_divide_lt(
            (top as int) * (span as int), 0x100000000, span as int);
    }
    let off = (top * span) / 0x100000000;
    lo + off as i128
}

} // verus!
