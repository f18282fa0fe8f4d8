//! Thin trusted wrappers over the `rand` crate.
//!
//! Randomness is inherently outside what can be proved, so each wrapper
//! states only what holds of every outcome: a ranged draw lies within its
//! range. Everything the engine then does with a draw is verified for every
//! value the contract admits.

use rand::RngExt;
use vstd::prelude::*;

verus! {

/// The thread-local generator of the `rand` crate, declared so that
/// verified code can hold one and pass it along.
#[verifier::external_type_specification]
#[verifier::external_body]
pub struct ExThreadRng(rand::rngs::ThreadRng);

/// Relies on `rand::rng`: it hands out the thread-local generator.
/// Nothing is promised of it; all draws made through it are constrained
/// by the contracts of the drawing wrappers below.
#[verifier::external_body]
pub(crate) fn fresh_rng() -> rand::rngs::ThreadRng {
    rand::rng()
}

/// Relies on `rand::RngExt::random_range` over an inclusive integer range:
/// the result lies in `[lo, hi]`, and the call panics only on an empty
/// range, which the precondition rules out.
#[verifier::external_body]
pub(crate) fn draw_inclusive(rng: &mut rand::rngs::ThreadRng, lo: i64, hi: i64) -> (r: i64)
    requires
        lo <= hi,
    ensures
        lo <= r <= hi,
{
    rng.random_range(lo..=hi)
}

} // verus!
