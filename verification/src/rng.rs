//! Trusted access to the process-wide random source.
//!
//! Every random choice the crate makes flows through the two wrappers here.
//! Nothing is assumed about which value comes back beyond its range (for
//! `random_below`) or that the slice was permuted in place (for
//! `shuffle_numbers`); the verified callers state what holds of every
//! possible outcome.

use vstd::prelude::*;
use rand::Rng;
use rand::seq::SliceRandom;

verus! {

/// Relies on `rand::Rng::gen_range` (via `rand::thread_rng`): for a
/// non-empty range `0..bound` it returns a value of that range.
#[verifier::external_body]
pub(crate) fn random_below(bound: u64) -> (r: u64)
    requires
        bound > 0,
    ensures
        r < bound,
{
    rand::thread_rng().gen_range(0..bound)
}

/// Relies on `rand::seq::SliceRandom::shuffle` (via `rand::thread_rng`):
/// it permutes the slice in place, so the multiset of elements and the
/// length are unchanged.
#[verifier::external_body]
pub(crate) fn shuffle_numbers(v: &mut Vec<u32>)
    ensures
        final(v)@.to_multiset() == old(v)@.to_multiset(),
        final(v)@.len() == old(v)@.len(),
{
    v.shuffle(&mut rand::thread_rng())
}

} // verus!
