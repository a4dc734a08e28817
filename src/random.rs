//! The random source that a live simulation draws from.

use vstd::prelude::*;

use rand::rngs::StdRng;
use rand::seq::SliceRandom;
use rand::Rng;

verus! {

/// rand's seedable generator, carried through opaque.
#[verifier::external_type_specification]
#[verifier::external_body]
pub struct ExStdRng(StdRng);

/// Relies on `Rng::gen::<u32>` for `StdRng`: any `u32` may come back.
#[verifier::external_body]
pub(crate) fn next_draw(rng: &mut StdRng) -> (r: u32) {
    rng.gen::<u32>()
}

/// Relies on `SliceRandom::shuffle`: it reorders the slice in place by
/// swapping its elements, so the same items stay, each as often.
#[verifier::external_body]
pub(crate) fn shuffle_slots(v: &mut Vec<(usize, usize)>, rng: &mut StdRng)
    ensures
        final(v)@.to_multiset() == old(v)@.to_multiset(),
{
    v.shuffle(rng)
}

} // verus!
