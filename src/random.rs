//! The source of randomness, passed explicitly so that a fixed seed gives a
//! reproducible run.

use vstd::prelude::*;
use rand::rngs::StdRng;
use rand::seq::SliceRandom;
use rand::Rng;

verus! {

#[verifier::external_type_specification]
#[verifier::external_body]
pub struct ExStdRng(StdRng);

/// Relies on `rand::seq::SliceRandom::shuffle`, which only swaps elements of
/// the slice: the result holds the same values, each as often as before.
#[verifier::external_body]
pub(crate) fn shuffle(v: &mut Vec<usize>, rng: &mut StdRng)
    ensures
        final(v)@.len() == old(v)@.len(),
        final(v)@.to_multiset() == old(v)@.to_multiset(),
{
    v.as_mut_slice().shuffle(rng)
}

/// Relies on `rand::Rng::gen_range` over `0..n`, which panics on an empty
/// range and otherwise returns a value inside it.
#[verifier::external_body]
pub(crate) fn index_below(n: usize, rng: &mut StdRng) -> (r: usize)
    requires
        n > 0,
    ensures
        r < n,
{
    rng.gen_range(0..n)
}

} // verus!
