//! Permutations of box indices: the box contents of one trial.

use vstd::prelude::*;
use rand::rngs::StdRng;
use crate::random::shuffle;

verus! {

broadcast use vstd::seq_lib::group_to_multiset_ensures;

/// `s` holds each value of `[0, n)` exactly once, and nothing else.
pub open spec fn is_permutation(s: Seq<usize>, n: nat) -> bool {
    &&& s.len() == n
    &&& forall|v: usize| #[trigger] s.to_multiset().count(v) == (if v < n { 1nat } else { 0nat })
}

/// Every value of `s` is below `n`: each can be used as a box index.
pub open spec fn values_below(s: Seq<usize>, n: nat) -> bool {
    forall|i: int| 0 <= i < s.len() ==> (#[trigger] s[i]) < n
}

/// The boxes before shuffling: box `i` holds `i`.
pub open spec fn identity(n: nat) -> Seq<usize> {
    Seq::new(n, |i: int| i as usize)
}

pub proof fn lemma_identity_is_permutation(n: nat)
    requires
        n <= usize::MAX + 1,
    ensures
        is_permutation(identity(n), n),
{
    let s = identity(n);
    assert(s.no_duplicates());
    s.lemma_multiset_has_no_duplicates();
    assert forall|v: usize| #[trigger] s.to_multiset().count(v) == (if v < n { 1nat } else { 0nat }) by {
        if v < n {
            assert(s[v as int] == v);
            assert(s.contains(v));
        } else {
            assert(!s.contains(v));
        }
    }
}

/// A permutation has its values below `n` and no value twice.
pub proof fn lemma_permutation_facts(s: Seq<usize>, n: nat)
    requires
        is_permutation(s, n),
    ensures
        s.no_duplicates(),
        forall|i: int| 0 <= i < s.len() ==> (#[trigger] s[i]) < n,
{
    assert forall|i: int| 0 <= i < s.len() implies (#[trigger] s[i]) < n by {
        assert(s.contains(s[i]));
        assert(s.to_multiset().count(s[i]) > 0);
    }
    assert forall|x: usize| s.to_multiset().contains(x) implies s.to_multiset().count(x) == 1 by {
        assert(s.to_multiset().count(x) > 0);
    }
    s.lemma_multiset_has_no_duplicates_conv();
}

/// The boxes of `n` prisoners before shuffling.
pub fn identity_boxes(n: usize) -> (r: Vec<usize>)
    ensures
        r@ == identity(n as nat),
{
    let mut r: Vec<usize> = Vec::with_capacity(n);
    let mut i: usize = 0;
    while i < n
        invariant
            i <= n,
            r@ == identity(i as nat),
        decreases n - i,
    {
        r.push(i);
        i += 1;
        assert(r@ =~= identity(i as nat));
    }
    r
}

/// Draws the box contents of one trial: a shuffle of `0..n`.
pub fn random_permutation(n: usize, rng: &mut StdRng) -> (r: Vec<usize>)
    ensures
        is_permutation(r@, n as nat),
{
    let mut boxes = identity_boxes(n);
    proof {
        lemma_identity_is_permutation(n as nat);
    }
    shuffle(&mut boxes, rng);
    boxes
}

} // verus!
