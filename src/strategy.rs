//! How one prisoner searches the boxes: the cycle-following ("loop")
//! strategy and the uniformly random ("naive") one.

use vstd::prelude::*;
use vstd::relations::injective_on;
use vstd::set_lib::{lemma_int_range, lemma_len_subset, lemma_map_size, set_int_range};
use rand::rngs::StdRng;
use crate::permutation::{is_permutation, lemma_permutation_facts, values_below};
use crate::random::index_below;

verus! {

/// The box index reached from `p` after `k` loop-strategy probes: `s`
/// applied `k` times to `p`. Probe `k` reveals `follow(s, p, k)`.
pub open spec fn follow(s: Seq<usize>, p: int, k: nat) -> int
    decreases k,
{
    if k == 0 {
        p
    } else {
        s[follow(s, p, (k - 1) as nat)] as int
    }
}

/// The number of boxes one prisoner may open.
pub open spec fn probe_budget(n: nat) -> nat {
    n / 2
}

/// Under the loop strategy prisoner `p` finds their number within the budget.
pub open spec fn loop_finds(s: Seq<usize>, p: int) -> bool {
    exists|k: nat| 1 <= k <= probe_budget(s.len()) && #[trigger] follow(s, p, k) == p
}

/// Under the naive strategy prisoner `p` opens box `probes[i]` at probe `i`,
/// and finds their number within the budget.
pub open spec fn naive_finds(s: Seq<usize>, p: int, probes: Seq<usize>) -> bool {
    exists|i: int|
        0 <= i < probes.len() && i < probe_budget(s.len()) && s[#[trigger] probes[i] as int] == p
}

/// `k` is the length of the cycle through `p`: the first positive number of
/// steps after which following the boxes leads back to `p`.
pub open spec fn is_cycle_length(s: Seq<usize>, p: int, k: nat) -> bool {
    &&& 1 <= k
    &&& follow(s, p, k) == p
    &&& forall|j: nat| 1 <= j < k ==> #[trigger] follow(s, p, j) != p
}

pub open spec fn cycle_length(s: Seq<usize>, p: int) -> nat {
    choose|k: nat| is_cycle_length(s, p, k)
}

proof fn lemma_follow_in_range(s: Seq<usize>, p: int, k: nat)
    requires
        0 <= p < s.len(),
        forall|i: int| 0 <= i < s.len() ==> (#[trigger] s[i]) < s.len(),
    ensures
        0 <= follow(s, p, k) < s.len(),
    decreases k,
{
    if k > 0 {
        lemma_follow_in_range(s, p, (k - 1) as nat);
    }
}

/// Two walks through the boxes that meet came from the same place, because
/// no value stands in two boxes.
proof fn lemma_follow_cancel(s: Seq<usize>, p: int, i: nat, d: nat)
    requires
        is_permutation(s, s.len()),
        0 <= p < s.len(),
        follow(s, p, i + d) == follow(s, p, i),
    ensures
        follow(s, p, d) == p,
    decreases i,
{
    if i > 0 {
        lemma_permutation_facts(s, s.len());
        let a = follow(s, p, (i - 1 + d) as nat);
        let b = follow(s, p, (i - 1) as nat);
        lemma_follow_in_range(s, p, (i - 1 + d) as nat);
        lemma_follow_in_range(s, p, (i - 1) as nat);
        assert((i - 1 + d) as nat + 1 == i + d);
        assert(s[a] == s[b]);
        lemma_follow_cancel(s, p, (i - 1) as nat, d);
    }
}

/// Following the boxes from `p` returns to `p` within `n` steps.
proof fn lemma_follow_returns(s: Seq<usize>, p: int)
    requires
        is_permutation(s, s.len()),
        0 <= p < s.len(),
    ensures
        exists|k: nat| 1 <= k <= s.len() && #[trigger] follow(s, p, k) == p,
{
    let n = s.len();
    if !(exists|k: nat| 1 <= k <= n && #[trigger] follow(s, p, k) == p) {
        let f = |k: int| follow(s, p, k as nat);
        let steps = set_int_range(0, n + 1int);
        let reached = steps.map(f);
        assert forall|x1: int, x2: int|
            steps.contains(x1) && steps.contains(x2) && #[trigger] f(x1) == #[trigger] f(x2)
            implies x1 == x2 by {
            if x1 < x2 {
                lemma_follow_cancel(s, p, x1 as nat, (x2 - x1) as nat);
                assert(follow(s, p, (x2 - x1) as nat) == p);
            } else if x2 < x1 {
                lemma_follow_cancel(s, p, x2 as nat, (x1 - x2) as nat);
                assert(follow(s, p, (x1 - x2) as nat) == p);
            }
        }
        assert(injective_on(f, steps));
        lemma_int_range(0, n + 1int);
        lemma_int_range(0, n as int);
        lemma_map_size(steps, reached, f);
        lemma_permutation_facts(s, n);
        assert forall|y: int| reached.contains(y) implies set_int_range(0, n as int).contains(y) by {
            let k = choose|k: int| steps.contains(k) && f(k) == y;
            lemma_follow_in_range(s, p, k as nat);
        }
        lemma_len_subset(reached, set_int_range(0, n as int));
    }
}

proof fn lemma_least_return(s: Seq<usize>, p: int, k: nat)
    requires
        1 <= k,
        follow(s, p, k) == p,
    ensures
        exists|m: nat| m <= k && is_cycle_length(s, p, m),
    decreases k,
{
    if exists|j: nat| 1 <= j < k && #[trigger] follow(s, p, j) == p {
        let j = choose|j: nat| 1 <= j < k && #[trigger] follow(s, p, j) == p;
        lemma_least_return(s, p, j);
    } else {
        assert(is_cycle_length(s, p, k));
    }
}

/// Every box index of a permutation lies on a cycle, of length at most `n`,
/// and the walk along it reveals no value twice before it closes.
pub proof fn lemma_cycle_length(s: Seq<usize>, p: int)
    requires
        is_permutation(s, s.len()),
        0 <= p < s.len(),
    ensures
        is_cycle_length(s, p, cycle_length(s, p)),
        cycle_length(s, p) <= s.len(),
        forall|i: nat, j: nat|
            i < j < cycle_length(s, p) ==> #[trigger] follow(s, p, i) != #[trigger] follow(s, p, j),
{
    lemma_follow_returns(s, p);
    let k = choose|k: nat| 1 <= k <= s.len() && #[trigger] follow(s, p, k) == p;
    lemma_least_return(s, p, k);
    let m = choose|m: nat| m <= k && is_cycle_length(s, p, m);
    let c = cycle_length(s, p);
    if c != m {
        if c < m {
            assert(follow(s, p, c) != p);
        } else {
            assert(follow(s, p, m) != p);
        }
    }
    assert forall|i: nat, j: nat| i < j < c implies #[trigger] follow(s, p, i) != #[trigger] follow(
        s,
        p,
        j,
    ) by {
        if follow(s, p, i) == follow(s, p, j) {
            assert(i + (j - i) as nat == j);
            lemma_follow_cancel(s, p, i, (j - i) as nat);
            assert(follow(s, p, (j - i) as nat) == p);
        }
    }
}

/// Under the loop strategy a prisoner finds their number exactly when the
/// cycle of the permutation through their own index has at most `n / 2`
/// boxes.
pub proof fn lemma_loop_finds_iff_short_cycle(s: Seq<usize>, p: int)
    requires
        is_permutation(s, s.len()),
        0 <= p < s.len(),
    ensures
        loop_finds(s, p) <==> cycle_length(s, p) <= probe_budget(s.len()),
{
    lemma_cycle_length(s, p);
    let c = cycle_length(s, p);
    if loop_finds(s, p) {
        let k = choose|k: nat| 1 <= k <= probe_budget(s.len()) && #[trigger] follow(s, p, k) == p;
        if k < c {
            assert(follow(s, p, k) != p);
        }
    }
    if c <= probe_budget(s.len()) {
        assert(follow(s, p, c) == p);
    }
}

/// The box the loop strategy opens next: the prisoner's own box first, then
/// the box numbered by the value just revealed.
pub fn loop_strategy(boxes: &Vec<usize>, prisoner: usize, previous: Option<usize>) -> (r: usize)
    requires
        previous is None ==> prisoner < boxes@.len(),
        previous matches Some(v) ==> v < boxes@.len(),
    ensures
        r == match previous {
            Some(v) => boxes@[v as int],
            None => boxes@[prisoner as int],
        },
        values_below(boxes@, boxes@.len()) ==> r < boxes@.len(),
{
    match previous {
        Some(v) => boxes[v],
        None => boxes[prisoner],
    }
}

/// Runs one prisoner's search under the loop strategy: open boxes as
/// `loop_strategy` directs until the own number shows up or the budget of
/// `n / 2` boxes is spent.
pub fn loop_search(boxes: &Vec<usize>, prisoner: usize) -> (r: bool)
    requires
        values_below(boxes@, boxes@.len()),
        prisoner < boxes@.len(),
    ensures
        r == loop_finds(boxes@, prisoner as int),
{
    let ghost s = boxes@;
    let ghost p = prisoner as int;
    let budget: usize = boxes.len() / 2;
    let mut opened: usize = 0;
    let mut previous: Option<usize> = None;
    while opened < budget
        invariant
            boxes@ == s,
            p == prisoner,
            prisoner < s.len(),
            forall|i: int| 0 <= i < s.len() ==> (#[trigger] s[i]) < s.len(),
            budget == probe_budget(s.len()),
            opened <= budget,
            opened == 0 ==> previous is None,
            opened > 0 ==> previous == Some(follow(s, p, opened as nat) as usize),
            forall|k: nat| 1 <= k <= opened ==> #[trigger] follow(s, p, k) != p,
        decreases budget - opened,
    {
        proof {
            lemma_follow_in_range(s, p, opened as nat);
            lemma_follow_in_range(s, p, (opened + 1) as nat);
        }
        let v = loop_strategy(boxes, prisoner, previous);
        assert(v == follow(s, p, (opened + 1) as nat));
        opened += 1;
        if v == prisoner {
            return true;
        }
        previous = Some(v);
    }
    false
}

/// Runs one prisoner's search under the naive strategy, where `probes` are
/// the boxes drawn at random, in order: only the first `n / 2` are opened.
pub fn naive_search(boxes: &Vec<usize>, prisoner: usize, probes: &Vec<usize>) -> (r: bool)
    requires
        forall|i: int| 0 <= i < probes@.len() ==> (#[trigger] probes@[i]) < boxes@.len(),
    ensures
        r == naive_finds(boxes@, prisoner as int, probes@),
{
    let budget: usize = boxes.len() / 2;
    let mut i: usize = 0;
    while i < probes.len() && i < budget
        invariant
            budget == probe_budget(boxes@.len()),
            i <= probes@.len(),
            forall|j: int| 0 <= j < probes@.len() ==> (#[trigger] probes@[j]) < boxes@.len(),
            forall|j: int| 0 <= j < i ==> boxes@[#[trigger] probes@[j] as int] != prisoner,
        decreases probes@.len() - i,
    {
        if boxes[probes[i]] == prisoner {
            return true;
        }
        i += 1;
    }
    false
}

/// Draws `count` boxes among `n`, each uniformly and independently.
pub fn draw_probes(n: usize, count: usize, rng: &mut StdRng) -> (r: Vec<usize>)
    requires
        n > 0,
    ensures
        r@.len() == count,
        forall|i: int| 0 <= i < r@.len() ==> (#[trigger] r@[i]) < n,
{
    let mut r: Vec<usize> = Vec::with_capacity(count);
    while r.len() < count
        invariant
            n > 0,
            r@.len() <= count,
            forall|i: int| 0 <= i < r@.len() ==> (#[trigger] r@[i]) < n,
        decreases count - r@.len(),
    {
        let b = index_below(n, rng);
        r.push(b);
    }
    r
}

/// The views of a list of vectors.
pub open spec fn views(v: Seq<Vec<usize>>) -> Seq<Seq<usize>> {
    v.map_values(|x: Vec<usize>| x@)
}

/// `draws[p]` is what prisoner `p` draws under the naive strategy: one box
/// among `n` for each probe of the budget.
pub open spec fn valid_draws(draws: Seq<Seq<usize>>, n: nat) -> bool {
    &&& draws.len() == n
    &&& forall|p: int| 0 <= p < n ==> (#[trigger] draws[p]).len() == probe_budget(n)
    &&& forall|p: int| 0 <= p < n ==> values_below(#[trigger] draws[p], n)
}

/// Draws the boxes of every prisoner of one naive-strategy trial.
pub fn draw_trial_probes(n: usize, rng: &mut StdRng) -> (r: Vec<Vec<usize>>)
    ensures
        valid_draws(views(r@), n as nat),
{
    let mut r: Vec<Vec<usize>> = Vec::with_capacity(n);
    while r.len() < n
        invariant
            r@.len() <= n,
            forall|p: int| 0 <= p < r@.len() ==> (#[trigger] r@[p])@.len() == probe_budget(n as nat),
            forall|p: int| 0 <= p < r@.len() ==> values_below((#[trigger] r@[p])@, n as nat),
        decreases n - r@.len(),
    {
        let probes = draw_probes(n, n / 2, rng);
        r.push(probes);
    }
    r
}

} // verus!
