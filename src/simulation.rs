//! Trials and the simulation that repeats them.

use vstd::prelude::*;
use rand::rngs::StdRng;
use crate::permutation::{is_permutation, lemma_permutation_facts, random_permutation, values_below};
use crate::strategy::{
    draw_trial_probes, loop_finds, loop_search, naive_finds, naive_search, valid_draws, views,
};

verus! {

/// How each prisoner picks the boxes to open.
#[derive(Clone, Copy, Debug, PartialEq, Eq, Structural)]
pub enum Strategy {
    /// Follow the cycle from the own box.
    Loop,
    /// Open uniformly random boxes, possibly the same one twice.
    Naive,
}

/// A configuration that the simulation refuses before it starts.
#[derive(Clone, Copy, Debug, PartialEq, Eq, Structural)]
pub enum ConfigError {
    /// No prisoners were asked for.
    NoPrisoners,
    /// No trials were asked for.
    NoIterations,
}

/// Prisoner `p` of the boxes `s` finds their number with `strategy`; under
/// the naive strategy they open the boxes `draws[p]`.
pub open spec fn finds(strategy: Strategy, s: Seq<usize>, p: int, draws: Seq<Seq<usize>>) -> bool {
    match strategy {
        Strategy::Loop => loop_finds(s, p),
        Strategy::Naive => naive_finds(s, p, draws[p]),
    }
}

/// A trial on the boxes `s` succeeds: every prisoner finds their number.
/// Under the loop strategy `draws` plays no part.
pub open spec fn trial_passes(strategy: Strategy, s: Seq<usize>, draws: Seq<Seq<usize>>) -> bool {
    forall|p: int| 0 <= p < s.len() ==> #[trigger] finds(strategy, s, p, draws)
}

/// How many of the trials succeed, trial `i` being run on the boxes
/// `trials[i]` with the draws `draws[i]`.
pub open spec fn passing_trials(
    strategy: Strategy,
    trials: Seq<Seq<usize>>,
    draws: Seq<Seq<Seq<usize>>>,
) -> nat
    decreases trials.len(),
{
    if trials.len() == 0 {
        0
    } else {
        let last = (trials.len() - 1) as int;
        passing_trials(strategy, trials.drop_last(), draws.drop_last()) + if trial_passes(
            strategy,
            trials[last],
            draws[last],
        ) {
            1nat
        } else {
            0nat
        }
    }
}

/// The views of a list of per-trial draws.
pub open spec fn trial_draws_views(d: Seq<Vec<Vec<usize>>>) -> Seq<Seq<Seq<usize>>> {
    d.map_values(|x: Vec<Vec<usize>>| views(x@))
}

/// Runs one trial on `boxes`: each prisoner searches with `strategy`, and the
/// trial succeeds iff all of them find their number. Under the naive
/// strategy prisoner `p` opens the boxes `draws[p]`; under the loop strategy
/// `draws` is not read.
pub fn apply_strategy(
    boxes: &Vec<usize>,
    prisoners: usize,
    strategy: Strategy,
    draws: &Vec<Vec<usize>>,
) -> (r: bool)
    requires
        boxes@.len() == prisoners,
        values_below(boxes@, prisoners as nat),
        strategy == Strategy::Naive ==> valid_draws(views(draws@), prisoners as nat),
    ensures
        r == trial_passes(strategy, boxes@, views(draws@)),
{
    let ghost s = boxes@;
    let ghost d = views(draws@);
    let mut all: bool = true;
    let mut p: usize = 0;
    while p < prisoners
        invariant
            boxes@ == s,
            s.len() == prisoners,
            values_below(s, prisoners as nat),
            d == views(draws@),
            strategy == Strategy::Naive ==> valid_draws(d, prisoners as nat),
            p <= prisoners,
            all == (forall|q: int| 0 <= q < p ==> #[trigger] finds(strategy, s, q, d)),
        decreases prisoners - p,
    {
        let found = match strategy {
            Strategy::Loop => loop_search(boxes, p),
            Strategy::Naive => {
                assert(d[p as int] == draws@[p as int]@);
                naive_search(boxes, p, &draws[p])
            },
        };
        assert(found == finds(strategy, s, p as int, d));
        all = all && found;
        p += 1;
    }
    all
}

/// Counts the trials that succeed, trial `i` being run on the boxes
/// `trials[i]` and, under the naive strategy, with the draws `draws[i]`.
pub fn count_passing(
    trials: &Vec<Vec<usize>>,
    prisoners: usize,
    strategy: Strategy,
    draws: &Vec<Vec<Vec<usize>>>,
) -> (r: u32)
    requires
        trials@.len() <= u32::MAX,
        draws@.len() == trials@.len(),
        forall|i: int| 0 <= i < trials@.len() ==> (#[trigger] trials@[i])@.len() == prisoners,
        forall|i: int| 0 <= i < trials@.len() ==> values_below((#[trigger] trials@[i])@, prisoners as nat),
        strategy == Strategy::Naive ==> forall|i: int|
            0 <= i < trials@.len() ==> valid_draws(#[trigger] trial_draws_views(draws@)[i], prisoners as nat),
    ensures
        r == passing_trials(strategy, views(trials@), trial_draws_views(draws@)),
        r <= trials@.len(),
{
    let ghost ts = views(trials@);
    let ghost ds = trial_draws_views(draws@);
    let mut passed: u32 = 0;
    let mut i: usize = 0;
    while i < trials.len()
        invariant
            ts == views(trials@),
            ds == trial_draws_views(draws@),
            trials@.len() <= u32::MAX,
            draws@.len() == trials@.len(),
            forall|i: int| 0 <= i < trials@.len() ==> (#[trigger] trials@[i])@.len() == prisoners,
            forall|i: int| 0 <= i < trials@.len() ==> values_below((#[trigger] trials@[i])@, prisoners as nat),
            strategy == Strategy::Naive ==> forall|i: int|
                0 <= i < trials@.len() ==> valid_draws(#[trigger] ds[i], prisoners as nat),
            i <= trials@.len(),
            passed <= i,
            passed == passing_trials(strategy, ts.take(i as int), ds.take(i as int)),
        decreases trials@.len() - i,
    {
        assert(ds[i as int] == views(draws@[i as int]@));
        let ok = apply_strategy(&trials[i], prisoners, strategy, &draws[i]);
        proof {
            assert(ts.take(i + 1).drop_last() =~= ts.take(i as int));
            assert(ds.take(i + 1).drop_last() =~= ds.take(i as int));
            assert(ts.take(i + 1)[i as int] == trials@[i as int]@);
            assert(ds.take(i + 1)[i as int] == ds[i as int]);
        }
        if ok {
            passed += 1;
        }
        i += 1;
    }
    assert(ts.take(trials@.len() as int) =~= ts);
    assert(ds.take(trials@.len() as int) =~= ds);
    passed
}

/// Runs `iterations` trials, each on a fresh random permutation of
/// `prisoners` boxes, and returns how many succeeded. Without prisoners or
/// without trials there is no rate to report, and the configuration is
/// refused.
pub fn simulate_prisoner_dilemma(
    prisoners: usize,
    iterations: u32,
    strategy: Strategy,
    rng: &mut StdRng,
) -> (r: Result<u32, ConfigError>)
    ensures
        r == Err::<u32, ConfigError>(ConfigError::NoPrisoners) <==> prisoners == 0,
        r == Err::<u32, ConfigError>(ConfigError::NoIterations) <==> prisoners > 0 && iterations == 0,
        r matches Ok(c) ==> c <= iterations,
        r matches Ok(c) ==> exists|trials: Seq<Seq<usize>>, draws: Seq<Seq<Seq<usize>>>|
            {
                &&& trials.len() == iterations
                &&& draws.len() == iterations
                &&& forall|i: int| 0 <= i < iterations ==> is_permutation(#[trigger] trials[i], prisoners as nat)
                &&& forall|i: int| 0 <= i < iterations && strategy == Strategy::Naive
                    ==> valid_draws(#[trigger] draws[i], prisoners as nat)
                &&& c == passing_trials(strategy, trials, draws)
            },
{
    if prisoners == 0 {
        return Err(ConfigError::NoPrisoners);
    }
    if iterations == 0 {
        return Err(ConfigError::NoIterations);
    }
    let mut trials: Vec<Vec<usize>> = Vec::new();
    let mut draws: Vec<Vec<Vec<usize>>> = Vec::new();
    let mut done: u32 = 0;
    while done < iterations
        invariant
            done <= iterations,
            trials@.len() == done,
            draws@.len() == done,
            forall|i: int| 0 <= i < done ==> is_permutation((#[trigger] trials@[i])@, prisoners as nat),
            strategy == Strategy::Naive ==> forall|i: int|
                0 <= i < done ==> valid_draws(#[trigger] trial_draws_views(draws@)[i], prisoners as nat),
        decreases iterations - done,
    {
        let boxes = random_permutation(prisoners, rng);
        let probes = match strategy {
            Strategy::Loop => Vec::new(),
            Strategy::Naive => draw_trial_probes(prisoners, rng),
        };
        let ghost before = trial_draws_views(draws@);
        trials.push(boxes);
        draws.push(probes);
        proof {
            let after = trial_draws_views(draws@);
            assert forall|i: int| 0 <= i < done implies #[trigger] after[i] == before[i] by {}
            assert(after[done as int] == views(probes@));
        }
        done += 1;
    }
    proof {
        assert forall|i: int| 0 <= i < trials@.len() implies (#[trigger] trials@[i])@.len() == prisoners
            && values_below(trials@[i]@, prisoners as nat) by {
            lemma_permutation_facts(trials@[i]@, prisoners as nat);
        }
    }
    let passed = count_passing(&trials, prisoners, strategy, &draws);
    proof {
        let ts = views(trials@);
        assert forall|i: int| 0 <= i < iterations implies is_permutation(#[trigger] ts[i], prisoners as nat) by {
            assert(ts[i] == trials@[i]@);
        }
    }
    Ok(passed)
}

} // verus!
