use prisoners::permutation::{identity_boxes, random_permutation};
use prisoners::simulation::{
    apply_strategy, count_passing, simulate_prisoner_dilemma, ConfigError, Strategy,
};
use prisoners::strategy::{
    draw_probes, draw_trial_probes, loop_search, loop_strategy, naive_search,
};
use rand::rngs::StdRng;
use rand::SeedableRng;

fn rate(prisoners: usize, iterations: u32, strategy: Strategy, seed: u64) -> f64 {
    let mut rng = StdRng::seed_from_u64(seed);
    let passed = simulate_prisoner_dilemma(prisoners, iterations, strategy, &mut rng).unwrap();
    passed as f64 / iterations as f64
}

fn permutations(n: usize) -> Vec<Vec<usize>> {
    if n == 0 {
        return vec![vec![]];
    }
    let mut out = Vec::new();
    for smaller in permutations(n - 1) {
        for pos in 0..n {
            let mut p = smaller.clone();
            p.insert(pos, n - 1);
            out.push(p);
        }
    }
    out
}

fn max_cycle(boxes: &[usize]) -> usize {
    let mut longest = 0;
    for start in 0..boxes.len() {
        let mut len = 1;
        let mut at = boxes[start];
        while at != start {
            at = boxes[at];
            len += 1;
        }
        longest = longest.max(len);
    }
    longest
}

#[test]
fn identity_boxes_counts_up() {
    assert_eq!(identity_boxes(0), Vec::<usize>::new());
    assert_eq!(identity_boxes(4), vec![0, 1, 2, 3]);
}

#[test]
fn random_permutation_holds_each_value_once() {
    let mut rng = StdRng::seed_from_u64(7);
    for n in [1usize, 2, 3, 10, 100, 257] {
        let mut p = random_permutation(n, &mut rng);
        assert_eq!(p.len(), n);
        p.sort();
        assert_eq!(p, (0..n).collect::<Vec<_>>());
    }
}

#[test]
fn random_permutation_is_shuffled() {
    let mut rng = StdRng::seed_from_u64(11);
    let p = random_permutation(100, &mut rng);
    assert_ne!(p, (0..100).collect::<Vec<_>>());
}

#[test]
fn loop_strategy_opens_own_box_then_follows() {
    let boxes = vec![2, 0, 3, 1];
    assert_eq!(loop_strategy(&boxes, 0, None), 2);
    assert_eq!(loop_strategy(&boxes, 1, None), 0);
    assert_eq!(loop_strategy(&boxes, 0, Some(2)), 3);
    assert_eq!(loop_strategy(&boxes, 0, Some(3)), 1);
}

#[test]
fn loop_search_succeeds_iff_cycle_fits_budget() {
    // one cycle 0 -> 2 -> 3 -> 1 -> 0 of length 4; budget 2
    let boxes = vec![2, 0, 3, 1];
    for p in 0..4 {
        assert!(!loop_search(&boxes, p));
    }
    // two cycles of length 2; budget 2
    let boxes = vec![1, 0, 3, 2];
    for p in 0..4 {
        assert!(loop_search(&boxes, p));
    }
    // cycles (0 1 2) and (3) in six boxes; budget 3
    let boxes = vec![1, 2, 0, 3, 5, 4];
    for p in 0..6 {
        assert!(loop_search(&boxes, p));
    }
}

#[test]
fn loop_search_single_prisoner_has_no_probe() {
    assert!(!loop_search(&vec![0], 0));
}

#[test]
fn naive_search_uses_first_half_of_probes() {
    let boxes = vec![1, 0, 3, 2];
    assert!(naive_search(&boxes, 0, &vec![1]));
    assert!(naive_search(&boxes, 0, &vec![0, 1]));
    assert!(!naive_search(&boxes, 0, &vec![0, 2, 1]));
    assert!(!naive_search(&boxes, 3, &vec![]));
    assert!(naive_search(&boxes, 3, &vec![2, 2]));
}

#[test]
fn draw_probes_stay_in_range_and_vary() {
    let mut rng = StdRng::seed_from_u64(3);
    let probes = draw_probes(10, 1000, &mut rng);
    assert_eq!(probes.len(), 1000);
    assert!(probes.iter().all(|&b| b < 10));
    for b in 0..10 {
        assert!(probes.contains(&b));
    }
    assert!(draw_probes(5, 0, &mut rng).is_empty());
}

#[test]
fn two_prisoners_by_enumeration() {
    assert!(apply_strategy(&vec![0, 1], 2, Strategy::Loop, &vec![]));
    assert!(!apply_strategy(&vec![1, 0], 2, Strategy::Loop, &vec![]));
}

#[test]
fn one_prisoner_never_succeeds() {
    let mut rng = StdRng::seed_from_u64(0);
    assert!(!apply_strategy(&vec![0], 1, Strategy::Loop, &vec![]));
    assert!(!apply_strategy(&vec![0], 1, Strategy::Naive, &vec![vec![]]));
    assert_eq!(simulate_prisoner_dilemma(1, 50, Strategy::Loop, &mut rng), Ok(0));
    assert_eq!(simulate_prisoner_dilemma(1, 50, Strategy::Naive, &mut rng), Ok(0));
}

#[test]
fn small_n_loop_matches_cycle_lengths() {
    for n in 1..=6usize {
        let mut passing = 0;
        for boxes in permutations(n) {
            let ok = apply_strategy(&boxes, n, Strategy::Loop, &vec![]);
            assert_eq!(ok, max_cycle(&boxes) <= n / 2);
            if ok {
                passing += 1;
            }
        }
        // permutations of n whose cycles are all at most n / 2 long
        let expected = [0, 0, 1, 1, 10, 26, 276][n];
        assert_eq!(passing, expected);
    }
}

#[test]
fn empty_trial_passes() {
    assert!(apply_strategy(&vec![], 0, Strategy::Loop, &vec![]));
    assert!(apply_strategy(&vec![], 0, Strategy::Naive, &vec![]));
}

#[test]
fn zero_prisoners_refused() {
    let mut rng = StdRng::seed_from_u64(0);
    assert_eq!(
        simulate_prisoner_dilemma(0, 10, Strategy::Loop, &mut rng),
        Err(ConfigError::NoPrisoners)
    );
    assert_eq!(
        simulate_prisoner_dilemma(0, 0, Strategy::Naive, &mut rng),
        Err(ConfigError::NoPrisoners)
    );
}

#[test]
fn zero_iterations_refused() {
    let mut rng = StdRng::seed_from_u64(0);
    assert_eq!(
        simulate_prisoner_dilemma(100, 0, Strategy::Loop, &mut rng),
        Err(ConfigError::NoIterations)
    );
}

#[test]
fn count_never_exceeds_iterations() {
    let mut rng = StdRng::seed_from_u64(5);
    for n in [2usize, 3, 4, 8] {
        let c = simulate_prisoner_dilemma(n, 200, Strategy::Loop, &mut rng).unwrap();
        assert!(c <= 200);
    }
}

#[test]
fn same_seed_same_result() {
    for strategy in [Strategy::Loop, Strategy::Naive] {
        let a = rate(20, 300, strategy, 42);
        let b = rate(20, 300, strategy, 42);
        assert_eq!(a, b);
    }
}

#[test]
fn loop_rate_near_classic_value() {
    // 1 - (1/51 + ... + 1/100) = 0.3118...
    let r = rate(100, 10000, Strategy::Loop, 2024);
    assert!((r - 0.3118).abs() < 0.03, "rate {}", r);
}

#[test]
fn end_to_end_rates() {
    let looped = rate(100, 2000, Strategy::Loop, 1);
    assert!(looped > 0.25 && looped < 0.40, "rate {}", looped);
    let naive = rate(100, 2000, Strategy::Naive, 1);
    assert!(naive < 0.01, "rate {}", naive);
}

#[test]
fn naive_far_below_loop() {
    let looped = rate(100, 500, Strategy::Loop, 9);
    let naive = rate(100, 500, Strategy::Naive, 9);
    assert!(naive * 10.0 < looped);
    // four prisoners: loop passes 10 of 24 permutations
    let looped = rate(4, 20000, Strategy::Loop, 10);
    let naive = rate(4, 20000, Strategy::Naive, 10);
    assert!((looped - 10.0 / 24.0).abs() < 0.03, "rate {}", looped);
    assert!(naive < looped);
}

#[test]
fn loop_trial_on_repeated_values_is_safe() {
    // not a permutation: prisoner 1 never sees their number
    assert!(!apply_strategy(&vec![0, 0], 2, Strategy::Loop, &vec![]));
    assert!(!loop_search(&vec![2, 2, 2, 2], 0));
    assert!(loop_search(&vec![2, 2, 2, 2], 2));
}

#[test]
fn naive_trial_follows_given_draws() {
    let boxes = vec![1, 0, 3, 2];
    let all_find = vec![vec![1, 1], vec![0, 3], vec![3, 0], vec![2, 1]];
    assert!(apply_strategy(&boxes, 4, Strategy::Naive, &all_find));
    let last_misses = vec![vec![1, 1], vec![0, 3], vec![3, 0], vec![0, 1]];
    assert!(!apply_strategy(&boxes, 4, Strategy::Naive, &last_misses));
}

#[test]
fn count_passing_counts_given_trials() {
    let trials = vec![vec![0, 1, 2, 3], vec![1, 2, 3, 0], vec![1, 0, 3, 2], vec![3, 2, 1, 0]];
    let no_draws = vec![vec![], vec![], vec![], vec![]];
    assert_eq!(count_passing(&trials, 4, Strategy::Loop, &no_draws), 3);
    assert_eq!(count_passing(&vec![], 4, Strategy::Loop, &vec![]), 0);
    let hits = vec![vec![0, 0], vec![1, 1], vec![2, 2], vec![3, 3]];
    let misses = vec![vec![1, 1], vec![1, 1], vec![1, 1], vec![1, 1]];
    let identity = vec![vec![0, 1, 2, 3], vec![0, 1, 2, 3]];
    assert_eq!(count_passing(&identity, 4, Strategy::Naive, &vec![hits.clone(), misses]), 1);
    assert_eq!(count_passing(&identity, 4, Strategy::Naive, &vec![hits.clone(), hits]), 2);
}

#[test]
fn draw_trial_probes_gives_each_prisoner_half() {
    let mut rng = StdRng::seed_from_u64(17);
    let draws = draw_trial_probes(7, &mut rng);
    assert_eq!(draws.len(), 7);
    for d in &draws {
        assert_eq!(d.len(), 3);
        assert!(d.iter().all(|&b| b < 7));
    }
    assert!(draw_trial_probes(0, &mut rng).is_empty());
}
