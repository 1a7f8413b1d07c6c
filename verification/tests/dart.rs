use alloygbm_engine::dart::{dropout_score_bits, select_dropouts, DROPOUT_SCORE_SCALE};

/// Every stump gets the drop probability `rate`, scaled by 2^24 and rounded up.
fn uniform(n: usize, rate: f32) -> Vec<u64> {
    let threshold = (rate as f64 * DROPOUT_SCORE_SCALE as f64).ceil() as u64;
    vec![threshold; n]
}

#[test]
fn select_dropouts_returns_empty_when_no_existing() {
    let got = select_dropouts(0, true, &uniform(0, 0.5), 10, 42, 0);
    assert!(got.is_empty());
}

#[test]
fn select_dropouts_returns_empty_when_drop_rate_zero() {
    let got = select_dropouts(100, false, &uniform(100, 0.0), 10, 42, 0);
    assert!(got.is_empty());
}

#[test]
fn select_dropouts_capped_by_max_drop() {
    let got = select_dropouts(100, true, &uniform(100, 1.0), 3, 42, 0);
    assert_eq!(got.len(), 3);
}

#[test]
fn select_dropouts_returns_sorted_indices() {
    let got = select_dropouts(50, true, &uniform(50, 0.5), 50, 42, 0);
    let mut sorted = got.clone();
    sorted.sort_unstable();
    assert_eq!(got, sorted);
}

#[test]
fn select_dropouts_always_drops_at_least_one_when_drop_rate_positive() {
    for seed in 0u64..20 {
        let got = select_dropouts(100, true, &uniform(100, 0.0001), 50, seed, 0);
        assert!(!got.is_empty(), "seed {seed} produced zero drops");
    }
}

#[test]
fn select_dropouts_is_deterministic_given_seed_and_round() {
    let a = select_dropouts(50, true, &uniform(50, 0.3), 50, 123, 7);
    let b = select_dropouts(50, true, &uniform(50, 0.3), 50, 123, 7);
    assert_eq!(a, b, "same (seed, round) must produce same dropouts");
}

#[test]
fn select_dropouts_different_round_produces_different_dropouts() {
    let r0 = select_dropouts(50, true, &uniform(50, 0.5), 50, 42, 0);
    let r1 = select_dropouts(50, true, &uniform(50, 0.5), 50, 42, 1);
    assert_ne!(r0, r1, "different rounds must produce different dropouts");
}

#[test]
fn select_dropouts_matches_reference_draw() {
    assert_eq!(
        select_dropouts(50, true, &uniform(50, 0.3), 50, 123, 7),
        vec![1, 2, 5, 7, 12, 20, 23, 24, 25, 34, 36, 37, 39, 40, 45, 48, 49]
    );
}

#[test]
fn select_dropouts_truncation_keeps_lowest_scores() {
    assert_eq!(select_dropouts(10, true, &uniform(10, 0.5), 2, 42, 0), vec![4, 6]);
}

#[test]
fn select_dropouts_fallback_picks_lowest_score() {
    let got = select_dropouts(10, true, &vec![1u64; 10], 5, 9, 4);
    assert_eq!(got, vec![3]);
    let lowest = (0..10).min_by_key(|&i| (dropout_score_bits(9, 4, i), i)).unwrap();
    assert_eq!(got, vec![lowest]);
}

#[test]
fn select_dropouts_returns_empty_when_max_drop_zero() {
    assert!(select_dropouts(10, true, &uniform(10, 1.0), 0, 1, 1).is_empty());
}

#[test]
fn dropout_scores_are_24_bit() {
    for i in 0..100 {
        assert!(dropout_score_bits(42, 3, i) < DROPOUT_SCORE_SCALE);
    }
}
