//! Exercises the fixed-point numeric core and the selection rule.

use bee_colony::fixed::{fit_value, perturb, FIT_MAX, FIT_SCALE, SCALE, VAL_MAX};
use bee_colony::utils::{choose_probs, MoreRandom};
use rand::rngs::StdRng;
use rand::SeedableRng;

#[test]
fn fit_of_zero_is_one() {
    // fit(0) = 1 / (1 + 0) = 1.0
    assert_eq!(fit_value(0), FIT_SCALE);
}

#[test]
fn fit_of_one_is_half() {
    // fit(1) = 1 / 2
    assert_eq!(fit_value(SCALE), 500_000_000_000);
}

#[test]
fn fit_of_minus_two_is_three() {
    // fit(-2) = 1 + |-2| = 3
    assert_eq!(fit_value(-2 * SCALE), 3_000_000_000_000);
}

#[test]
fn fit_is_positive_at_the_extremes() {
    assert!(fit_value(VAL_MAX) > 0);
    assert_eq!(fit_value(-VAL_MAX), FIT_MAX);
    assert!(fit_value(VAL_MAX) < fit_value(0));
    assert!(fit_value(-VAL_MAX) > fit_value(0));
}

#[test]
fn perturb_moves_half_way() {
    // x = 1, xk = 0, phi = 0.5: 1 + 0.5 * (1 - 0) = 1.5
    assert_eq!(perturb(SCALE, 0, SCALE / 2), Some(1_500_000));
}

#[test]
fn perturb_with_negative_phi() {
    // x = 1, xk = 3, phi = -0.5: 1 - 0.5 * (1 - 3) = 2
    assert_eq!(perturb(SCALE, 3 * SCALE, -SCALE / 2), Some(2_000_000));
}

#[test]
fn perturb_with_zero_phi_keeps_the_coordinate() {
    assert_eq!(perturb(7 * SCALE, -2 * SCALE, 0), Some(7 * SCALE));
}

#[test]
fn perturb_out_of_range_is_a_numeric_failure() {
    // VAL_MAX + 1.0 * (VAL_MAX - (-VAL_MAX)) leaves the representable range.
    assert_eq!(perturb(VAL_MAX, -VAL_MAX, SCALE), None);
}

#[test]
fn cumulative_selection_picks_the_first_reaching_index() {
    // probs = [0.2, 0.3, 0.5], r = 0.25 -> index 1
    let probs = vec![200_000, 300_000, 500_000];
    assert_eq!(choose_probs(250_000, &probs), 1);
}

#[test]
fn cumulative_selection_picks_the_last_index_for_large_r() {
    // r = 0.99 -> index 2
    let probs = vec![200_000, 300_000, 500_000];
    assert_eq!(choose_probs(990_000, &probs), 2);
}

#[test]
fn cumulative_selection_picks_the_first_index_for_zero_r() {
    // r = 0.0 -> index 0
    let probs = vec![200_000, 300_000, 500_000];
    assert_eq!(choose_probs(0, &probs), 0);
}

#[test]
fn cumulative_selection_falls_back_to_the_last_index() {
    // Rounding left the total short of r: the boundary policy takes the last.
    let probs = vec![100_000, 100_000];
    assert_eq!(choose_probs(999_999, &probs), 1);
}

#[test]
fn gen_range_except_never_returns_the_excluded_value() {
    let mut rng = StdRng::seed_from_u64(7);
    for i in 0..3i64 {
        for _ in 0..100 {
            let v = rng.gen_range_except(0, 3, i);
            assert!((0..3).contains(&v));
            assert_ne!(v, i);
        }
    }
}

#[test]
fn gen_range_except_on_a_two_value_range() {
    let mut rng = StdRng::seed_from_u64(8);
    for _ in 0..50 {
        assert_eq!(rng.gen_range_except(0, 2, 0), 1);
        assert_eq!(rng.gen_range_except(0, 2, 1), 0);
    }
}
