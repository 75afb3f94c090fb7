//! Exercises the colony: construction, the three phases, and the full loop.

use bee_colony::bees::{FoodResource, FoodResources};
use bee_colony::fixed::{FIT_SCALE, SCALE};
use bee_colony::func::{Formula, Func};
use bee_colony::AbcError;
use rand::rngs::StdRng;
use rand::SeedableRng;

fn booth_colony(seed: u64) -> FoodResources<Func> {
    let func = Func::new(Formula::Booth);
    let rng = StdRng::seed_from_u64(seed);
    FoodResources::new(func, 3, 2, 6, -10 * SCALE, 10 * SCALE, rng).unwrap()
}

#[test]
fn booth_objective_is_zero_at_its_minimum() {
    let func = Func::new(Formula::Booth);
    let src = FoodResource::from_position(vec![SCALE, 3 * SCALE]);
    // f(1, 3) = 0, fit = 1.0
    assert_eq!(src.fitness(&func), Ok((0, FIT_SCALE)));
}

#[test]
fn booth_objective_at_a_chosen_point() {
    let func = Func::new(Formula::Booth);
    let src = FoodResource::from_position(vec![0, 0]);
    // f(0, 0) = 49 + 25 = 74
    let (fnx, fit) = src.fitness(&func).unwrap();
    assert_eq!(fnx, 74 * SCALE);
    // fit = 1 / 75
    assert_eq!(fit as i128, (FIT_SCALE as i128 * SCALE as i128) / (75 * SCALE as i128));
}

#[test]
fn negative_objective_uses_the_other_fitness_branch() {
    let func = Func::new(Formula::CoordinateSum);
    let src = FoodResource::from_position(vec![-3 * SCALE]);
    // f = -3, fit = 1 + 3 = 4
    assert_eq!(src.fitness(&func), Ok((-3 * SCALE, 4 * FIT_SCALE)));
}

#[test]
fn population_of_one_is_a_configuration_error() {
    let func = Func::new(Formula::Booth);
    let rng = StdRng::seed_from_u64(1);
    let r = FoodResources::new(func, 1, 2, 6, -10 * SCALE, 10 * SCALE, rng);
    assert!(matches!(r, Err(AbcError::Configuration)));
}

#[test]
fn zero_dimension_is_a_configuration_error() {
    let func = Func::new(Formula::Booth);
    let rng = StdRng::seed_from_u64(1);
    let r = FoodResources::new(func, 3, 0, 6, -10 * SCALE, 10 * SCALE, rng);
    assert!(matches!(r, Err(AbcError::Configuration)));
}

#[test]
fn zero_limit_is_a_configuration_error() {
    let func = Func::new(Formula::Booth);
    let rng = StdRng::seed_from_u64(1);
    let r = FoodResources::new(func, 3, 2, 0, -10 * SCALE, 10 * SCALE, rng);
    assert!(matches!(r, Err(AbcError::Configuration)));
}

#[test]
fn empty_resample_range_is_a_configuration_error() {
    let func = Func::new(Formula::Booth);
    let rng = StdRng::seed_from_u64(1);
    let r = FoodResources::new(func, 3, 2, 6, 10 * SCALE, -10 * SCALE, rng);
    assert!(matches!(r, Err(AbcError::Configuration)));
}

#[test]
fn undersized_positions_are_a_numeric_error() {
    // The two-coordinate objective cannot be evaluated on one coordinate.
    let func = Func::new(Formula::Booth);
    let rng = StdRng::seed_from_u64(1);
    let r = FoodResources::new(func, 3, 1, 6, -10 * SCALE, 10 * SCALE, rng);
    assert!(matches!(r, Err(AbcError::Numeric)));
}

#[test]
fn fresh_sources_stay_within_the_resample_range() {
    let colony = booth_colony(11);
    assert_eq!(colony.dim(), 2);
    assert_eq!(colony.limit(), 6);
    for src in colony.resources().iter() {
        assert_eq!(src.position().len(), 2);
        assert_eq!(src.count(), 0);
        for &c in src.position().iter() {
            assert!((-10 * SCALE..10 * SCALE).contains(&c));
        }
    }
}

#[test]
fn probabilities_are_nonnegative_and_sum_to_about_one() {
    let colony = booth_colony(21);
    let probs = colony.calculate_probs().unwrap();
    assert_eq!(probs.len(), 3);
    let sum: i64 = probs.iter().sum();
    for &p in probs.iter() {
        assert!(0 <= p && p <= SCALE);
    }
    assert!(SCALE - 3 < sum && sum <= SCALE);
}

#[test]
fn employed_phase_never_loses_fitness() {
    let mut colony = booth_colony(31);
    let func = Func::new(Formula::Booth);
    let before: Vec<i64> =
        colony.resources().iter().map(|s| s.fitness(&func).unwrap().1).collect();
    colony.employed_bees_step().unwrap();
    let after: Vec<i64> =
        colony.resources().iter().map(|s| s.fitness(&func).unwrap().1).collect();
    for (b, a) in before.iter().zip(after.iter()) {
        assert!(a >= b);
    }
}

#[test]
fn onlooker_phase_never_loses_fitness() {
    let mut colony = booth_colony(41);
    let func = Func::new(Formula::Booth);
    let before: Vec<i64> =
        colony.resources().iter().map(|s| s.fitness(&func).unwrap().1).collect();
    let probs = colony.calculate_probs().unwrap();
    colony.onlooker_bees_step(probs).unwrap();
    let after: Vec<i64> =
        colony.resources().iter().map(|s| s.fitness(&func).unwrap().1).collect();
    for (b, a) in before.iter().zip(after.iter()) {
        assert!(a >= b);
    }
}

#[test]
fn scout_phase_clears_every_count_below_the_limit() {
    let mut colony = booth_colony(51);
    for _ in 0..5 {
        colony.step().unwrap();
        for src in colony.resources().iter() {
            assert!(src.count() < 6);
        }
    }
}

#[test]
fn scout_phase_twice_leaves_settled_sources_alone() {
    let mut colony = booth_colony(61);
    colony.explorer_bees_step().unwrap();
    let positions: Vec<Vec<i64>> =
        colony.resources().iter().map(|s| s.position().clone()).collect();
    let counts: Vec<usize> = colony.resources().iter().map(|s| s.count()).collect();
    colony.explorer_bees_step().unwrap();
    let positions2: Vec<Vec<i64>> =
        colony.resources().iter().map(|s| s.position().clone()).collect();
    let counts2: Vec<usize> = colony.resources().iter().map(|s| s.count()).collect();
    assert_eq!(positions, positions2);
    assert_eq!(counts, counts2);
}

#[test]
fn best_fitness_never_decreases_across_steps() {
    let mut colony = booth_colony(71);
    let func = Func::new(Formula::Booth);
    let mut last = colony.best().fitness(&func).unwrap().1;
    for _ in 0..50 {
        colony.step().unwrap();
        let now = colony.best().fitness(&func).unwrap().1;
        assert!(now >= last);
        last = now;
    }
}

#[test]
fn best_is_a_snapshot_not_an_alias() {
    let mut colony = booth_colony(81);
    colony.step().unwrap();
    let best_pos = colony.best().position().clone();
    let best_count = colony.best().count();
    // Later phases mutate the live population, never the snapshot.
    colony.employed_bees_step().unwrap();
    assert_eq!(colony.best().position(), &best_pos);
    assert_eq!(colony.best().count(), best_count);
}

#[test]
fn the_colony_converges_on_the_booth_objective() {
    // Population 3, dimension 2, limit 6, resample range [-10, 10], 200
    // steps from a fixed seed: the best lands within 0.5 of the objective's
    // minimum at (1, 3) and its value is near 0.
    let mut colony = booth_colony(91);
    for _ in 0..200 {
        colony.step().unwrap();
    }
    let func = Func::new(Formula::Booth);
    let best = colony.best();
    let (fnx, _) = best.fitness(&func).unwrap();
    assert!(fnx >= 0);
    assert!(fnx < SCALE / 2, "objective value {} is not near 0", fnx);
    let x = best.position()[0] as f64 / SCALE as f64;
    let y = best.position()[1] as f64 / SCALE as f64;
    let dist = ((x - 1.0).powi(2) + (y - 3.0).powi(2)).sqrt();
    assert!(dist < 0.5, "best ({}, {}) is {} away from (1, 3)", x, y, dist);
}

#[test]
fn source_counts_track_failed_attempts() {
    let mut src = FoodResource::from_position(vec![SCALE, 2 * SCALE]);
    assert_eq!(src.count(), 0);
    src.inc_count();
    src.inc_count();
    assert_eq!(src.count(), 2);
    src.reset_count();
    assert_eq!(src.count(), 0);
    assert_eq!(src.position(), &vec![SCALE, 2 * SCALE]);
}

#[test]
fn reset_redraws_the_position_within_the_range() {
    let mut rng = StdRng::seed_from_u64(5);
    let mut src = FoodResource::from_position(vec![99 * SCALE, 99 * SCALE]);
    src.inc_count();
    src.reset(-SCALE, SCALE, &mut rng);
    assert_eq!(src.count(), 0);
    assert_eq!(src.position().len(), 2);
    for &c in src.position().iter() {
        assert!((-SCALE..SCALE).contains(&c));
    }
}

#[test]
fn probabilities_handle_negative_objective_values() {
    // The coordinate-sum objective goes negative, exercising the 1 + |f|
    // fitness branch inside the probability computation.
    let func = Func::new(Formula::CoordinateSum);
    let rng = StdRng::seed_from_u64(101);
    let colony = FoodResources::new(func, 4, 1, 3, -10 * SCALE, 10 * SCALE, rng).unwrap();
    let probs = colony.calculate_probs().unwrap();
    assert_eq!(probs.len(), 4);
    let sum: i64 = probs.iter().sum();
    for &p in probs.iter() {
        assert!(0 <= p && p <= SCALE);
    }
    assert!(SCALE - 4 < sum && sum <= SCALE);
}

#[test]
fn the_smallest_colony_runs() {
    let func = Func::new(Formula::Booth);
    let rng = StdRng::seed_from_u64(111);
    let mut colony = FoodResources::new(func, 2, 2, 6, -10 * SCALE, 10 * SCALE, rng).unwrap();
    let booth = Func::new(Formula::Booth);
    let mut last = colony.best().fitness(&booth).unwrap().1;
    for _ in 0..10 {
        colony.step().unwrap();
        let now = colony.best().fitness(&booth).unwrap().1;
        assert!(now >= last);
        last = now;
    }
}
