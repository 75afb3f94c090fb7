//! Fixed-point arithmetic for the colony engine.
//!
//! A real number `r` is represented by the integer `r * SCALE`, and is kept
//! within `[-VAL_MAX, VAL_MAX]` (that is, within a million real units of
//! zero).  Fitness values use the finer unit `FIT_SCALE` so that the fitness
//! of every representable objective value stays strictly positive.

use vstd::prelude::*;
use vstd::arithmetic::div_mod::{
    lemma_div_is_ordered_by_denominator, lemma_div_multiples_vanish, lemma_div_non_zero,
    lemma_div_nonincreasing, lemma_div_pos_is_pos,
};
use vstd::arithmetic::mul::{lemma_mul_inequality, lemma_mul_is_commutative};

verus! {

/// One real unit, in position ticks.
pub const SCALE: i64 = 1_000_000;

/// One real unit of fitness, in fitness ticks (`SCALE * SCALE`).
pub const FIT_SCALE: i64 = 1_000_000_000_000;

/// Largest magnitude of a representable value (a million real units).
pub const VAL_MAX: i64 = 1_000_000_000_000;

/// Largest fitness of a representable objective value:
/// `FIT_SCALE + VAL_MAX * SCALE`, reached at the objective value `-VAL_MAX`.
pub const FIT_MAX: i64 = 1_000_001_000_000_000_000;

/// A value that stands for a real number within the model's range.
pub open spec fn in_range(v: int) -> bool {
    -(VAL_MAX as int) <= v && v <= VAL_MAX as int
}

/// The fitness transform, in fitness ticks: `1 / (1 + f)` for `f >= 0`,
/// `1 + |f|` for `f < 0`.  Larger fitness is better.
pub open spec fn spec_fit(f: int) -> int {
    if f >= 0 {
        (FIT_SCALE as int * SCALE as int) / (SCALE as int + f)
    } else {
        FIT_SCALE as int + (-f) * SCALE as int
    }
}

/// The fitness of every representable objective value is strictly positive
/// and bounded by `FIT_MAX`.
pub proof fn lemma_fit_bounds(f: int)
    requires
        in_range(f),
    ensures
        1 <= spec_fit(f),
        spec_fit(f) <= FIT_MAX as int,
{
    if f >= 0 {
        let num = FIT_SCALE as int * SCALE as int;
        let den = SCALE as int + f;
        assert(0 < den <= num);
        lemma_div_non_zero(num, den);
        lemma_div_is_ordered_by_denominator(num, SCALE as int, den);
        lemma_div_multiples_vanish(FIT_SCALE as int, SCALE as int);
        assert(num == SCALE as int * FIT_SCALE as int) by {
            lemma_mul_is_commutative(FIT_SCALE as int, SCALE as int);
        }
    } else {
        let mag = -f;
        assert(1 <= mag <= VAL_MAX as int);
        lemma_mul_inequality(mag, VAL_MAX as int, SCALE as int);
        assert(mag * SCALE as int >= 1 * SCALE as int) by {
            lemma_mul_inequality(1, mag, SCALE as int);
        }
    }
}

/// Computes the fitness transform exactly as `spec_fit` states it.
pub fn fit_value(f: i64) -> (r: i64)
    requires
        in_range(f as int),
    ensures
        r as int == spec_fit(f as int),
        1 <= r <= FIT_MAX,
{
    proof {
        lemma_fit_bounds(f as int);
    }
    if f >= 0 {
        let num: u64 = (FIT_SCALE as u64) * (SCALE as u64);
        let den: u64 = (SCALE as u64) + (f as u64);
        proof {
            lemma_div_nonincreasing(num as int, den as int);
            lemma_div_pos_is_pos(num as int, den as int);
        }
        (num / den) as i64
    } else {
        let mag: i64 = -f;
        proof {
            lemma_mul_inequality(mag as int, VAL_MAX as int, SCALE as int);
        }
        FIT_SCALE + mag * SCALE
    }
}

/// Truncating division of a product by `SCALE`, rounding toward zero, as the
/// hardware's signed division would.
pub open spec fn scale_down(p: int) -> int {
    if p >= 0 {
        p / (SCALE as int)
    } else {
        -((-p) / (SCALE as int))
    }
}

/// The single-coordinate perturbation `x + phi * (x - xk)`, where `phi` is a
/// fixed-point factor in `[-1, 1]`.  `None` when the result leaves the
/// representable range, the model's numeric failure.
pub open spec fn spec_perturb(x: int, xk: int, phi: int) -> Option<i64> {
    let v = x + scale_down(phi * (x - xk));
    if in_range(v) {
        Some(v as i64)
    } else {
        None
    }
}

/// Computes the perturbed coordinate exactly as `spec_perturb` states it.
pub fn perturb(x: i64, xk: i64, phi: i64) -> (r: Option<i64>)
    requires
        in_range(x as int),
        in_range(xk as int),
        -SCALE <= phi <= SCALE,
    ensures
        r == spec_perturb(x as int, xk as int, phi as int),
        r is Some ==> in_range(r.unwrap() as int),
{
    let d: i64 = x - xk;
    let dm: u64 = if d < 0 {
        (-d) as u64
    } else {
        d as u64
    };
    let pm: u64 = if phi < 0 {
        (-phi) as u64
    } else {
        phi as u64
    };
    proof {
        lemma_mul_inequality(pm as int, SCALE as int, dm as int);
        lemma_mul_inequality(dm as int, 2 * VAL_MAX as int, SCALE as int);
        lemma_mul_is_commutative(pm as int, dm as int);
        lemma_mul_is_commutative(dm as int, 2 * VAL_MAX as int);
    }
    let prod: u64 = pm * dm;
    let q: u64 = prod / (SCALE as u64);
    proof {
        lemma_div_nonincreasing(prod as int, SCALE as int);
        assert(phi as int * (d as int) == if (d < 0) != (phi < 0) {
            -((pm as int) * (dm as int))
        } else {
            (pm as int) * (dm as int)
        }) by (nonlinear_arith)
            requires
                dm as int == if d < 0 { -(d as int) } else { d as int },
                pm as int == if phi < 0 { -(phi as int) } else { phi as int },
        ;
    }
    let neg: bool = (d < 0) != (phi < 0);
    let delta: i64 = if neg {
        -(q as i64)
    } else {
        q as i64
    };
    assert(delta as int == scale_down(phi as int * (x as int - xk as int)));
    let v: i64 = x + delta;
    if -VAL_MAX <= v && v <= VAL_MAX {
        Some(v)
    } else {
        None
    }
}

} // verus!
