//! The objective the colony minimizes.
//!
//! The engine is generic over the `Objective` trait: any caller-supplied
//! "position vector to scalar" evaluator whose exec method is proved to match
//! its own specification and whose defined values stay in the representable
//! range.  `Func` is the library's ready-made implementation, evaluating one
//! of a fixed family of formulas.  Evaluation yields `None` — the model's
//! numeric failure — when the value leaves the representable range.

use vstd::prelude::*;
use crate::fixed::{in_range, SCALE, VAL_MAX};
use vstd::arithmetic::mul::lemma_mul_nonnegative;
use vstd::arithmetic::div_mod::{lemma_div_nonincreasing, lemma_div_pos_is_pos};

verus! {

/// A pure scalar objective over fixed-point position vectors: the colony's
/// external collaborator.  An implementation provides its own specification,
/// an evaluator proved to match it, and a proof that every defined value is
/// representable; the engine's contracts then speak of `spec_calculate`
/// without knowing the formula.
pub trait Objective: Sized {
    /// What `calculate` returns on a position; `None` is the numeric
    /// failure.
    spec fn spec_calculate(&self, pos: Seq<i64>) -> Option<i64>;

    /// Every defined objective value lies in the representable range.
    proof fn lemma_in_range(&self, pos: Seq<i64>)
        ensures
            self.spec_calculate(pos) is Some ==> in_range(
                self.spec_calculate(pos).unwrap() as int,
            ),
    ;

    /// Evaluates the objective on a representable position.
    fn calculate(&self, value: &Vec<i64>) -> (r: Option<i64>)
        requires
            forall|i: int| 0 <= i < value@.len() ==> in_range(#[trigger] value@[i] as int),
        ensures
            r == self.spec_calculate(value@),
    ;
}

/// Which formula a `Func` evaluates.
#[derive(Clone, Copy, Debug, PartialEq, Eq, Structural)]
pub enum Formula {
    /// `(x + 2y - 7)^2 + (2x + y - 5)^2` over the first two coordinates.
    Booth,
    /// The sum of all coordinates; can be negative.
    CoordinateSum,
}

/// The library's own objective: one of a fixed family of formulas, fixed for
/// a colony's lifetime.
pub struct Func {
    kind: Formula,
}

/// `(x + 2y - 7)^2 + (2x + y - 5)^2`, in fixed point; squares are scaled
/// back down by `SCALE` with truncation.  `None` for vectors of fewer than
/// two coordinates or values beyond the representable range.
pub open spec fn spec_booth(pos: Seq<i64>) -> Option<i64> {
    if pos.len() < 2 {
        None
    } else {
        let t1 = pos[0] + 2 * pos[1] - 7 * (SCALE as int);
        let t2 = 2 * pos[0] + pos[1] - 5 * (SCALE as int);
        let f = (t1 * t1) / (SCALE as int) + (t2 * t2) / (SCALE as int);
        if f <= VAL_MAX as int {
            Some(f as i64)
        } else {
            None
        }
    }
}

/// The sum of the coordinates of `pos`.
pub open spec fn sum_coords(pos: Seq<i64>) -> int
    decreases pos.len(),
{
    if pos.len() == 0 {
        0
    } else {
        sum_coords(pos.drop_last()) + pos.last()
    }
}

/// The coordinate-sum objective; `None` beyond the representable range.
pub open spec fn spec_coord_sum(pos: Seq<i64>) -> Option<i64> {
    let f = sum_coords(pos);
    if in_range(f) {
        Some(f as i64)
    } else {
        None
    }
}

impl Func {
    /// Which formula this objective evaluates.
    pub closed spec fn spec_kind(&self) -> Formula {
        self.kind
    }

    pub fn new(kind: Formula) -> (r: Self)
        ensures
            r.spec_kind() == kind,
            forall|pos: Seq<i64>|
                #[trigger] r.spec_calculate(pos) == match kind {
                    Formula::Booth => spec_booth(pos),
                    Formula::CoordinateSum => spec_coord_sum(pos),
                },
    {
        Func { kind }
    }
}

impl Objective for Func {
    closed spec fn spec_calculate(&self, pos: Seq<i64>) -> Option<i64> {
        match self.kind {
            Formula::Booth => spec_booth(pos),
            Formula::CoordinateSum => spec_coord_sum(pos),
        }
    }

    proof fn lemma_in_range(&self, pos: Seq<i64>) {
        match self.kind {
            Formula::Booth => {
                if pos.len() >= 2 {
                    let t1 = pos[0] + 2 * pos[1] - 7 * (SCALE as int);
                    let t2 = 2 * pos[0] + pos[1] - 5 * (SCALE as int);
                    lemma_mul_nonnegative(
                        if t1 >= 0 { t1 } else { -t1 },
                        if t1 >= 0 { t1 } else { -t1 },
                    );
                    assert(t1 * t1 >= 0) by (nonlinear_arith);
                    assert(t2 * t2 >= 0) by (nonlinear_arith);
                    lemma_div_pos_is_pos(t1 * t1, SCALE as int);
                    lemma_div_pos_is_pos(t2 * t2, SCALE as int);
                }
            },
            Formula::CoordinateSum => {},
        }
    }

    fn calculate(&self, value: &Vec<i64>) -> (r: Option<i64>) {
        match self.kind {
            Formula::Booth => booth(value),
            Formula::CoordinateSum => coord_sum(value),
        }
    }
}

/// The scaled square `(t * t) / SCALE`, for `|t| <= 4 * VAL_MAX`.
fn sq_scaled(t: i64) -> (r: u128)
    requires
        -(4 * (VAL_MAX as int)) <= t as int <= 4 * (VAL_MAX as int),
    ensures
        r as int == (t as int * t as int) / (SCALE as int),
        r as int <= 16_000_000_000_000_000_000_000_000,
{
    let m: u128 = if t < 0 {
        (-t) as u128
    } else {
        t as u128
    };
    proof {
        assert(m as int * m as int <= 16_000_000_000_000_000_000_000_000) by (nonlinear_arith)
            requires
                0 <= m as int <= 4 * (VAL_MAX as int),
        ;
        assert(t as int * t as int == m as int * m as int) by (nonlinear_arith)
            requires
                m as int == if t < 0 { -(t as int) } else { t as int },
        ;
    }
    let s: u128 = m * m;
    proof {
        lemma_div_nonincreasing(s as int, SCALE as int);
        lemma_div_pos_is_pos(s as int, SCALE as int);
    }
    s / (SCALE as u128)
}

/// The Booth objective, exactly as `spec_booth` states it.
fn booth(value: &Vec<i64>) -> (r: Option<i64>)
    requires
        forall|i: int| 0 <= i < value@.len() ==> in_range(#[trigger] value@[i] as int),
    ensures
        r == spec_booth(value@),
{
    if value.len() < 2 {
        return None;
    }
    let x = value[0];
    let y = value[1];
    let t1: i64 = x + 2 * y - 7 * SCALE;
    let t2: i64 = 2 * x + y - 5 * SCALE;
    let q1: u128 = sq_scaled(t1);
    let q2: u128 = sq_scaled(t2);
    proof {
        assert(t1 as int * t1 as int >= 0) by (nonlinear_arith);
        assert(t2 as int * t2 as int >= 0) by (nonlinear_arith);
        lemma_div_pos_is_pos(t1 as int * t1 as int, SCALE as int);
        lemma_div_pos_is_pos(t2 as int * t2 as int, SCALE as int);
    }
    let f: u128 = q1 + q2;
    if f <= VAL_MAX as u128 {
        Some(f as i64)
    } else {
        None
    }
}

/// The coordinate-sum objective, exactly as `spec_coord_sum` states it.
fn coord_sum(value: &Vec<i64>) -> (r: Option<i64>)
    requires
        forall|i: int| 0 <= i < value@.len() ==> in_range(#[trigger] value@[i] as int),
    ensures
        r == spec_coord_sum(value@),
{
    let n = value.len();
    let mut acc: i128 = 0;
    let mut i: usize = 0;
    while i < n
        invariant
            0 <= i <= n,
            n == value@.len(),
            forall|m: int| 0 <= m < value@.len() ==> in_range(#[trigger] value@[m] as int),
            acc as int == sum_coords(value@.subrange(0, i as int)),
            -(i as int) * (VAL_MAX as int) <= acc as int <= (i as int) * (VAL_MAX as int),
        decreases n - i,
    {
        proof {
            assert(value@.subrange(0, i as int + 1).drop_last() =~= value@.subrange(0, i as int));
            assert(value@.subrange(0, i as int + 1).last() == value@[i as int]);
        }
        acc = acc + value[i] as i128;
        i = i + 1;
    }
    proof {
        assert(value@.subrange(0, n as int) =~= value@);
    }
    if -VAL_MAX as i128 <= acc && acc <= VAL_MAX as i128 {
        Some(acc as i64)
    } else {
        None
    }
}

} // verus!
