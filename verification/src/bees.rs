//! The colony: food sources, the three foraging phases, and the
//! probability-based selection that couples them.

use vstd::prelude::*;
use crate::AbcError;
use crate::fixed::{fit_value, in_range, perturb, spec_fit, spec_perturb, FIT_MAX, SCALE, VAL_MAX};
use crate::func::Objective;
use crate::utils::{choose_probs, gen_range_i64, prefix_sum, MoreRandom};
use rand::rngs::StdRng;

verus! {

/// Largest population the engine accepts; keeps probability sums within
/// machine integers.
pub const SIZE_CAP: usize = 1_048_576;

/// Largest dimension the engine accepts.
pub const DIM_CAP: usize = 1_048_576;

/// Largest abandonment limit the engine accepts.
pub const LIMIT_CAP: usize = 1_073_741_824;

/// One candidate solution: a position vector and the count of consecutive
/// foraging attempts that failed to improve it.
pub struct FoodResource {
    raw: Vec<i64>,
    count: usize,
}

/// The objective value and fitness of a position, or the numeric failure.
pub open spec fn spec_fitness<F: Objective>(func: F, raw: Seq<i64>) -> Result<(i64, i64), AbcError> {
    match func.spec_calculate(raw) {
        Some(f) => Ok((f, spec_fit(f as int) as i64)),
        None => Err(AbcError::Numeric),
    }
}

/// The objective is defined (stays in range) on this position.
pub open spec fn evaluable<F: Objective>(func: F, raw: Seq<i64>) -> bool {
    func.spec_calculate(raw) is Some
}

/// The fitness of a position on which the objective is defined.
pub open spec fn fit_of<F: Objective>(func: F, raw: Seq<i64>) -> int {
    spec_fit(func.spec_calculate(raw).unwrap() as int)
}

impl FoodResource {
    /// The candidate position.
    pub closed spec fn spec_raw(&self) -> Seq<i64> {
        self.raw@
    }

    /// Consecutive non-improving attempts on this source.
    pub closed spec fn spec_count(&self) -> nat {
        self.count as nat
    }

    /// A source for dimension `dim`: exactly `dim` coordinates, all in the
    /// representable range.
    pub open spec fn wf(&self, dim: nat) -> bool {
        &&& self.spec_raw().len() == dim
        &&& forall|i: int|
            0 <= i < self.spec_raw().len() ==> in_range(#[trigger] self.spec_raw()[i] as int)
    }

    /// A fresh source: every coordinate drawn uniformly from `[lo, hi)`,
    /// with a zero trial count.
    pub fn new(dim: usize, lo: i64, hi: i64, rng: &mut StdRng) -> (r: Self)
        requires
            1 <= dim,
            in_range(lo as int),
            in_range(hi as int),
            lo < hi,
        ensures
            r.wf(dim as nat),
            r.spec_count() == 0,
            forall|i: int| 0 <= i < dim ==> lo <= #[trigger] r.spec_raw()[i] < hi,
    {
        let mut raw: Vec<i64> = Vec::new();
        let mut i: usize = 0;
        while i < dim
            invariant
                i <= dim,
                raw@.len() == i,
                in_range(lo as int),
                in_range(hi as int),
                lo < hi,
                forall|m: int| 0 <= m < i ==> lo <= #[trigger] raw@[m] < hi,
            decreases dim - i,
        {
            raw.push(gen_range_i64(rng, lo, hi));
            i = i + 1;
        }
        FoodResource { raw, count: 0 }
    }

    /// Resamples the whole position from `[lo, hi)` and clears the count.
    pub fn reset(&mut self, lo: i64, hi: i64, rng: &mut StdRng)
        requires
            old(self).spec_raw().len() >= 1,
            in_range(lo as int),
            in_range(hi as int),
            lo < hi,
        ensures
            final(self).wf(old(self).spec_raw().len()),
            final(self).spec_count() == 0,
            forall|i: int|
                0 <= i < old(self).spec_raw().len() ==> lo <= #[trigger] final(self).spec_raw()[i]
                    < hi,
    {
        let dim = self.raw.len();
        *self = Self::new(dim, lo, hi, rng);
    }

    /// Clears the trial count; the position is untouched.
    pub fn reset_count(&mut self)
        ensures
            final(self).spec_count() == 0,
            final(self).spec_raw() == old(self).spec_raw(),
    {
        self.count = 0;
    }

    /// One more failed attempt on this source; the position is untouched.
    pub fn inc_count(&mut self)
        requires
            old(self).spec_count() < usize::MAX,
        ensures
            final(self).spec_count() == old(self).spec_count() + 1,
            final(self).spec_raw() == old(self).spec_raw(),
    {
        self.count = self.count + 1;
    }

    /// The trial count.
    pub fn count(&self) -> (r: usize)
        ensures
            r == self.spec_count(),
    {
        self.count
    }

    /// The position.
    pub fn position(&self) -> (r: &Vec<i64>)
        ensures
            r@ == self.spec_raw(),
    {
        &self.raw
    }

    /// The raw objective value and the fitness of this source, or the
    /// numeric failure where the objective leaves the representable range.
    pub fn fitness<F: Objective>(&self, func: &F) -> (r: Result<(i64, i64), AbcError>)
        requires
            forall|i: int|
                0 <= i < self.spec_raw().len() ==> in_range(#[trigger] self.spec_raw()[i] as int),
        ensures
            r == spec_fitness(*func, self.spec_raw()),
            r is Ok ==> evaluable(*func, self.spec_raw()) && r.unwrap().1 as int == fit_of(
                *func,
                self.spec_raw(),
            ) && 1 <= r.unwrap().1 <= FIT_MAX,
            r is Err ==> r == Result::<(i64, i64), AbcError>::Err(AbcError::Numeric),
    {
        proof {
            func.lemma_in_range(self.raw@);
        }
        let fnx = func.calculate(&self.raw);
        match fnx {
            Some(f) => {
                proof {
                    crate::fixed::lemma_fit_bounds(f as int);
                }
                let fit = fit_value(f);
                Ok((f, fit))
            },
            None => Err(AbcError::Numeric),
        }
    }
}

} // verus!

use vstd::arithmetic::div_mod::{
    lemma_div_is_ordered, lemma_div_multiples_vanish, lemma_fundamental_div_mod,
    lemma_mod_division_less_than_divisor, lemma_div_pos_is_pos, lemma_div_nonincreasing,
};
use vstd::arithmetic::mul::{lemma_mul_inequality, lemma_mul_is_commutative};

verus! {

/// Every source of the sequence is a `dim`-dimensional source.
pub open spec fn srcs_wf(srcs: Seq<FoodResource>, dim: nat) -> bool {
    forall|i: int| 0 <= i < srcs.len() ==> (#[trigger] srcs[i]).wf(dim)
}

/// The objective is defined on every source of the sequence.
pub open spec fn all_evaluable<F: Objective>(func: F, srcs: Seq<FoodResource>) -> bool {
    forall|i: int| 0 <= i < srcs.len() ==> evaluable(func, (#[trigger] srcs[i]).spec_raw())
}

/// The total fitness of the sequence.
pub open spec fn sum_fits<F: Objective>(func: F, srcs: Seq<FoodResource>) -> int
    decreases srcs.len(),
{
    if srcs.len() == 0 {
        0
    } else {
        sum_fits(func, srcs.drop_last()) + fit_of(func, srcs.last().spec_raw())
    }
}

/// The fixed-size population, the best source seen so far, and the fixed
/// configuration: objective, dimension, abandonment limit and resample range.
pub struct FoodResources<F: Objective> {
    func: F,
    best: FoodResource,
    resources: Vec<FoodResource>,
    dim: usize,
    limit: usize,
    lo: i64,
    hi: i64,
    rng: StdRng,
}

impl<F: Objective> FoodResources<F> {
    /// The objective.
    pub closed spec fn spec_func(&self) -> F {
        self.func
    }

    /// The live population.
    pub closed spec fn spec_resources(&self) -> Seq<FoodResource> {
        self.resources@
    }

    /// The best source observed so far (a snapshot, not an alias).
    pub closed spec fn spec_best(&self) -> FoodResource {
        self.best
    }

    /// The dimension of every position.
    pub closed spec fn spec_dim(&self) -> usize {
        self.dim
    }

    /// The abandonment limit.
    pub closed spec fn spec_limit(&self) -> usize {
        self.limit
    }

    /// Lower resample bound.
    pub closed spec fn spec_lo(&self) -> i64 {
        self.lo
    }

    /// Upper resample bound.
    pub closed spec fn spec_hi(&self) -> i64 {
        self.hi
    }

    /// The colony invariant: a population of at least two sources of the
    /// configured dimension, positive limit, valid resample range, and a
    /// well-formed best snapshot.
    pub open spec fn wf(&self) -> bool {
        &&& 2 <= self.spec_resources().len() <= SIZE_CAP
        &&& 1 <= self.spec_dim() <= DIM_CAP
        &&& 1 <= self.spec_limit() <= LIMIT_CAP
        &&& in_range(self.spec_lo() as int)
        &&& in_range(self.spec_hi() as int)
        &&& self.spec_lo() < self.spec_hi()
        &&& srcs_wf(self.spec_resources(), self.spec_dim() as nat)
        &&& self.spec_best().wf(self.spec_dim() as nat)
    }
}

} // verus!

use vstd::arithmetic::mul::lemma_mul_is_distributive_add;
use crate::utils::{lemma_prefix_sum_bounds, lemma_prefix_sum_push};

verus! {

impl FoodResource {
    /// A copy of this source — used for the `best` snapshot, which must not
    /// alias the live population.
    pub fn snapshot(&self) -> (r: Self)
        ensures
            r.spec_raw() == self.spec_raw(),
            r.spec_count() == self.spec_count(),
    {
        let n = self.raw.len();
        let mut raw: Vec<i64> = Vec::new();
        let mut i: usize = 0;
        while i < n
            invariant
                i <= n,
                n == self.spec_raw().len(),
                raw@.len() == i,
                forall|m: int| 0 <= m < i ==> #[trigger] raw@[m] == self.spec_raw()[m],
            decreases n - i,
        {
            raw.push(self.raw[i]);
            i = i + 1;
        }
        proof {
            assert(raw@ =~= self.spec_raw());
        }
        FoodResource { raw, count: self.count }
    }
}

impl<F: Objective> FoodResources<F> {
    /// Whether a configuration must be rejected at construction.
    pub open spec fn spec_config_bad(
        size: usize,
        dim: usize,
        limit: usize,
        lo: i64,
        hi: i64,
    ) -> bool {
        ||| size < 2
        ||| size > SIZE_CAP
        ||| dim < 1
        ||| dim > DIM_CAP
        ||| limit < 1
        ||| limit > LIMIT_CAP
        ||| !in_range(lo as int)
        ||| !in_range(hi as int)
        ||| lo >= hi
    }

    /// Builds a colony of `size` fresh sources of dimension `dim` drawn from
    /// `[lo, hi)`, and records the fittest of them as `best`.  Rejects
    /// configurations the engine cannot run (populations below two have no
    /// valid neighbor for the `k != i` draw); reports the numeric failure if
    /// any initial source cannot be evaluated.
    pub fn new(
        func: F,
        size: usize,
        dim: usize,
        limit: usize,
        lo: i64,
        hi: i64,
        rng: StdRng,
    ) -> (r: Result<FoodResources<F>, AbcError>)
        ensures
            Self::spec_config_bad(size, dim, limit, lo, hi) <==> r == Result::<FoodResources<F>, AbcError>::Err(AbcError::Configuration),
            r is Err ==> r == Result::<FoodResources<F>, AbcError>::Err(AbcError::Configuration) || r
                == Result::<FoodResources<F>, AbcError>::Err(AbcError::Numeric),
            r is Ok ==> {
                let c = r.unwrap();
                &&& c.wf()
                &&& c.spec_func() == func
                &&& c.spec_resources().len() == size
                &&& c.spec_dim() == dim
                &&& c.spec_limit() == limit
                &&& c.spec_lo() == lo
                &&& c.spec_hi() == hi
                &&& forall|i: int|
                    0 <= i < size ==> (#[trigger] c.spec_resources()[i]).spec_count() == 0
                &&& all_evaluable(func, c.spec_resources())
                &&& evaluable(func, c.spec_best().spec_raw())
                &&& forall|i: int|
                    0 <= i < size ==> fit_of(
                        func,
                        (#[trigger] c.spec_resources()[i]).spec_raw(),
                    ) <= fit_of(func, c.spec_best().spec_raw())
                &&& exists|i: int|
                    0 <= i < size && c.spec_best().spec_raw() == (
                    #[trigger] c.spec_resources()[i]).spec_raw()
            },
            (!Self::spec_config_bad(size, dim, limit, lo, hi) && range_evaluable(
                func,
                dim as nat,
                lo,
                hi,
            )) ==> r is Ok,
    {
        if size < 2 || size > SIZE_CAP || dim < 1 || dim > DIM_CAP || limit < 1 || limit
            > LIMIT_CAP || lo < -VAL_MAX || lo > VAL_MAX || hi < -VAL_MAX || hi > VAL_MAX || lo
            >= hi {
            return Err(AbcError::Configuration);
        }
        let mut rng = rng;
        let mut resources: Vec<FoodResource> = Vec::new();
        let mut i: usize = 0;
        while i < size
            invariant
                i <= size,
                resources@.len() == i,
                1 <= dim,
                in_range(lo as int),
                in_range(hi as int),
                lo < hi,
                srcs_wf(resources@, dim as nat),
                forall|m: int| 0 <= m < i ==> (#[trigger] resources@[m]).spec_count() == 0,
                forall|m: int|
                    0 <= m < i ==> in_bounds((#[trigger] resources@[m]).spec_raw(), lo, hi),
            decreases size - i,
        {
            resources.push(FoodResource::new(dim, lo, hi, &mut rng));
            i = i + 1;
        }
        let first = resources[0].fitness(&func);
        let mut best_fit: i64;
        match first {
            Ok(p) => {
                best_fit = p.1;
            },
            Err(_) => {
                proof {
                    assert(!evaluable(func, (resources@[0]).spec_raw()));
                }
                return Err(AbcError::Numeric);
            },
        }
        let mut best_idx: usize = 0;
        let mut i: usize = 1;
        while i < size
            invariant
                1 <= i <= size,
                best_idx < i,
                !Self::spec_config_bad(size, dim, limit, lo, hi),
                resources@.len() == size,
                srcs_wf(resources@, dim as nat),
                forall|m: int|
                    0 <= m < size ==> in_bounds((#[trigger] resources@[m]).spec_raw(), lo, hi),
                1 <= dim,
                forall|m: int|
                    0 <= m < i ==> evaluable(func, (#[trigger] resources@[m]).spec_raw()),
                best_fit as int == fit_of(func, resources@[best_idx as int].spec_raw()),
                forall|m: int|
                    0 <= m < i ==> fit_of(func, (#[trigger] resources@[m]).spec_raw())
                        <= best_fit as int,
            decreases size - i,
        {
            match resources[i].fitness(&func) {
                Ok(p) => {
                    if p.1 >= best_fit {
                        best_fit = p.1;
                        best_idx = i;
                    }
                },
                Err(_) => {
                    proof {
                        assert(!evaluable(func, (resources@[i as int]).spec_raw()));
                    }
                    return Err(AbcError::Numeric);
                },
            }
            i = i + 1;
        }
        let best = resources[best_idx].snapshot();
        Ok(FoodResources { func, best, resources, dim, limit, lo, hi, rng })
    }

    /// `prob[i] = fit(i) / sum(fit)`, in probability ticks of `SCALE`.  The
    /// shares are non-negative, never exceed one, and their rounding-down
    /// loses less than one tick per source, so the total always lands in
    /// `(1 - n ticks, 1]` — the defensive "probabilities failed to sum to
    /// one" check of the design is provably unreachable.
    pub fn calculate_probs(&self) -> (r: Result<Vec<i64>, AbcError>)
        requires
            self.wf(),
        ensures
            r is Ok <==> all_evaluable(self.spec_func(), self.spec_resources()),
            r is Err ==> r == Result::<Vec<i64>, AbcError>::Err(AbcError::Numeric),
            r is Ok ==> {
                let probs = r.unwrap()@;
                let n = self.spec_resources().len() as int;
                let total = sum_fits(self.spec_func(), self.spec_resources());
                &&& probs.len() == n
                &&& total >= n
                &&& forall|i: int|
                    0 <= i < n ==> (#[trigger] probs[i]) as int == (fit_of(
                        self.spec_func(),
                        self.spec_resources()[i].spec_raw(),
                    ) * (SCALE as int)) / total
                &&& forall|i: int| 0 <= i < n ==> 0 <= #[trigger] probs[i] <= SCALE
                &&& (SCALE as int) - n < prefix_sum(probs, n)
                &&& prefix_sum(probs, n) <= SCALE as int
            },
    {
        let n = self.resources.len();
        let mut fits: Vec<i64> = Vec::new();
        let mut total: u128 = 0;
        let mut i: usize = 0;
        while i < n
            invariant
                i <= n,
                n == self.spec_resources().len(),
                self.wf(),
                fits@.len() == i,
                forall|m: int|
                    0 <= m < i ==> evaluable(
                        self.spec_func(),
                        (#[trigger] self.spec_resources()[m]).spec_raw(),
                    ),
                forall|m: int|
                    0 <= m < i ==> (#[trigger] fits@[m]) as int == fit_of(
                        self.spec_func(),
                        self.spec_resources()[m].spec_raw(),
                    ),
                forall|m: int| 0 <= m < i ==> 1 <= #[trigger] fits@[m] <= FIT_MAX,
                total as int == sum_fits(
                    self.spec_func(),
                    self.spec_resources().subrange(0, i as int),
                ),
                total as int == prefix_sum(fits@, i as int),
                i <= total as int <= (i as int) * (FIT_MAX as int),
            decreases n - i,
        {
            let res = self.resources[i].fitness(&self.func);
            match res {
                Ok(p) => {
                    proof {
                        let srcs = self.spec_resources();
                        assert(srcs.subrange(0, i as int + 1).drop_last() =~= srcs.subrange(
                            0,
                            i as int,
                        ));
                        assert(srcs.subrange(0, i as int + 1).last() == srcs[i as int]);
                        lemma_prefix_sum_push(fits@, p.1, i as int);
                    }
                    total = total + p.1 as u128;
                    fits.push(p.1);
                },
                Err(_) => {
                    proof {
                        assert(!evaluable(
                            self.spec_func(),
                            self.spec_resources()[i as int].spec_raw(),
                        ));
                    }
                    return Err(AbcError::Numeric);
                },
            }
            i = i + 1;
        }
        proof {
            assert(self.spec_resources().subrange(0, n as int) =~= self.spec_resources());
        }
        let ghost gtotal: int = total as int;
        let mut probs: Vec<i64> = Vec::new();
        let ghost mut remsum: int = 0;
        let mut i: usize = 0;
        while i < n
            invariant
                i <= n,
                n == self.spec_resources().len(),
                self.wf(),
                fits@.len() == n,
                forall|m: int|
                    0 <= m < n ==> (#[trigger] fits@[m]) as int == fit_of(
                        self.spec_func(),
                        self.spec_resources()[m].spec_raw(),
                    ),
                forall|m: int| 0 <= m < n ==> 1 <= #[trigger] fits@[m] <= FIT_MAX,
                total as int == gtotal,
                gtotal == sum_fits(self.spec_func(), self.spec_resources()),
                gtotal == prefix_sum(fits@, n as int),
                n <= gtotal <= (n as int) * (FIT_MAX as int),
                probs@.len() == i,
                forall|m: int|
                    0 <= m < i ==> (#[trigger] probs@[m]) as int == ((fits@[m] as int) * (
                    SCALE as int)) / gtotal,
                forall|m: int| 0 <= m < i ==> 0 <= #[trigger] probs@[m] <= SCALE,
                gtotal * prefix_sum(probs@, i as int) + remsum == (SCALE as int) * prefix_sum(
                    fits@,
                    i as int,
                ),
                0 <= remsum <= (i as int) * (gtotal - 1),
            decreases n - i,
        {
            let fit_i = fits[i];
            let prod: u128 = (fit_i as u128) * (SCALE as u128);
            proof {
                assert((fit_i as int) * (SCALE as int) <= (FIT_MAX as int) * (SCALE as int))
                    by (nonlinear_arith)
                    requires
                        1 <= fit_i as int <= FIT_MAX as int,
                ;
                lemma_prefix_sum_bounds(fits@, i as int, n as int);
                assert(fit_i as int <= gtotal);
                lemma_mul_inequality(fit_i as int, gtotal, SCALE as int);
                lemma_div_is_ordered(
                    (fit_i as int) * (SCALE as int),
                    gtotal * (SCALE as int),
                    gtotal,
                );
                lemma_div_multiples_vanish(SCALE as int, gtotal);
                lemma_div_pos_is_pos((fit_i as int) * (SCALE as int), gtotal);
                lemma_fundamental_div_mod(prod as int, gtotal);
                lemma_mod_division_less_than_divisor(prod as int, gtotal);
            }
            let q: u128 = prod / total;
            let ghost rem: int = prod as int % gtotal;
            proof {
                lemma_prefix_sum_push(probs@, q as i64, i as int);
                lemma_mul_is_distributive_add(gtotal, prefix_sum(probs@, i as int), q as int);
                lemma_mul_is_distributive_add(SCALE as int, prefix_sum(fits@, i as int), fit_i as int);
                lemma_mul_is_commutative(SCALE as int, fit_i as int);
                assert((i as int + 1) * (gtotal - 1) == (i as int) * (gtotal - 1) + (gtotal - 1))
                    by (nonlinear_arith);
                remsum = remsum + rem;
            }
            probs.push(q as i64);
            i = i + 1;
        }
        proof {
            let pn = prefix_sum(probs@, n as int);
            assert(pn <= SCALE as int) by (nonlinear_arith)
                requires
                    gtotal >= 1,
                    gtotal * pn + remsum == (SCALE as int) * gtotal,
                    remsum >= 0,
            ;
            assert(pn > (SCALE as int) - (n as int)) by (nonlinear_arith)
                requires
                    gtotal >= 1,
                    n as int >= 1,
                    gtotal * pn + remsum == (SCALE as int) * gtotal,
                    remsum <= (n as int) * (gtotal - 1),
            ;
        }
        Ok(probs)
    }
}

} // verus!

verus! {

impl FoodResource {
    /// One coordinate of the position.
    pub fn coord(&self, j: usize) -> (r: i64)
        requires
            j < self.spec_raw().len(),
        ensures
            r == self.spec_raw()[j as int],
    {
        self.raw[j]
    }

    /// Overwrites one coordinate of the position; the count is untouched.
    pub fn set_coord(&mut self, j: usize, v: i64)
        requires
            j < old(self).spec_raw().len(),
        ensures
            final(self).spec_raw() == old(self).spec_raw().update(j as int, v),
            final(self).spec_count() == old(self).spec_count(),
    {
        self.raw[j] = v;
    }
}

/// Two positions of equal length that agree everywhere except possibly at
/// coordinate `j`.
pub open spec fn same_except(a: Seq<i64>, b: Seq<i64>, j: int) -> bool {
    &&& a.len() == b.len()
    &&& forall|m: int| 0 <= m < a.len() && m != j ==> a[m] == #[trigger] b[m]
}

/// The greedy replace-or-count rule of the employed and onlooker phases: the
/// source either kept its position and counted one more failed attempt, or
/// was replaced by a strictly fitter candidate differing in at most one
/// coordinate, with a cleared count.  Either way its fitness never drops.
pub open spec fn greedy_update<F: Objective>(func: F, dim: nat, pre: FoodResource, post: FoodResource) -> bool {
    &&& evaluable(func, pre.spec_raw())
    &&& evaluable(func, post.spec_raw())
    &&& post.wf(dim)
    &&& fit_of(func, post.spec_raw()) >= fit_of(func, pre.spec_raw())
    &&& ((post.spec_raw() == pre.spec_raw() && post.spec_count() == pre.spec_count() + 1) || (
    post.spec_count() == 0 && fit_of(func, post.spec_raw()) > fit_of(func, pre.spec_raw())
        && exists|j: int| 0 <= j < dim && same_except(pre.spec_raw(), post.spec_raw(), j)))
}

/// A source whose fitness did not drop between two states.
pub open spec fn source_improved<F: Objective>(func: F, pre: FoodResource, post: FoodResource) -> bool {
    &&& evaluable(func, pre.spec_raw())
    &&& evaluable(func, post.spec_raw())
    &&& fit_of(func, post.spec_raw()) >= fit_of(func, pre.spec_raw())
}

/// The best snapshot either stayed as it was or moved to a strictly fitter
/// position.
pub open spec fn best_advance<F: Objective>(func: F, pre: FoodResource, post: FoodResource) -> bool {
    ||| post == pre
    ||| (evaluable(func, pre.spec_raw()) && evaluable(func, post.spec_raw()) && fit_of(
        func,
        post.spec_raw(),
    ) > fit_of(func, pre.spec_raw()))
}

impl<F: Objective> FoodResources<F> {
    /// The configuration (objective, dimension, limit, resample range) is
    /// fixed for the colony's lifetime.
    pub open spec fn same_config(pre: FoodResources<F>, post: FoodResources<F>) -> bool {
        &&& post.spec_func() == pre.spec_func()
        &&& post.spec_dim() == pre.spec_dim()
        &&& post.spec_limit() == pre.spec_limit()
        &&& post.spec_lo() == pre.spec_lo()
        &&& post.spec_hi() == pre.spec_hi()
    }

    /// The employed phase: every source is visited once, a candidate is bred
    /// from the pre-phase population (sibling updates of the same phase are
    /// never observed), and the greedy rule decides.  On the numeric failure
    /// the population is left exactly as it was.
    pub fn employed_bees_step(&mut self) -> (r: Result<(), AbcError>)
        requires
            old(self).wf(),
            forall|i: int|
                0 <= i < old(self).spec_resources().len() ==> (#[trigger] old(self).spec_resources()[i]).spec_count() < usize::MAX,
        ensures
            final(self).wf(),
            Self::same_config(*old(self), *final(self)),
            final(self).spec_best() == old(self).spec_best(),
            final(self).spec_resources().len() == old(self).spec_resources().len(),
            r is Err ==> r == Result::<(), AbcError>::Err(AbcError::Numeric) && final(self).spec_resources() == old(self).spec_resources(),
            r is Ok ==> forall|i: int|
                0 <= i < old(self).spec_resources().len() ==> greedy_update(
                    old(self).spec_func(),
                    old(self).spec_dim() as nat,
                    old(self).spec_resources()[i],
                    #[trigger] final(self).spec_resources()[i],
                ),
            (all_evaluable(old(self).spec_func(), old(self).spec_resources()) && perturbations_ok(
                old(self).spec_func(),
                old(self).spec_resources(),
                old(self).spec_dim() as nat,
            )) ==> r is Ok,
    {
        let n = self.resources.len();
        let dim = self.dim;
        let mut new_resources: Vec<FoodResource> = Vec::new();
        let mut i: usize = 0;
        while i < n
            invariant
                i <= n,
                self.wf(),
                Self::same_config(*old(self), *self),
                self.spec_best() == old(self).spec_best(),
                self.spec_resources() == old(self).spec_resources(),
                n == self.spec_resources().len(),
                dim == self.spec_dim(),
                forall|m: int|
                    0 <= m < n ==> (#[trigger] self.spec_resources()[m]).spec_count() < usize::MAX,
                new_resources@.len() == i,
                forall|m: int|
                    0 <= m < i ==> greedy_update(
                        self.spec_func(),
                        dim as nat,
                        self.spec_resources()[m],
                        #[trigger] new_resources@[m],
                    ),
            decreases n - i,
        {
            let phi = gen_range_i64(&mut self.rng, -SCALE, SCALE);
            let k = self.rng.gen_range_except(0, n as i64, i as i64) as usize;
            let j = gen_range_i64(&mut self.rng, 0, dim as i64) as usize;
            let xij = self.resources[i].coord(j);
            let xkj = self.resources[k].coord(j);
            match perturb(xij, xkj, phi) {
                None => {
                    proof {
                        assert(!perturbations_ok(self.spec_func(), self.spec_resources(), dim as nat))
                            by {
                            if perturbations_ok(self.spec_func(), self.spec_resources(), dim as nat) {
                                assert(spec_perturb(
                                    self.spec_resources()[i as int].spec_raw()[j as int] as int,
                                    self.spec_resources()[k as int].spec_raw()[j as int] as int,
                                    phi as int,
                                ) is Some);
                                assert(false);
                            }
                        }
                    }
                    return Err(AbcError::Numeric);
                },
                Some(vj) => {
                    let mut cand = self.resources[i].snapshot();
                    cand.set_coord(j, vj);
                    let orig = self.resources[i].fitness(&self.func);
                    let cand_fit = cand.fitness(&self.func);
                    match (orig, cand_fit) {
                        (Ok(po), Ok(pn)) => {
                            if pn.1 > po.1 {
                                cand.reset_count();
                                proof {
                                    assert(same_except(
                                        self.spec_resources()[i as int].spec_raw(),
                                        cand.spec_raw(),
                                        j as int,
                                    ));
                                }
                                new_resources.push(cand);
                            } else {
                                let mut kept = self.resources[i].snapshot();
                                kept.inc_count();
                                proof {
                                    assert(kept.spec_raw()
                                        == self.spec_resources()[i as int].spec_raw());
                                }
                                new_resources.push(kept);
                            }
                        },
                        _ => {
                            proof {
                                if orig is Err {
                                    assert(!evaluable(
                                        self.spec_func(),
                                        (self.spec_resources()[i as int]).spec_raw(),
                                    ));
                                } else {
                                    assert(!evaluable(self.spec_func(), cand.spec_raw()));
                                    assert(!perturbations_ok(
                                        self.spec_func(),
                                        self.spec_resources(),
                                        dim as nat,
                                    )) by {
                                        if perturbations_ok(
                                            self.spec_func(),
                                            self.spec_resources(),
                                            dim as nat,
                                        ) {
                                            assert(evaluable(
                                                self.spec_func(),
                                                self.spec_resources()[i as int].spec_raw().update(
                                                    j as int,
                                                    spec_perturb(
                                                        self.spec_resources()[i as int].spec_raw()[j as int] as int,
                                                        self.spec_resources()[k as int].spec_raw()[j as int] as int,
                                                        phi as int,
                                                    ).unwrap(),
                                                ),
                                            ));
                                            assert(false);
                                        }
                                    }
                                }
                            }
                            return Err(AbcError::Numeric);
                        },
                    }
                },
            }
            i = i + 1;
        }
        self.resources = new_resources;
        Ok(())
    }
}

} // verus!

verus! {

impl<F: Objective> FoodResources<F> {
    /// The onlooker phase: `n` sequential visits.  Each visit draws `r`,
    /// selects a source by roulette wheel over the freshest probabilities,
    /// applies the greedy rule to it, and recomputes the probabilities for
    /// the next visit.  No source's fitness ever drops; on success the whole
    /// population is still evaluable.
    pub fn onlooker_bees_step(&mut self, probs: Vec<i64>) -> (r: Result<(), AbcError>)
        requires
            old(self).wf(),
            probs@.len() == old(self).spec_resources().len(),
            forall|i: int| 0 <= i < probs@.len() ==> 0 <= #[trigger] probs@[i] <= SCALE,
            forall|i: int|
                0 <= i < old(self).spec_resources().len() ==> (#[trigger] old(self).spec_resources()[i]).spec_count() + old(self).spec_resources().len()
                    <= usize::MAX,
        ensures
            final(self).wf(),
            Self::same_config(*old(self), *final(self)),
            final(self).spec_best() == old(self).spec_best(),
            final(self).spec_resources().len() == old(self).spec_resources().len(),
            r is Err ==> r == Result::<(), AbcError>::Err(AbcError::Numeric),
            forall|i: int|
                0 <= i < old(self).spec_resources().len() ==> (#[trigger] final(self).spec_resources()[i]) == old(self).spec_resources()[i] || source_improved(
                    old(self).spec_func(),
                    old(self).spec_resources()[i],
                    final(self).spec_resources()[i],
                ),
            forall|i: int|
                0 <= i < old(self).spec_resources().len() ==> (#[trigger] final(self).spec_resources()[i]).spec_count() <= old(self).spec_resources()[i].spec_count()
                    + old(self).spec_resources().len(),
            r is Ok ==> all_evaluable(final(self).spec_func(), final(self).spec_resources()),
            r is Ok ==> exists|i: int|
                0 <= i < old(self).spec_resources().len() && visibly_advanced(
                    old(self).spec_func(),
                    old(self).spec_resources()[i],
                    #[trigger] final(self).spec_resources()[i],
                ),
    {
        let n = self.resources.len();
        let mut probs = probs;
        let ghost mut touched: int = 0;
        let mut b: usize = 0;
        while b < n
            invariant
                b <= n,
                self.wf(),
                Self::same_config(*old(self), *self),
                self.spec_best() == old(self).spec_best(),
                n == self.spec_resources().len(),
                n == old(self).spec_resources().len(),
                probs@.len() == n,
                forall|i: int| 0 <= i < probs@.len() ==> 0 <= #[trigger] probs@[i] <= SCALE,
                forall|i: int|
                    0 <= i < n ==> (#[trigger] old(self).spec_resources()[i]).spec_count() + n
                        <= usize::MAX,
                forall|i: int|
                    0 <= i < n ==> (#[trigger] self.spec_resources()[i]) == old(self).spec_resources()[i] || source_improved(
                        old(self).spec_func(),
                        old(self).spec_resources()[i],
                        self.spec_resources()[i],
                    ),
                forall|i: int|
                    0 <= i < n ==> (#[trigger] self.spec_resources()[i]).spec_count() <= old(self).spec_resources()[i].spec_count() + b,
                b > 0 ==> all_evaluable(self.spec_func(), self.spec_resources()),
                b == 0 ==> self.spec_resources() == old(self).spec_resources(),
                b > 0 ==> 0 <= touched < n && visibly_advanced(
                    old(self).spec_func(),
                    old(self).spec_resources()[touched],
                    self.spec_resources()[touched],
                ),
            decreases n - b,
        {
            let r = gen_range_i64(&mut self.rng, 0, SCALE);
            let i = choose_probs(r, &probs);
            let k = self.rng.gen_range_except(0, n as i64, i as i64) as usize;
            let j = gen_range_i64(&mut self.rng, 0, self.dim as i64) as usize;
            let phi = gen_range_i64(&mut self.rng, -SCALE, SCALE);
            let xij = self.resources[i].coord(j);
            let xkj = self.resources[k].coord(j);
            match perturb(xij, xkj, phi) {
                None => {
                    return Err(AbcError::Numeric);
                },
                Some(vj) => {
                    let mut cand = self.resources[i].snapshot();
                    cand.set_coord(j, vj);
                    let orig = self.resources[i].fitness(&self.func);
                    let cand_fit = cand.fitness(&self.func);
                    match (orig, cand_fit) {
                        (Ok(po), Ok(pn)) => {
                            if pn.1 > po.1 {
                                cand.reset_count();
                                proof {
                                    assert(source_improved(
                                        self.spec_func(),
                                        self.spec_resources()[i as int],
                                        cand,
                                    ));
                                }
                                self.resources[i] = cand;
                                proof {
                                    if b == 0 || touched == i as int {
                                        touched = i as int;
                                    }
                                }
                            } else {
                                let mut kept = self.resources[i].snapshot();
                                kept.inc_count();
                                proof {
                                    assert(source_improved(
                                        self.spec_func(),
                                        self.spec_resources()[i as int],
                                        kept,
                                    ));
                                }
                                self.resources[i] = kept;
                                proof {
                                    if b == 0 || touched == i as int {
                                        touched = i as int;
                                    }
                                }
                            }
                        },
                        _ => {
                            return Err(AbcError::Numeric);
                        },
                    }
                },
            }
            match self.calculate_probs() {
                Ok(p) => {
                    probs = p;
                },
                Err(_) => {
                    return Err(AbcError::Numeric);
                },
            }
            b = b + 1;
        }
        proof {
            assert(visibly_advanced(
                old(self).spec_func(),
                old(self).spec_resources()[touched],
                self.spec_resources()[touched],
            ));
        }
        Ok(())
    }
}

} // verus!

verus! {

/// Every coordinate of `raw` lies in `[lo, hi)`.
pub open spec fn in_bounds(raw: Seq<i64>, lo: i64, hi: i64) -> bool {
    forall|j: int| 0 <= j < raw.len() ==> lo <= #[trigger] raw[j] < hi
}

/// `best` is at least as fit as every source of the population.
pub open spec fn best_dominates<F: Objective>(
    func: F,
    srcs: Seq<FoodResource>,
    best: FoodResource,
) -> bool {
    forall|i: int|
        0 <= i < srcs.len() ==> fit_of(func, (#[trigger] srcs[i]).spec_raw()) <= fit_of(
            func,
            best.spec_raw(),
        )
}

/// The objective is defined on every position the colony can draw: every
/// `dim`-length vector with all coordinates in `[lo, hi)`.
pub open spec fn range_evaluable<F: Objective>(func: F, dim: nat, lo: i64, hi: i64) -> bool {
    forall|raw: Seq<i64>|
        raw.len() == dim && in_bounds(raw, lo, hi) ==> #[trigger] evaluable(func, raw)
}

/// Every candidate one perturbation step can breed from this population —
/// any source `i`, neighbor `k`, coordinate `j` and factor `phi` in their
/// ranges — is representable and evaluable.
pub open spec fn perturbations_ok<F: Objective>(func: F, srcs: Seq<FoodResource>, dim: nat) -> bool {
    forall|i: int, k: int, j: int, phi: int|
        0 <= i < srcs.len() && 0 <= k < srcs.len() && 0 <= j < dim && -(SCALE as int) <= phi
            < SCALE as int ==> ((#[trigger] spec_perturb(
            srcs[i].spec_raw()[j] as int,
            srcs[k].spec_raw()[j] as int,
            phi,
        )) is Some && evaluable(
            func,
            srcs[i].spec_raw().update(
                j,
                spec_perturb(srcs[i].spec_raw()[j] as int, srcs[k].spec_raw()[j] as int, phi).unwrap(),
            ),
        ))
}

/// A foraging visit left its mark on a source: it stands strictly fitter
/// than at phase start, or unchanged but with a larger trial count.
pub open spec fn visibly_advanced<F: Objective>(
    func: F,
    pre: FoodResource,
    post: FoodResource,
) -> bool {
    ||| (evaluable(func, pre.spec_raw()) && evaluable(func, post.spec_raw()) && fit_of(
        func,
        post.spec_raw(),
    ) > fit_of(func, pre.spec_raw()))
    ||| (post.spec_raw() == pre.spec_raw() && post.spec_count() > pre.spec_count())
}

/// What one scout pass does to the population: a source below the
/// abandonment limit is left exactly as it was; a stale one has its count
/// cleared (its position was resampled).
pub open spec fn scout_effect(pre: Seq<FoodResource>, post: Seq<FoodResource>, limit: nat) -> bool {
    &&& post.len() == pre.len()
    &&& forall|i: int|
        0 <= i < pre.len() ==> (((#[trigger] pre[i]).spec_count() < limit ==> post[i] == pre[i])
            && (pre[i].spec_count() >= limit ==> post[i].spec_count() == 0))
}

impl<F: Objective> FoodResources<F> {
    /// The scout phase: a source whose trial count reached the abandonment
    /// limit is resampled afresh from the configured range; afterwards every
    /// source is compared against `best`, which moves only to a strictly
    /// fitter position and only as a copy of a live source.  On success
    /// `best` is at least as fit as every source, so a back-to-back second
    /// pass over an already settled population leaves `best` untouched too.
    pub fn explorer_bees_step(&mut self) -> (r: Result<(), AbcError>)
        requires
            old(self).wf(),
        ensures
            final(self).wf(),
            Self::same_config(*old(self), *final(self)),
            final(self).spec_resources().len() == old(self).spec_resources().len(),
            best_advance(old(self).spec_func(), old(self).spec_best(), final(self).spec_best()),
            r is Err ==> r == Result::<(), AbcError>::Err(AbcError::Numeric),
            forall|i: int|
                0 <= i < old(self).spec_resources().len() ==> (#[trigger] final(self).spec_resources()[i]) == old(self).spec_resources()[i] || ((
                #[trigger] old(self).spec_resources()[i]).spec_count() >= old(self).spec_limit()
                    && final(self).spec_resources()[i].spec_count() == 0),
            r is Ok ==> scout_effect(
                old(self).spec_resources(),
                final(self).spec_resources(),
                old(self).spec_limit() as nat,
            ),
            r is Ok ==> forall|i: int|
                0 <= i < final(self).spec_resources().len() ==> (#[trigger] final(self).spec_resources()[i]).spec_count() < final(self).spec_limit(),
            r is Ok ==> evaluable(final(self).spec_func(), final(self).spec_best().spec_raw()),
            r is Ok ==> evaluable(old(self).spec_func(), old(self).spec_best().spec_raw()),
            final(self).spec_best() == old(self).spec_best() || exists|i: int|
                0 <= i < final(self).spec_resources().len() && final(self).spec_best().spec_raw()
                    == (#[trigger] final(self).spec_resources()[i]).spec_raw(),
            r is Ok ==> best_dominates(
                old(self).spec_func(),
                final(self).spec_resources(),
                final(self).spec_best(),
            ),
            r is Ok ==> forall|i: int|
                0 <= i < old(self).spec_resources().len() && (#[trigger] old(self).spec_resources()[i]).spec_count() >= old(self).spec_limit() ==> in_bounds(
                    final(self).spec_resources()[i].spec_raw(),
                    old(self).spec_lo(),
                    old(self).spec_hi(),
                ),
            (r is Ok && best_dominates(
                old(self).spec_func(),
                old(self).spec_resources(),
                old(self).spec_best(),
            ) && (forall|i: int|
                0 <= i < old(self).spec_resources().len() ==> (#[trigger] old(self).spec_resources()[i]).spec_count() < old(self).spec_limit())) ==> final(self).spec_best()
                == old(self).spec_best(),
    {
        let n = self.resources.len();
        let ghost mut best_src: int = -1;
        let mut i: usize = 0;
        while i < n
            invariant
                i <= n,
                self.wf(),
                Self::same_config(*old(self), *self),
                n == self.spec_resources().len(),
                n == old(self).spec_resources().len(),
                best_advance(old(self).spec_func(), old(self).spec_best(), self.spec_best()),
                i == 0 ==> self.spec_best() == old(self).spec_best(),
                i > 0 ==> evaluable(old(self).spec_func(), old(self).spec_best().spec_raw()),
                best_src == -1 ==> self.spec_best() == old(self).spec_best(),
                best_src != -1 ==> 0 <= best_src < i && self.spec_best().spec_raw() == (
                self.spec_resources()[best_src]).spec_raw(),
                forall|m: int|
                    0 <= m < i ==> fit_of(
                        old(self).spec_func(),
                        (#[trigger] self.spec_resources()[m]).spec_raw(),
                    ) <= fit_of(old(self).spec_func(), self.spec_best().spec_raw()),
                forall|m: int|
                    0 <= m < i && (#[trigger] old(self).spec_resources()[m]).spec_count() >= old(self).spec_limit() ==> in_bounds(
                        self.spec_resources()[m].spec_raw(),
                        old(self).spec_lo(),
                        old(self).spec_hi(),
                    ),
                (best_dominates(
                    old(self).spec_func(),
                    old(self).spec_resources(),
                    old(self).spec_best(),
                ) && (forall|m: int|
                    0 <= m < n ==> (#[trigger] old(self).spec_resources()[m]).spec_count() < old(self).spec_limit())) ==> self.spec_best() == old(self).spec_best(),
                forall|m: int|
                    i <= m < n ==> (#[trigger] self.spec_resources()[m]) == old(self).spec_resources()[m],
                forall|m: int|
                    0 <= m < i ==> (((#[trigger] old(self).spec_resources()[m]).spec_count() < old(self).spec_limit() ==> self.spec_resources()[m] == old(self).spec_resources()[m])
                        && (old(self).spec_resources()[m].spec_count() >= old(self).spec_limit() ==> self.spec_resources()[m].spec_count() == 0)),
                forall|m: int|
                    0 <= m < i ==> (#[trigger] self.spec_resources()[m]).spec_count() < self.spec_limit(),
                i > 0 ==> evaluable(self.spec_func(), self.spec_best().spec_raw()),
            decreases n - i,
        {
            if self.resources[i].count() >= self.limit {
                let fresh = FoodResource::new(self.dim, self.lo, self.hi, &mut self.rng);
                self.resources[i] = fresh;
            }
            let this_fit = match self.resources[i].fitness(&self.func) {
                Ok(p) => p.1,
                Err(_) => {
                    proof {
                        if best_src != -1 {
                            assert(self.spec_best().spec_raw() == (
                            self.spec_resources()[best_src]).spec_raw());
                        }
                    }
                    return Err(AbcError::Numeric);
                },
            };
            let best_fit = match self.best.fitness(&self.func) {
                Ok(p) => p.1,
                Err(_) => {
                    proof {
                        if best_src != -1 {
                            assert(self.spec_best().spec_raw() == (
                            self.spec_resources()[best_src]).spec_raw());
                        }
                    }
                    return Err(AbcError::Numeric);
                },
            };
            if this_fit > best_fit {
                self.best = self.resources[i].snapshot();
                proof {
                    best_src = i as int;
                    assert(self.spec_best().spec_raw() == (
                    self.spec_resources()[best_src]).spec_raw());
                }
            }
            i = i + 1;
        }
        proof {
            if best_src != -1 {
                assert(self.spec_best().spec_raw() == (self.spec_resources()[best_src]).spec_raw());
            }
        }
        Ok(())
    }

    /// One full iteration: employed phase, probability computation, onlooker
    /// phase, scout phase, in that fixed order.  The best snapshot never
    /// loses fitness; on success every trial count is below the abandonment
    /// limit, so steps can be chained indefinitely.
    pub fn step(&mut self) -> (r: Result<(), AbcError>)
        requires
            old(self).wf(),
            forall|i: int|
                0 <= i < old(self).spec_resources().len() ==> (#[trigger] old(self).spec_resources()[i]).spec_count() + old(self).spec_resources().len() + 1
                    <= usize::MAX,
        ensures
            final(self).wf(),
            Self::same_config(*old(self), *final(self)),
            final(self).spec_resources().len() == old(self).spec_resources().len(),
            best_advance(old(self).spec_func(), old(self).spec_best(), final(self).spec_best()),
            r is Err ==> r == Result::<(), AbcError>::Err(AbcError::Numeric),
            r is Ok ==> forall|i: int|
                0 <= i < final(self).spec_resources().len() ==> (#[trigger] final(self).spec_resources()[i]).spec_count() < final(self).spec_limit(),
            r is Ok ==> best_dominates(
                old(self).spec_func(),
                final(self).spec_resources(),
                final(self).spec_best(),
            ),
            r is Ok ==> evaluable(old(self).spec_func(), final(self).spec_best().spec_raw()),
    {
        match self.employed_bees_step() {
            Err(e) => {
                return Err(e);
            },
            Ok(()) => {},
        }
        let probs = match self.calculate_probs() {
            Ok(p) => p,
            Err(_) => {
                return Err(AbcError::Numeric);
            },
        };
        match self.onlooker_bees_step(probs) {
            Err(e) => {
                return Err(e);
            },
            Ok(()) => {},
        }
        match self.explorer_bees_step() {
            Err(e) => {
                return Err(e);
            },
            Ok(()) => {},
        }
        Ok(())
    }

    /// The best source observed so far.
    pub fn best(&self) -> (r: &FoodResource)
        ensures
            *r == self.spec_best(),
    {
        &self.best
    }

    /// The live population.
    pub fn resources(&self) -> (r: &Vec<FoodResource>)
        ensures
            r@ == self.spec_resources(),
    {
        &self.resources
    }

    /// The objective.
    pub fn func(&self) -> (r: &F)
        ensures
            *r == self.spec_func(),
    {
        &self.func
    }

    /// The dimension.
    pub fn dim(&self) -> (r: usize)
        ensures
            r == self.spec_dim(),
    {
        self.dim
    }

    /// The abandonment limit.
    pub fn limit(&self) -> (r: usize)
        ensures
            r == self.spec_limit(),
    {
        self.limit
    }
}

/// Best-fitness monotonicity composes: across any two leaps of the best
/// snapshot — hence, by induction, across any sequence of steps — the best
/// either stands still or strictly gains fitness.
pub proof fn lemma_best_advance_trans<F: Objective>(func: F, a: FoodResource, b: FoodResource, c: FoodResource)
    requires
        best_advance(func, a, b),
        best_advance(func, b, c),
    ensures
        best_advance(func, a, c),
{
}

/// Running the scout phase twice in a row is a no-op on every source whose
/// trial count was already zero: the first pass leaves it untouched, and the
/// second pass sees the same count again.  (That the second pass also leaves
/// `best` untouched is part of the scout phase's own contract, through its
/// dominance clause.)
pub proof fn lemma_scout_twice_noop(
    pre: Seq<FoodResource>,
    mid: Seq<FoodResource>,
    post: Seq<FoodResource>,
    limit: nat,
)
    requires
        limit >= 1,
        scout_effect(pre, mid, limit),
        scout_effect(mid, post, limit),
    ensures
        forall|i: int|
            0 <= i < pre.len() && (#[trigger] pre[i]).spec_count() == 0 ==> post[i] == pre[i]
                && mid[i] == pre[i],
{
}

} // verus!

verus! {

impl FoodResource {
    /// A source standing at a chosen position, with a zero trial count —
    /// for callers that evaluate given points rather than random draws.
    pub fn from_position(raw: Vec<i64>) -> (r: Self)
        ensures
            r.spec_raw() == raw@,
            r.spec_count() == 0,
    {
        FoodResource { raw, count: 0 }
    }
}

} // verus!
