//! The random source and the fitness-proportional selection rule.

use vstd::prelude::*;
use crate::fixed::SCALE;

verus! {

/// Relies on `rand::rngs::StdRng` being an ordinary owned value: declared
/// opaquely so the colony can hold its random source in a field and thread
/// it through the phases.
#[verifier::external_type_specification]
#[verifier::external_body]
pub struct ExStdRng(rand::rngs::StdRng);

/// Relies on `rand::Rng::gen_range` over the range `lo..hi`: the result is
/// uniform in `[lo, hi)`; the call panics only on an empty range, which the
/// precondition rules out.
#[verifier::external_body]
pub(crate) fn gen_range_i64(rng: &mut rand::rngs::StdRng, lo: i64, hi: i64) -> (r: i64)
    requires
        lo < hi,
    ensures
        lo <= r < hi,
{
    rand::Rng::gen_range(rng, lo..hi)
}

/// A uniform draw from an integer range with one value excluded.
pub trait MoreRandom {
    /// Draws uniformly from `[lo, hi)` without ever returning `except`.
    /// The range must keep at least one valid value.
    fn gen_range_except(&mut self, lo: i64, hi: i64, except: i64) -> (r: i64)
        requires
            lo + 1 < hi,
            lo <= except < hi,
        ensures
            lo <= r < hi,
            r != except,
    ;
}

impl MoreRandom for rand::rngs::StdRng {
    fn gen_range_except(&mut self, lo: i64, hi: i64, except: i64) -> (r: i64) {
        let v = gen_range_i64(self, lo, hi - 1);
        if v >= except {
            v + 1
        } else {
            v
        }
    }
}

/// The running sum of the first `n` entries of `probs`.
pub open spec fn prefix_sum(probs: Seq<i64>, n: int) -> int
    decreases n,
{
    if n <= 0 {
        0
    } else {
        prefix_sum(probs, n - 1) + probs[n - 1]
    }
}

/// Appending an entry does not change the sum of an untouched prefix.
pub proof fn lemma_prefix_sum_push(s: Seq<i64>, x: i64, n: int)
    requires
        0 <= n <= s.len(),
    ensures
        prefix_sum(s.push(x), n) == prefix_sum(s, n),
    decreases n,
{
    if n > 0 {
        lemma_prefix_sum_push(s, x, n - 1);
        assert(s.push(x)[n - 1] == s[n - 1]);
    }
}

/// Over non-negative entries the prefix sum is non-negative, monotone in its
/// length, and dominates every single entry it covers.
pub proof fn lemma_prefix_sum_bounds(s: Seq<i64>, i: int, n: int)
    requires
        0 <= i < n <= s.len(),
        forall|m: int| 0 <= m < s.len() ==> 0 <= #[trigger] s[m],
    ensures
        s[i] as int <= prefix_sum(s, n),
        prefix_sum(s, n) >= 0,
    decreases n,
{
    if n == i + 1 {
        if n > 1 {
            lemma_prefix_sum_nonneg(s, n - 1);
        }
    } else {
        lemma_prefix_sum_bounds(s, i, n - 1);
    }
}

/// The prefix sum of non-negative entries is non-negative.
pub proof fn lemma_prefix_sum_nonneg(s: Seq<i64>, n: int)
    requires
        0 <= n <= s.len(),
        forall|m: int| 0 <= m < s.len() ==> 0 <= #[trigger] s[m],
    ensures
        prefix_sum(s, n) >= 0,
    decreases n,
{
    if n > 0 {
        lemma_prefix_sum_nonneg(s, n - 1);
    }
}

/// Roulette-wheel selection: walks the probabilities in population order and
/// returns the first index whose cumulative sum reaches `rand`; when rounding
/// leaves no such index, returns the last one.
pub fn choose_probs(rand: i64, probs: &Vec<i64>) -> (idx: usize)
    requires
        probs@.len() >= 1,
        forall|i: int| 0 <= i < probs@.len() ==> 0 <= #[trigger] probs@[i] <= SCALE,
    ensures
        idx < probs@.len(),
        forall|m: int| 1 <= m <= idx ==> #[trigger] prefix_sum(probs@, m) < rand as int,
        prefix_sum(probs@, idx as int + 1) >= rand as int || idx as int == probs@.len() - 1,
{
    proof {
        assert(prefix_sum(probs@, 0) == 0);
    }
    let mut acc: i128 = probs[0] as i128;
    let mut idx: usize = 0;
    while acc < rand as i128 && idx < probs.len() - 1
        invariant
            0 <= idx < probs@.len(),
            forall|i: int| 0 <= i < probs@.len() ==> 0 <= #[trigger] probs@[i] <= SCALE,
            acc as int == prefix_sum(probs@, idx as int + 1),
            0 <= acc as int <= (idx as int + 1) * (SCALE as int),
            forall|m: int| 1 <= m <= idx ==> #[trigger] prefix_sum(probs@, m) < rand as int,
        decreases probs@.len() - idx,
    {
        idx = idx + 1;
        acc = acc + probs[idx] as i128;
    }
    idx
}

} // verus!
