//! Bounded knapsack as a memoized recurrence: over the first `n` items,
//! with remaining capacity `k`, either skip item `n` or, when its weight
//! fits, take it. The items (values and weights) are the run's read-only
//! auxiliary context; the sub-problem key is the pair `(n, k)`.

use vstd::prelude::*;
use std::collections::HashMap;

verus! {

/// Sum of the first `n` values.
pub open spec fn sum_prefix(vals: Seq<i32>, n: nat) -> int
    recommends
        n <= vals.len(),
    decreases n,
{
    if n == 0 {
        0
    } else {
        sum_prefix(vals, (n - 1) as nat) + vals[n - 1]
    }
}

/// The best value attainable from the first `n` items with capacity `k`.
pub open spec fn spec_knapsack(vals: Seq<i32>, wts: Seq<i32>, n: nat, k: int) -> int
    recommends
        n <= vals.len(),
        wts.len() == vals.len(),
    decreases n,
{
    if n == 0 {
        0
    } else {
        let skip = spec_knapsack(vals, wts, (n - 1) as nat, k);
        if k >= wts[n - 1] {
            let take = spec_knapsack(vals, wts, (n - 1) as nat, k - wts[n - 1]) + vals[n - 1];
            if take > skip {
                take
            } else {
                skip
            }
        } else {
            skip
        }
    }
}

/// With nonnegative values, every answer lies between zero and the sum
/// of the values considered.
pub proof fn lemma_knapsack_bounds(vals: Seq<i32>, wts: Seq<i32>, n: nat, k: int)
    requires
        n <= vals.len(),
        wts.len() == vals.len(),
        forall|i: int| 0 <= i < vals.len() ==> vals[i] >= 0,
    ensures
        0 <= spec_knapsack(vals, wts, n, k) <= sum_prefix(vals, n),
    decreases n,
{
    if n > 0 {
        lemma_knapsack_bounds(vals, wts, (n - 1) as nat, k);
        if k >= wts[n - 1] {
            lemma_knapsack_bounds(vals, wts, (n - 1) as nat, k - wts[n - 1]);
        }
    }
}

/// With nonnegative values, prefix sums grow with the prefix.
pub proof fn lemma_sum_prefix_mono(vals: Seq<i32>, n: nat, m: nat)
    requires
        n <= m <= vals.len(),
        forall|i: int| 0 <= i < vals.len() ==> vals[i] >= 0,
    ensures
        sum_prefix(vals, n) <= sum_prefix(vals, m),
    decreases m,
{
    if n < m {
        lemma_sum_prefix_mono(vals, n, (m - 1) as nat);
    }
}

/// A memoizing knapsack evaluator: the items as context, and one memo
/// row per item count, each row keyed by the remaining capacity.
struct Knapsack {
    values: Vec<i32>,
    weights: Vec<i32>,
    memo: Vec<HashMap<i32, Option<i32>>>,
}

impl Knapsack {
    /// Shape of a well-formed run: matching item lists, nonnegative
    /// entries, a total that fits the answer type, one memo row per
    /// possible `n`.
    spec fn wf(&self) -> bool {
        &&& self.values@.len() == self.weights@.len()
        &&& self.memo@.len() == self.values@.len() + 1
        &&& forall|i: int| 0 <= i < self.values@.len() ==> self.values@[i] >= 0
        &&& forall|i: int| 0 <= i < self.weights@.len() ==> self.weights@[i] >= 0
        &&& sum_prefix(self.values@, self.values@.len()) <= i32::MAX
    }

    /// Key `(n, kk)` is pending: its computation is in flight.
    spec fn pending_at(&self, n: int, kk: i32) -> bool {
        &&& 0 <= n < self.memo@.len()
        &&& self.memo@[n]@.contains_key(kk)
        &&& self.memo@[n]@[kk] is None
    }

    /// Every resolved cell holds the recurrence's value for its key.
    spec fn resolved_ok(&self) -> bool {
        forall|n: int, kk: i32|
            0 <= n < self.memo@.len() && #[trigger] self.memo@[n]@.contains_key(kk)
                && self.memo@[n]@[kk] is Some
                ==> self.memo@[n]@[kk]->Some_0 as int == spec_knapsack(
                    self.values@,
                    self.weights@,
                    n as nat,
                    kk as int,
                )
    }

    /// Every pending key works on strictly more than `m` items: the keys
    /// in flight are exactly the ancestors of the current call.
    spec fn pending_gt(&self, m: int) -> bool {
        forall|n: int, kk: i32| #[trigger] self.pending_at(n, kk) ==> n > m
    }

    /// Evaluate key `(n, k)`: answer from the memo table if resolved,
    /// otherwise mark it pending, run the recurrence step, cache the
    /// answer. A pending hit cannot arise: every key in flight works on
    /// more items than any key it asks for.
    fn eval_key(&mut self, n: usize, k: i32) -> (r: i32)
        requires
            old(self).wf(),
            n < old(self).memo@.len(),
            old(self).resolved_ok(),
            old(self).pending_gt(n as int),
        ensures
            final(self).wf(),
            final(self).values == old(self).values,
            final(self).weights == old(self).weights,
            final(self).memo@.len() == old(self).memo@.len(),
            final(self).resolved_ok(),
            forall|m: int, kk: i32|
                final(self).pending_at(m, kk) <==> old(self).pending_at(m, kk),
            r as int == spec_knapsack(old(self).values@, old(self).weights@, n as nat, k as int),
        decreases n, 1nat,
    {
        let cached = match self.memo[n].get(&k) {
            Some(c) => Some(*c),
            None => None,
        };
        match cached {
            Some(Some(v)) => {
                return v;
            },
            Some(None) => {
                proof {
                    assert(old(self).pending_at(n as int, k));
                    assert(false);
                }
                return 0;
            },
            None => {},
        }
        self.memo[n].insert(k, None);
        let ghost s1 = *self;
        proof {
            assert forall|m: int, kk: i32| s1.pending_at(m, kk) implies m > n as int - 1 by {
                if !(m == n as int && kk == k) {
                    assert(old(self).pending_at(m, kk));
                }
            }
        }
        let v = self.solve_key(n, k);
        let ghost s2 = *self;
        self.memo[n].insert(k, Some(v));
        proof {
            assert forall|m: int, kk: i32|
                final(self).pending_at(m, kk) <==> old(self).pending_at(m, kk) by {
                if final(self).pending_at(m, kk) {
                    assert(s2.pending_at(m, kk));
                    assert(s1.pending_at(m, kk));
                }
                if old(self).pending_at(m, kk) {
                    assert(s1.pending_at(m, kk));
                    assert(s2.pending_at(m, kk));
                }
            }
            assert forall|m: int, kk: i32|
                0 <= m < final(self).memo@.len()
                    && #[trigger] final(self).memo@[m]@.contains_key(kk)
                    && final(self).memo@[m]@[kk] is Some
                implies final(self).memo@[m]@[kk]->Some_0 as int == spec_knapsack(
                final(self).values@,
                final(self).weights@,
                m as nat,
                kk as int,
            ) by {
                if !(m == n as int && kk == k) {
                    assert(s2.memo@[m]@.contains_key(kk) && s2.memo@[m]@[kk] is Some);
                }
            }
        }
        v
    }

    /// One step of the recurrence: skip item `n`, or take it when its
    /// weight fits, asking the evaluator for both sub-problems.
    fn solve_key(&mut self, n: usize, k: i32) -> (r: i32)
        requires
            old(self).wf(),
            n < old(self).memo@.len(),
            old(self).resolved_ok(),
            old(self).pending_gt(n as int - 1),
        ensures
            final(self).wf(),
            final(self).values == old(self).values,
            final(self).weights == old(self).weights,
            final(self).memo@.len() == old(self).memo@.len(),
            final(self).resolved_ok(),
            forall|m: int, kk: i32|
                final(self).pending_at(m, kk) <==> old(self).pending_at(m, kk),
            r as int == spec_knapsack(old(self).values@, old(self).weights@, n as nat, k as int),
        decreases n, 0nat,
    {
        if n == 0 {
            return 0;
        }
        let mut ans = self.eval_key(n - 1, k);
        let w = self.weights[n - 1];
        if k >= w {
            let sub = self.eval_key(n - 1, k - w);
            let v = self.values[n - 1];
            proof {
                lemma_knapsack_bounds(
                    self.values@,
                    self.weights@,
                    (n - 1) as nat,
                    k - w,
                );
                lemma_sum_prefix_mono(self.values@, n as nat, self.values@.len());
            }
            let take = sub + v;
            if take > ans {
                ans = take;
            }
        }
        ans
    }
}

/// The root entry with an explicit initial key: the best value over the
/// first `n` items with capacity `k`, computed on a fresh memo table.
pub fn knapsack_from(values: Vec<i32>, weights: Vec<i32>, n: usize, k: i32) -> (r: i32)
    requires
        values@.len() == weights@.len(),
        n <= values@.len(),
        forall|i: int| 0 <= i < values@.len() ==> values@[i] >= 0,
        forall|i: int| 0 <= i < weights@.len() ==> weights@[i] >= 0,
        sum_prefix(values@, values@.len()) <= i32::MAX,
    ensures
        r as int == spec_knapsack(values@, weights@, n as nat, k as int),
{
    let mut memo: Vec<HashMap<i32, Option<i32>>> = Vec::new();
    while memo.len() <= values.len()
        invariant
            memo@.len() <= values@.len() + 1,
            forall|i: int, kk: i32| 0 <= i < memo@.len()
                ==> !(#[trigger] memo@[i]@.contains_key(kk)),
        decreases values@.len() + 1 - memo@.len(),
    {
        memo.push(HashMap::new());
    }
    let mut ks = Knapsack { values, weights, memo };
    ks.eval_key(n, k)
}

/// The externally callable entry: the item count is not supplied by the
/// caller but resolved from the context, as `n = values.len()`.
pub fn knapsack(values: Vec<i32>, weights: Vec<i32>, k: i32) -> (r: i32)
    requires
        values@.len() == weights@.len(),
        forall|i: int| 0 <= i < values@.len() ==> values@[i] >= 0,
        forall|i: int| 0 <= i < weights@.len() ==> weights@[i] >= 0,
        sum_prefix(values@, values@.len()) <= i32::MAX,
    ensures
        r as int == spec_knapsack(values@, weights@, values@.len(), k as int),
{
    let n = values.len();
    knapsack_from(values, weights, n, k)
}

} // verus!
