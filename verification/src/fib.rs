//! Fibonacci, modulo a large prime, as an instance of the memoizing
//! evaluator: the recurrence `n < 2 -> n`, otherwise the sum of the two
//! predecessors, reduced modulo `FIB_MOD`.

use vstd::prelude::*;
use std::collections::HashMap;
use crate::dp_trait::DP;

verus! {

/// The recurrence's answers are residues modulo this prime.
pub const FIB_MOD: u64 = 1_000_000_007;

/// The value the evaluator is meant to produce for key `n`.
pub open spec fn spec_fib(n: nat) -> nat
    decreases n,
{
    if n < 2 {
        n
    } else {
        (spec_fib((n - 2) as nat) + spec_fib((n - 1) as nat)) % (FIB_MOD as nat)
    }
}

/// Every answer of the recurrence is a residue: it fits well below `u64`.
pub proof fn lemma_spec_fib_bound(n: nat)
    ensures
        spec_fib(n) < FIB_MOD,
{
    if n < 2 {
    } else {
        assert(spec_fib(n) == (spec_fib((n - 2) as nat) + spec_fib((n - 1) as nat)) % (
        FIB_MOD as nat));
    }
}

/// A memoizing Fibonacci evaluator: one memo table, and a counter of
/// solve-step invocations (each distinct key is solved at most once, so
/// the counter never exceeds the number of keys the table holds).
pub struct Fib {
    memo: HashMap<u64, Option<u64>>,
    calls: u64,
}

impl Fib {
    /// How often the solve step has run on this table.
    pub closed spec fn spec_calls(&self) -> u64 {
        self.calls
    }

    /// Every resolved cell of the table holds the recurrence's value.
    pub open spec fn resolved_ok(&self) -> bool {
        forall|k: u64|
            #[trigger] self.table().contains_key(k) && self.table()[k] is Some
                ==> self.table()[k]->Some_0 as nat == spec_fib(k as nat)
    }

    /// Every pending cell of the table sits strictly above `m`: the keys
    /// still in flight are exactly the ancestors of the current call.
    pub open spec fn pending_gt(&self, m: int) -> bool {
        forall|k: u64|
            #[trigger] self.table().contains_key(k) && self.table()[k] is None ==> k > m
    }

    /// The two evaluators have the same keys in flight.
    pub open spec fn same_pending(&self, other: &Fib) -> bool {
        forall|k: u64|
            (#[trigger] self.table().contains_key(k) && self.table()[k] is None) <==> (
            #[trigger] other.table().contains_key(k) && other.table()[k] is None)
    }

    /// A fresh evaluator: empty table, no solve step run yet.
    pub fn new() -> (f: Fib)
        ensures
            f.table() == Map::<u64, Option<u64>>::empty(),
            f.spec_calls() == 0,
    {
        Fib { memo: HashMap::new(), calls: 0 }
    }

    /// How often the solve step has run, as an observable count.
    pub fn solve_count(&self) -> (c: u64)
        ensures
            c == self.spec_calls(),
    {
        self.calls
    }
}

impl DP<u64, u64> for Fib {
    closed spec fn table(&self) -> Map<u64, Option<u64>> {
        self.memo@
    }

    fn get(&self, args: &u64) -> (r: Option<Option<u64>>) {
        match self.memo.get(args) {
            Some(c) => Some(*c),
            None => None,
        }
    }

    fn insert(&mut self, k: u64, v: Option<u64>) {
        self.memo.insert(k, v);
    }

    /// One step of the recurrence. Starting from a table whose resolved
    /// cells are right and whose in-flight keys all lie above `args`,
    /// it succeeds with exactly the recurrence's value.
    fn solve(&mut self, args: u64) -> (r: Result<u64, u64>)
        ensures
            old(self).resolved_ok() && old(self).pending_gt(args as int - 1) ==> {
                &&& r is Ok
                &&& r->Ok_0 as nat == spec_fib(args as nat)
                &&& final(self).resolved_ok()
                &&& old(self).same_pending(final(self))
            },
        decreases args, 0nat,
    {
        if args < 2 {
            Ok(args)
        } else {
            let a = match self.eval(args - 2) {
                Ok(v) => v,
                Err(e) => {
                    return Err(e);
                },
            };
            let b = match self.eval(args - 1) {
                Ok(v) => v,
                Err(e) => {
                    return Err(e);
                },
            };
            proof {
                if old(self).resolved_ok() && old(self).pending_gt(args as int - 1) {
                    lemma_spec_fib_bound((args - 2) as nat);
                    lemma_spec_fib_bound((args - 1) as nat);
                }
            }
            Ok(((a % FIB_MOD) + (b % FIB_MOD)) % FIB_MOD)
        }
    }

    /// The evaluator, carrying its own termination measure: the solve
    /// step only ever asks for strictly smaller keys, so on any table
    /// this recurrence can reach, a cycle cannot arise and evaluation
    /// succeeds.
    fn eval(&mut self, args: u64) -> (r: Result<u64, u64>)
        ensures
            old(self).resolved_ok() && old(self).pending_gt(args as int) ==> {
                &&& r is Ok
                &&& r->Ok_0 as nat == spec_fib(args as nat)
                &&& final(self).resolved_ok()
                &&& old(self).same_pending(final(self))
            },
        decreases args, 1nat,
    {
        let cached = self.get(&args);
        match cached {
            Some(Some(v)) => Ok(v),
            Some(None) => Err(args),
            None => {
                self.insert(args, None);
                if self.calls < u64::MAX {
                    self.calls = self.calls + 1;
                }
                match self.solve(args) {
                    Ok(v) => {
                        self.insert(args, Some(v));
                        Ok(v)
                    },
                    Err(e) => Err(e),
                }
            },
        }
    }
}

/// Fibonacci of `n`, modulo `FIB_MOD`: a full run of the memoizing
/// evaluator on a fresh table.
pub fn fib(n: u64) -> (r: u64)
    ensures
        r as nat == spec_fib(n as nat),
{
    let mut f = Fib::new();
    match f.eval(n) {
        Ok(v) => v,
        Err(_) => {
            proof {
                assert(false);
            }
            0
        },
    }
}

} // verus!
