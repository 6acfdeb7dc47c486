use dp_engine::DP;
use dp_engine::edit_distance::{edit_distance, edit_distance_from};
use dp_engine::fib::{fib, Fib};
use dp_engine::knapsack::{knapsack, knapsack_from};
use std::collections::HashMap;
use vstd::prelude::Map;

/// A solve step that re-enters the evaluator on its own key.
struct Cyclic {
    memo: HashMap<u32, Option<u32>>,
}

impl DP<u32, u32> for Cyclic {
    // The memo table's ghost view: a specification-only member of the
    // trait, never called at run time.
    fn table(&self) -> Map<u32, Option<u32>> {
        unreachable!()
    }

    fn get(&self, n: &u32) -> Option<Option<u32>> {
        self.memo.get(n).cloned()
    }

    fn insert(&mut self, k: u32, v: Option<u32>) {
        self.memo.insert(k, v);
    }

    fn solve(&mut self, n: u32) -> Result<u32, u32> {
        self.eval(n)
    }
}

#[test]
fn cycle_is_detected() {
    let mut c = Cyclic {
        memo: HashMap::new(),
    };
    assert_eq!(c.eval(7), Err(7));
    assert_eq!(c.eval(0), Err(0));
}

/// A well-founded recurrence whose solve step counts its invocations.
struct CountingFib {
    memo: HashMap<u32, Option<u64>>,
    calls: u32,
}

impl DP<u32, u64> for CountingFib {
    // The memo table's ghost view: a specification-only member of the
    // trait, never called at run time.
    fn table(&self) -> Map<u32, Option<u64>> {
        unreachable!()
    }

    fn get(&self, n: &u32) -> Option<Option<u64>> {
        self.memo.get(n).cloned()
    }

    fn insert(&mut self, k: u32, v: Option<u64>) {
        self.memo.insert(k, v);
    }

    fn solve(&mut self, n: u32) -> Result<u64, u32> {
        self.calls += 1;
        if n < 2 {
            return Ok(n as u64);
        }
        Ok((self.eval(n - 1)? + self.eval(n - 2)?) % 1_000_000_007)
    }
}

#[test]
fn evaluate_twice_returns_identical_value_without_recomputation() {
    let mut f = CountingFib {
        memo: HashMap::new(),
        calls: 0,
    };
    let first = f.eval(12).unwrap();
    let calls_after_first = f.calls;
    let second = f.eval(12).unwrap();
    assert_eq!(first, second);
    assert_eq!(f.calls, calls_after_first);
}

#[test]
fn solve_runs_once_per_distinct_key() {
    // A naive evaluation of fib(20) would take thousands of solve steps;
    // the memoized run takes one per distinct key reachable from the root.
    let mut f = CountingFib {
        memo: HashMap::new(),
        calls: 0,
    };
    f.eval(20).unwrap();
    assert_eq!(f.calls, 21);
}

#[test]
fn fib_forty() {
    let mut f = Fib::new();
    assert_eq!(f.eval(40), Ok(102334155));
    assert_eq!(f.solve_count(), 41);
    assert_eq!(fib(40), 102334155);
}

#[test]
fn fib_matches_iterative_reference() {
    let mut a: u64 = 0;
    let mut b: u64 = 1;
    for n in 0..50u64 {
        assert_eq!(fib(n), a);
        let next = (a + b) % 1_000_000_007;
        a = b;
        b = next;
    }
}

#[test]
fn fib_small_values() {
    assert_eq!(fib(0), 0);
    assert_eq!(fib(1), 1);
    assert_eq!(fib(2), 1);
    assert_eq!(fib(10), 55);
}

#[test]
fn fib_large_argument() {
    let mut a: u64 = 0;
    let mut b: u64 = 1;
    for _ in 0..1000 {
        let next = (a + b) % 1_000_000_007;
        a = b;
        b = next;
    }
    assert_eq!(fib(1000), a);
}

#[test]
fn default_resolution_matches_explicit_call() {
    // The context holds five items, and the elided argument defaults to
    // that length: the defaulted entry and the explicit one agree.
    let values = vec![3, 4, 5, 6, 10];
    let weights = vec![2, 3, 4, 5, 9];
    assert_eq!(
        knapsack(values.clone(), weights.clone(), 10),
        knapsack_from(values, weights, 5, 10)
    );
    assert_eq!(
        edit_distance("love".into(), "movie".into()),
        edit_distance_from("love".into(), "movie".into(), 4, 5)
    );
}

#[test]
fn runs_do_not_share_memoized_values() {
    // Two runs with identical keys but different contexts: each answer
    // comes from its own table, bound to its own context.
    assert_eq!(edit_distance("abc".into(), "abc".into()), 0);
    assert_eq!(edit_distance("abc".into(), "xyz".into()), 3);
    assert_eq!(knapsack(vec![1, 1, 1], vec![1, 1, 1], 2), 2);
    assert_eq!(knapsack(vec![5, 5, 5], vec![1, 1, 1], 2), 10);
}

#[test]
fn knapsack_matches_brute_force() {
    let values = [3i32, 4, 5, 6, 10];
    let weights = [2i32, 3, 4, 5, 9];
    let capacity = 10i32;
    let mut best = 0;
    for mask in 0u32..32 {
        let mut value = 0;
        let mut weight = 0;
        for item in 0..5 {
            if mask & (1 << item) != 0 {
                value += values[item];
                weight += weights[item];
            }
        }
        if weight <= capacity && value > best {
            best = value;
        }
    }
    assert_eq!(best, 13);
    assert_eq!(knapsack(values.to_vec(), weights.to_vec(), capacity), best);
}

#[test]
fn knapsack_edge_cases() {
    assert_eq!(knapsack(vec![], vec![], 10), 0);
    assert_eq!(knapsack(vec![3, 4], vec![2, 3], 0), 0);
    assert_eq!(knapsack(vec![3, 4], vec![2, 3], -1), 0);
    assert_eq!(knapsack_from(vec![3, 4, 5], vec![1, 1, 1], 0, 10), 0);
}

#[test]
fn edit_distance_love_movie() {
    // The textbook table: substitute the first letter, insert the `i`.
    assert_eq!(edit_distance("love".into(), "movie".into()), 2);
}

#[test]
fn edit_distance_edge_cases() {
    assert_eq!(edit_distance("".into(), "".into()), 0);
    assert_eq!(edit_distance("".into(), "abc".into()), 3);
    assert_eq!(edit_distance("abc".into(), "".into()), 3);
    assert_eq!(edit_distance("kitten".into(), "sitting".into()), 3);
    assert_eq!(edit_distance_from("love".into(), "movie".into(), 0, 2), 2);
}
