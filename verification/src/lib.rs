//! A memoized-recursion engine: write a recurrence as a solve step and
//! evaluate it through a key -> result table that computes each key at
//! most once and refuses to re-enter a key whose computation is still
//! in flight.
//!
//! `dp_trait` holds the generic evaluator; `fib`, `knapsack` and
//! `edit_distance` instantiate it for three classic recurrences, each
//! proved to return exactly the value of its recurrence.

pub mod dp_trait;
pub mod edit_distance;
pub mod fib;
pub mod knapsack;

pub use dp_trait::DP;
