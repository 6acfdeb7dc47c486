//! The generic memoizing evaluator.
//!
//! An implementor supplies the memo table (`get`, `insert`) and the
//! recurrence body (`solve`); the provided `eval` drives the evaluation:
//! it computes each key at most once, caches the result, and refuses to
//! re-enter a key whose computation is still in flight.
//!
//! The memo table is a mapping from keys to tri-state cells, exposed to
//! specifications through the `table` view:
//! - a key absent from the view was never seen;
//! - a key mapped to `None` is pending: its computation is in flight;
//! - a key mapped to `Some(v)` is resolved: `v` is its final answer.

use vstd::prelude::*;

verus! {

/// A memoizing evaluator over keys `T` and values `U`.
///
/// `eval` owns every table mutation: a conforming solve step reaches the
/// table only by calling back into `eval` for sub-keys. Keys are used
/// both for lookup and for threading through recursive calls, so they
/// must be cheaply duplicable; values are stored and returned by value,
/// so implementors of `get` typically clone the cached cell.
pub trait DP<T: Copy, U: Clone>: Sized {
    /// The memo table of this evaluator, as a map from keys to
    /// tri-state cells: absent, pending (`None`), resolved (`Some`).
    spec fn table(&self) -> Map<T, Option<U>>;

    /// Look the key up in the memo table: `None` if it was never seen,
    /// otherwise the pending or resolved cell stored for it.
    fn get(&self, args: &T) -> (r: Option<Option<U>>)
        ensures
            r == if self.table().contains_key(*args) {
                Some(self.table()[*args])
            } else {
                None::<Option<U>>
            },
    ;

    /// Store a cell for a key, replacing whatever the table held for it.
    fn insert(&mut self, k: T, v: Option<U>)
        ensures
            final(self).table() == old(self).table().insert(k, v),
    ;

    /// The recurrence body. It is called by `eval` exactly once per
    /// distinct key, with that key pending, and may re-enter `eval` for
    /// sub-keys; `Err` propagates a detected cycle, naming the
    /// re-entered key. It must not touch the table other than through
    /// `eval`: every cell present when it starts is intact when it
    /// returns, and on success the keys it added are all resolved.
    fn solve(&mut self, args: T) -> (r: Result<U, T>)
        requires
            old(self).table().contains_key(args),
            old(self).table()[args] is None,
        ensures
            forall|k: T|
                #![trigger old(self).table().contains_key(k)]
                #![trigger final(self).table().contains_key(k)]
                old(self).table().contains_key(k)
                    ==> final(self).table().contains_key(k)
                        && final(self).table()[k] == old(self).table()[k],
            r is Ok ==> forall|k: T|
                #[trigger] final(self).table().contains_key(k)
                    && !old(self).table().contains_key(k)
                ==> final(self).table()[k] is Some,
    ;

    /// Evaluate a key: return its resolved value if the table has one,
    /// fail with the key itself if its computation is already in flight
    /// (a direct or indirect self-dependency), and otherwise mark it
    /// pending, run the solve step, and cache the answer.
    ///
    /// Cells only move forward, absent to pending to resolved: a
    /// resolved key is never recomputed, so a second evaluation of the
    /// same key returns the identical value and leaves the evaluator
    /// untouched.
    fn eval(&mut self, args: T) -> (r: Result<U, T>)
        ensures
            forall|k: T|
                #![trigger old(self).table().contains_key(k)]
                #![trigger final(self).table().contains_key(k)]
                old(self).table().contains_key(k)
                    ==> final(self).table().contains_key(k)
                        && final(self).table()[k] == old(self).table()[k],
            r is Ok ==> forall|k: T|
                #[trigger] final(self).table().contains_key(k)
                    && !old(self).table().contains_key(k)
                ==> final(self).table()[k] is Some,
            old(self).table().contains_key(args) && old(self).table()[args] is Some ==> {
                &&& r == Ok::<U, T>(old(self).table()[args]->Some_0)
                &&& *final(self) == *old(self)
            },
            old(self).table().contains_key(args) && old(self).table()[args] is None ==> {
                &&& r == Err::<U, T>(args)
                &&& *final(self) == *old(self)
            },
            !old(self).table().contains_key(args) ==> {
                &&& forall|k: T|
                    #![trigger old(self).table().contains_key(k)]
                    #![trigger final(self).table().contains_key(k)]
                    old(self).table().contains_key(k)
                        ==> final(self).table().contains_key(k)
                            && final(self).table()[k] == old(self).table()[k]
                &&& final(self).table().contains_key(args)
                &&& match r {
                    Ok(v) => final(self).table()[args] == Some(v)
                        && forall|k: T|
                            #[trigger] final(self).table().contains_key(k)
                                && !old(self).table().contains_key(k) && k != args
                            ==> final(self).table()[k] is Some,
                    Err(_) => final(self).table()[args] is None,
                }
            },
    {
        let cached = self.get(&args);
        match cached {
            Some(Some(v)) => Ok(v),
            Some(None) => Err(args),
            None => {
                self.insert(args, None);
                match self.solve(args) {
                    Ok(v) => {
                        // Store the answer, then hand out the table's own
                        // copy of it: `get`'s contract ties that copy to
                        // the stored cell, which no unconstrained clone
                        // of `v` would be.
                        self.insert(args, Some(v));
                        match self.get(&args) {
                            Some(Some(w)) => Ok(w),
                            _ => {
                                // The cell was just stored as resolved.
                                proof {
                                    assert(false);
                                }
                                Err(args)
                            },
                        }
                    },
                    Err(e) => Err(e),
                }
            },
        }
    }
}

} // verus!
