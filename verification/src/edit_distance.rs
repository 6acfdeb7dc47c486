//! Edit distance as a memoized recurrence: the distance between the
//! first `i` characters of one word and the first `j` of another, by
//! deletion, insertion, or substitution. The two words are the run's
//! read-only auxiliary context; the sub-problem key is the pair `(i, j)`.

use vstd::prelude::*;
use std::collections::HashMap;
use vstd::string::StrSliceExecFns;

verus! {

/// The edit distance between the first `i` characters of `a` and the
/// first `j` characters of `b`.
pub open spec fn spec_edit(a: Seq<char>, b: Seq<char>, i: nat, j: nat) -> nat
    recommends
        i <= a.len(),
        j <= b.len(),
    decreases i + j,
{
    if i == 0 {
        j
    } else if j == 0 {
        i
    } else {
        let del = spec_edit(a, b, (i - 1) as nat, j) + 1;
        let ins = spec_edit(a, b, i, (j - 1) as nat) + 1;
        let sub = spec_edit(a, b, (i - 1) as nat, (j - 1) as nat) + (if a[i - 1] == b[j - 1] {
            0nat
        } else {
            1nat
        });
        if del <= ins && del <= sub {
            del
        } else if ins <= sub {
            ins
        } else {
            sub
        }
    }
}

/// The distance never exceeds the total length considered: at worst,
/// every character is edited.
pub proof fn lemma_edit_bound(a: Seq<char>, b: Seq<char>, i: nat, j: nat)
    ensures
        spec_edit(a, b, i, j) <= i + j,
    decreases i + j,
{
    if i > 0 && j > 0 {
        lemma_edit_bound(a, b, (i - 1) as nat, j);
        lemma_edit_bound(a, b, i, (j - 1) as nat);
        lemma_edit_bound(a, b, (i - 1) as nat, (j - 1) as nat);
    }
}

/// A memoizing edit-distance evaluator: the two words as context, and
/// one memo row per prefix length of the first word, each row keyed by
/// a prefix length of the second.
struct Edit {
    a: Vec<char>,
    b: Vec<char>,
    memo: Vec<HashMap<usize, Option<usize>>>,
}

impl Edit {
    /// Shape of a well-formed run: one memo row per possible `i`, and
    /// prefix lengths whose sum stays representable.
    spec fn wf(&self) -> bool {
        &&& self.memo@.len() == self.a@.len() + 1
        &&& self.a@.len() + self.b@.len() <= usize::MAX
    }

    /// Key `(i, jj)` is pending: its computation is in flight.
    spec fn pending_at(&self, i: int, jj: usize) -> bool {
        &&& 0 <= i < self.memo@.len()
        &&& self.memo@[i]@.contains_key(jj)
        &&& self.memo@[i]@[jj] is None
    }

    /// Every resolved cell holds the recurrence's value for its key.
    spec fn resolved_ok(&self) -> bool {
        forall|i: int, jj: usize|
            0 <= i < self.memo@.len() && #[trigger] self.memo@[i]@.contains_key(jj)
                && self.memo@[i]@[jj] is Some
                ==> self.memo@[i]@[jj]->Some_0 as nat == spec_edit(
                    self.a@,
                    self.b@,
                    i as nat,
                    jj as nat,
                )
    }

    /// Every pending key works on prefixes whose total length exceeds
    /// `m`: the keys in flight are exactly the ancestors of the current
    /// call.
    spec fn pending_gt(&self, m: int) -> bool {
        forall|i: int, jj: usize| #[trigger] self.pending_at(i, jj) ==> i + jj > m
    }

    /// Evaluate key `(i, j)`: answer from the memo table if resolved,
    /// otherwise mark it pending, run the recurrence step, cache the
    /// answer. A pending hit cannot arise: every key in flight works on
    /// longer prefixes than any key it asks for.
    fn eval_key(&mut self, i: usize, j: usize) -> (r: usize)
        requires
            old(self).wf(),
            i < old(self).memo@.len(),
            j <= old(self).b@.len(),
            old(self).resolved_ok(),
            old(self).pending_gt(i + j),
        ensures
            final(self).wf(),
            final(self).a == old(self).a,
            final(self).b == old(self).b,
            final(self).memo@.len() == old(self).memo@.len(),
            final(self).resolved_ok(),
            forall|m: int, jj: usize|
                final(self).pending_at(m, jj) <==> old(self).pending_at(m, jj),
            r as nat == spec_edit(old(self).a@, old(self).b@, i as nat, j as nat),
        decreases i + j, 1nat,
    {
        let cached = match self.memo[i].get(&j) {
            Some(c) => Some(*c),
            None => None,
        };
        match cached {
            Some(Some(v)) => {
                return v;
            },
            Some(None) => {
                proof {
                    assert(old(self).pending_at(i as int, j));
                    assert(false);
                }
                return 0;
            },
            None => {},
        }
        self.memo[i].insert(j, None);
        let ghost s1 = *self;
        proof {
            assert forall|m: int, jj: usize| s1.pending_at(m, jj) implies m + jj > i + j - 1 by {
                if !(m == i as int && jj == j) {
                    assert(old(self).pending_at(m, jj));
                }
            }
        }
        let v = self.solve_key(i, j);
        let ghost s2 = *self;
        self.memo[i].insert(j, Some(v));
        proof {
            assert forall|m: int, jj: usize|
                final(self).pending_at(m, jj) <==> old(self).pending_at(m, jj) by {
                if final(self).pending_at(m, jj) {
                    assert(s2.pending_at(m, jj));
                    assert(s1.pending_at(m, jj));
                }
                if old(self).pending_at(m, jj) {
                    assert(s1.pending_at(m, jj));
                    assert(s2.pending_at(m, jj));
                }
            }
            assert forall|m: int, jj: usize|
                0 <= m < final(self).memo@.len()
                    && #[trigger] final(self).memo@[m]@.contains_key(jj)
                    && final(self).memo@[m]@[jj] is Some
                implies final(self).memo@[m]@[jj]->Some_0 as nat == spec_edit(
                final(self).a@,
                final(self).b@,
                m as nat,
                jj as nat,
            ) by {
                if !(m == i as int && jj == j) {
                    assert(s2.memo@[m]@.contains_key(jj) && s2.memo@[m]@[jj] is Some);
                }
            }
        }
        v
    }

    /// One step of the recurrence: a prefix against an empty prefix is
    /// all insertions or deletions; otherwise the cheapest of deleting,
    /// inserting, or substituting the last character, asking the
    /// evaluator for the three sub-problems.
    fn solve_key(&mut self, i: usize, j: usize) -> (r: usize)
        requires
            old(self).wf(),
            i < old(self).memo@.len(),
            j <= old(self).b@.len(),
            old(self).resolved_ok(),
            old(self).pending_gt(i + j - 1),
        ensures
            final(self).wf(),
            final(self).a == old(self).a,
            final(self).b == old(self).b,
            final(self).memo@.len() == old(self).memo@.len(),
            final(self).resolved_ok(),
            forall|m: int, jj: usize|
                final(self).pending_at(m, jj) <==> old(self).pending_at(m, jj),
            r as nat == spec_edit(old(self).a@, old(self).b@, i as nat, j as nat),
        decreases i + j, 0nat,
    {
        if i == 0 {
            return j;
        }
        if j == 0 {
            return i;
        }
        let d1 = self.eval_key(i - 1, j);
        let d2 = self.eval_key(i, j - 1);
        let d3 = self.eval_key(i - 1, j - 1);
        proof {
            lemma_edit_bound(self.a@, self.b@, (i - 1) as nat, j as nat);
            lemma_edit_bound(self.a@, self.b@, i as nat, (j - 1) as nat);
            lemma_edit_bound(self.a@, self.b@, (i - 1) as nat, (j - 1) as nat);
        }
        let mut ans = if d1 < d2 {
            d1 + 1
        } else {
            d2 + 1
        };
        let subst = if self.a[i - 1] == self.b[j - 1] {
            d3
        } else {
            d3 + 1
        };
        if subst < ans {
            ans = subst;
        }
        ans
    }
}

/// The characters of a string, in order, as a vector.
fn chars_of(s: &str) -> (v: Vec<char>)
    ensures
        v@ == s@,
{
    let n = s.unicode_len();
    let mut v: Vec<char> = Vec::new();
    while v.len() < n
        invariant
            n == s@.len(),
            v@.len() <= n,
            forall|idx: int| 0 <= idx < v@.len() ==> v@[idx] == s@[idx],
        decreases n - v@.len(),
    {
        let c = s.get_char(v.len());
        v.push(c);
    }
    proof {
        assert(v@ =~= s@);
    }
    v
}

/// Run the recurrence for key `(i, j)` on a fresh memo table.
fn edit_run(av: Vec<char>, bv: Vec<char>, i: usize, j: usize) -> (r: usize)
    requires
        i <= av@.len(),
        j <= bv@.len(),
        av@.len() + bv@.len() <= usize::MAX,
    ensures
        r as nat == spec_edit(av@, bv@, i as nat, j as nat),
{
    let mut memo: Vec<HashMap<usize, Option<usize>>> = Vec::new();
    while memo.len() <= av.len()
        invariant
            memo@.len() <= av@.len() + 1,
            forall|m: int, jj: usize| 0 <= m < memo@.len()
                ==> !(#[trigger] memo@[m]@.contains_key(jj)),
        decreases av@.len() + 1 - memo@.len(),
    {
        memo.push(HashMap::new());
    }
    let mut e = Edit { a: av, b: bv, memo };
    e.eval_key(i, j)
}

/// The root entry with an explicit initial key: the distance between
/// the first `i` characters of `a` and the first `j` of `b`.
pub fn edit_distance_from(a: String, b: String, i: usize, j: usize) -> (r: usize)
    requires
        i <= a@.len(),
        j <= b@.len(),
        a@.len() + b@.len() <= usize::MAX,
    ensures
        r as nat == spec_edit(a@, b@, i as nat, j as nat),
{
    let av = chars_of(a.as_str());
    let bv = chars_of(b.as_str());
    edit_run(av, bv, i, j)
}

/// The externally callable entry: the initial prefix lengths are not
/// supplied by the caller but resolved from the context, as the two
/// words' full lengths.
pub fn edit_distance(a: String, b: String) -> (r: usize)
    requires
        a@.len() + b@.len() <= usize::MAX,
    ensures
        r as nat == spec_edit(a@, b@, a@.len(), b@.len()),
{
    let av = chars_of(a.as_str());
    let bv = chars_of(b.as_str());
    let i = av.len();
    let j = bv.len();
    edit_run(av, bv, i, j)
}

} // verus!
