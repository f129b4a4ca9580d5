//! The evaluation namespace: a flat mapping from dotted path strings to
//! namespace scalars, with unique keys and a deterministic entry order.

use vstd::prelude::*;
use crate::value::{Scalar, ScalarS, value_dv, value_clone, value_eq};

verus! {

broadcast use vstd::std_specs::vec::group_vec_axioms, vstd::seq::group_seq_axioms;

/// One namespace: dotted path -> scalar value.  Entries keep the order
/// in which their keys were first set.
#[derive(Debug)]
pub struct EvaluationContext {
    entries: Vec<(String, Scalar)>,
}

/// First entry whose key is `k`, if any.
pub open spec fn ctx_lookup(s: Seq<(Seq<char>, ScalarS)>, k: Seq<char>) -> Option<ScalarS>
    decreases s.len(),
{
    if s.len() == 0 {
        None
    } else if s[0].0 == k {
        Some(s[0].1)
    } else {
        ctx_lookup(s.subrange(1, s.len() as int), k)
    }
}

/// Setting key `k` to `v`: overwrites the first entry with that key, or
/// appends a new entry.
pub open spec fn ctx_set(s: Seq<(Seq<char>, ScalarS)>, k: Seq<char>, v: ScalarS)
    -> Seq<(Seq<char>, ScalarS)>
    decreases s.len(),
{
    if s.len() == 0 {
        seq![(k, v)]
    } else if s[0].0 == k {
        s.update(0, (k, v))
    } else {
        seq![s[0]] + ctx_set(s.subrange(1, s.len() as int), k, v)
    }
}

/// Skipping a prefix that does not hold the key leaves the lookup
/// unchanged.
pub proof fn lemma_ctx_lookup_skip(s: Seq<(Seq<char>, ScalarS)>, k: Seq<char>, i: int)
    requires
        0 <= i <= s.len(),
        forall|j: int| 0 <= j < i ==> s[j].0 != k,
    ensures
        ctx_lookup(s, k) == ctx_lookup(s.subrange(i, s.len() as int), k),
    decreases i,
{
    if i == 0 {
        assert(s.subrange(0, s.len() as int) =~= s);
    } else {
        assert(s[0].0 != k);
        assert(forall|j: int| 0 <= j < i - 1
            ==> #[trigger] s.subrange(1, s.len() as int)[j].0 != k);
        lemma_ctx_lookup_skip(s.subrange(1, s.len() as int), k, i - 1);
        assert(s.subrange(1, s.len() as int).subrange(i - 1, s.len() - 1)
            =~= s.subrange(i, s.len() as int));
    }
}

/// Where the key stands at index `i` past a key-free prefix, `ctx_set`
/// is an update at `i`.
pub proof fn lemma_ctx_set_at(s: Seq<(Seq<char>, ScalarS)>, k: Seq<char>, v: ScalarS, i: int)
    requires
        0 <= i < s.len(),
        s[i].0 == k,
        forall|j: int| 0 <= j < i ==> s[j].0 != k,
    ensures
        ctx_set(s, k, v) =~= s.update(i, (k, v)),
    decreases i,
{
    if i == 0 {
    } else {
        lemma_ctx_set_at(s.subrange(1, s.len() as int), k, v, i - 1);
    }
}

/// Where no entry holds the key, `ctx_set` appends.
pub proof fn lemma_ctx_set_absent(s: Seq<(Seq<char>, ScalarS)>, k: Seq<char>, v: ScalarS)
    requires
        forall|j: int| 0 <= j < s.len() ==> s[j].0 != k,
    ensures
        ctx_set(s, k, v) =~= s.push((k, v)),
    decreases s.len(),
{
    if s.len() > 0 {
        lemma_ctx_set_absent(s.subrange(1, s.len() as int), k, v);
    }
}

impl View for EvaluationContext {
    type V = Seq<(Seq<char>, ScalarS)>;

    closed spec fn view(&self) -> Seq<(Seq<char>, ScalarS)> {
        Seq::new(self.entries@.len(), |i: int| (self.entries@[i].0@, value_dv(self.entries@[i].1)))
    }
}

impl EvaluationContext {
    /// Keys are pairwise distinct.
    pub open spec fn wf(self) -> bool {
        forall|i: int, j: int| 0 <= i < j < self@.len() ==> self@[i].0 != self@[j].0
    }

    /// An empty namespace.
    pub fn new() -> (r: Self)
        ensures
            r@ =~= Seq::<(Seq<char>, ScalarS)>::empty(),
            r.wf(),
    {
        EvaluationContext { entries: Vec::new() }
    }

    pub fn len(&self) -> (r: usize)
        ensures
            r == self@.len(),
    {
        self.entries.len()
    }

    pub fn key_at(&self, i: usize) -> (r: &String)
        requires
            i < self@.len(),
        ensures
            r@ == self@[i as int].0,
    {
        &self.entries[i].0
    }

    pub fn value_at(&self, i: usize) -> (r: &Scalar)
        requires
            i < self@.len(),
        ensures
            value_dv(*r) == self@[i as int].1,
    {
        &self.entries[i].1
    }

    /// Reads the first entry with the given key.
    pub fn get(&self, k: &str) -> (r: Option<&Scalar>)
        ensures
            match r {
                Some(v) => ctx_lookup(self@, k@) == Some(value_dv(*v)),
                None => ctx_lookup(self@, k@) is None,
            },
    {
        let n: usize = self.entries.len();
        let mut i: usize = 0;
        #[verifier::loop_isolation(false)]
        while i < n
            invariant
                i <= n,
                n == self@.len(),
                forall|j: int| 0 <= j < i ==> self@[j].0 != k@,
            decreases n - i,
        {
            if crate::strings::str_eq(self.entries[i].0.as_str(), k) {
                proof {
                    lemma_ctx_lookup_skip(self@, k@, i as int);
                    assert(self@.subrange(i as int, n as int)[0] == self@[i as int]);
                }
                return Some(&self.entries[i].1);
            }
            i = i + 1;
        }
        proof {
            lemma_ctx_lookup_skip(self@, k@, n as int);
            assert(self@.subrange(n as int, n as int).len() == 0);
        }
        None
    }

    /// Sets a key, overwriting the entry that holds it, if any.
    pub fn set(&mut self, key: String, v: Scalar)
        requires
            old(self).wf(),
        ensures
            final(self)@ =~= ctx_set(old(self)@, key@, value_dv(v)),
            final(self).wf(),
    {
        let n: usize = self.entries.len();
        let mut i: usize = 0;
        #[verifier::loop_isolation(false)]
        while i < n
            invariant
                i <= n,
                n == self@.len(),
                self@ == old(self)@,
                self.entries@ == old(self).entries@,
                forall|j: int| 0 <= j < i ==> self@[j].0 != key@,
            decreases n - i,
        {
            if crate::strings::str_eq(self.entries[i].0.as_str(), key.as_str()) {
                proof {
                    lemma_ctx_set_at(self@, key@, value_dv(v), i as int);
                }
                proof {
                    assert(key@ == old(self)@[i as int].0);
                }
                self.entries.remove(i);
                self.entries.insert(i, (key, v));
                proof {
                    assert(self@ =~= old(self)@.update(i as int, (key@, value_dv(v))));
                    assert forall|a: int, b: int| 0 <= a < b < self@.len()
                        implies self@[a].0 != self@[b].0 by {
                        assert(self@[a].0 == old(self)@[a].0);
                        assert(self@[b].0 == old(self)@[b].0);
                    }
                }
                return;
            }
            i = i + 1;
        }
        proof {
            lemma_ctx_set_absent(self@, key@, value_dv(v));
        }
        self.entries.push((key, v));
        proof {
            assert(self@ =~= old(self)@.push((key@, value_dv(v))));
        }
    }

    /// A structural copy with an identical view.
    pub fn snapshot(&self) -> (r: Self)
        ensures
            r@ =~= self@,
            r.wf() == self.wf(),
    {
        let n: usize = self.entries.len();
        let mut out: Vec<(String, Scalar)> = Vec::new();
        let mut i: usize = 0;
        #[verifier::loop_isolation(false)]
        while i < n
            invariant
                i <= n,
                n == self.entries@.len(),
                out@.len() == i,
                forall|j: int| 0 <= j < i ==> #[trigger] out@[j].0@ == self.entries@[j].0@
                    && value_dv(out@[j].1) == value_dv(self.entries@[j].1),
            decreases n - i,
        {
            let key: String = self.entries[i].0.clone();
            let v: Scalar = value_clone(&self.entries[i].1);
            let ghost out0 = out@;
            out.push((key, v));
            proof {
                assert forall|j: int| 0 <= j < i + 1
                    implies #[trigger] out@[j].0@ == self.entries@[j].0@
                        && value_dv(out@[j].1) == value_dv(self.entries@[j].1) by {
                    if j < i {
                        assert(out@[j] == out0[j]);
                        assert(out0[j].0@ == self.entries@[j].0@);
                    }
                }
            }
            i = i + 1;
        }
        let r = EvaluationContext { entries: out };
        proof {
            assert(r@ =~= self@);
        }
        r
    }

    /// Whether the entry at `i` differs, by value, from what `other`
    /// holds at the same key.
    pub fn entry_differs_from(&self, i: usize, other: &Self) -> (r: bool)
        requires
            i < self@.len(),
        ensures
            r == (ctx_lookup(other@, self@[i as int].0) != Some(self@[i as int].1)),
    {
        let key: &String = &self.entries[i].0;
        match other.get(key.as_str()) {
            Some(w) => !value_eq(&self.entries[i].1, w),
            None => true,
        }
    }
}

} // verus!
