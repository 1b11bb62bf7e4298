//! The format-specific fields of an event: a mapping from key to value that
//! is kept in dictionary order of its keys, so that it always reads out the
//! same way.

use vstd::prelude::*;
use crate::text::{chars_eq, from_chars, lemma_lex_irreflexive, lemma_lex_total, lemma_lex_transitive, lex_lt, lex_order, opt_view, to_chars, Order};

verus! {

/// One entry as it appears in contracts.
pub type Pair = (Seq<char>, Seq<char>);

/// The value stored under `k`, if any.
pub open spec fn lookup(s: Seq<Pair>, k: Seq<char>) -> Option<Seq<char>>
    decreases s.len(),
{
    if s.len() == 0 {
        None
    } else if s[0].0 == k {
        Some(s[0].1)
    } else {
        lookup(s.skip(1), k)
    }
}

/// `s` with `v` stored under `k`: in place of the entry for `k` where there
/// is one, else in front of the first larger key.
pub open spec fn put(s: Seq<Pair>, k: Seq<char>, v: Seq<char>) -> Seq<Pair>
    decreases s.len(),
{
    if s.len() == 0 {
        seq![(k, v)]
    } else if s[0].0 == k {
        seq![(k, v)] + s.skip(1)
    } else if lex_lt(k, s[0].0) {
        seq![(k, v)] + s
    } else {
        seq![s[0]] + put(s.skip(1), k, v)
    }
}

/// The keys rise strictly from one entry to the next.
pub open spec fn sorted(s: Seq<Pair>) -> bool {
    forall|i: int, j: int| 0 <= i < j < s.len() ==> lex_lt(#[trigger] s[i].0, #[trigger] s[j].0)
}

/// Every key of `put(s, k, v)` is `k` or a key of `s`.
pub proof fn lemma_put_keys(s: Seq<Pair>, k: Seq<char>, v: Seq<char>)
    ensures
        forall|i: int|
            0 <= i < put(s, k, v).len() ==> (#[trigger] put(s, k, v)[i]).0 == k || exists|j: int|
                0 <= j < s.len() && s[j].0 == put(s, k, v)[i].0,
    decreases s.len(),
{
    let r = put(s, k, v);
    if s.len() == 0 {
    } else if s[0].0 == k {
    } else if lex_lt(k, s[0].0) {
    } else {
        lemma_put_keys(s.skip(1), k, v);
        let inner = put(s.skip(1), k, v);
        assert forall|i: int| 0 <= i < r.len() implies (#[trigger] r[i]).0 == k || exists|j: int|
            0 <= j < s.len() && s[j].0 == r[i].0 by {
        }
    }
}

/// Storing a value keeps the keys in order.
pub proof fn lemma_put_sorted(s: Seq<Pair>, k: Seq<char>, v: Seq<char>)
    requires
        sorted(s),
    ensures
        sorted(put(s, k, v)),
    decreases s.len(),
{
    let r = put(s, k, v);
    if s.len() == 0 {
    } else if s[0].0 == k {
    } else if lex_lt(k, s[0].0) {
        assert forall|i: int, j: int| 0 <= i < j < r.len() implies lex_lt(
            #[trigger] r[i].0,
            #[trigger] r[j].0,
        ) by {
            if i == 0 {
                if j > 1 {
                    lemma_lex_transitive(k, s[0].0, s[j - 1].0);
                }
            }
        }
    } else {
        let rest = s.skip(1);
        lemma_put_sorted(rest, k, v);
        lemma_put_keys(rest, k, v);
        lemma_lex_total(k, s[0].0);
        let inner = put(rest, k, v);
    }
}

/// What was stored under a key is what is found under it.
pub proof fn lemma_lookup_put_same(s: Seq<Pair>, k: Seq<char>, v: Seq<char>)
    ensures
        lookup(put(s, k, v), k) == Some(v),
    decreases s.len(),
{
    if s.len() > 0 && s[0].0 != k && !lex_lt(k, s[0].0) {
        lemma_lookup_put_same(s.skip(1), k, v);
        assert(put(s, k, v).skip(1) == put(s.skip(1), k, v));
    }
}

/// Storing under one key leaves every other key as it was.
pub proof fn lemma_lookup_put_other(s: Seq<Pair>, k: Seq<char>, v: Seq<char>, other: Seq<char>)
    requires
        other != k,
    ensures
        lookup(put(s, k, v), other) == lookup(s, other),
    decreases s.len(),
{
    let r = put(s, k, v);
    if s.len() == 0 {
        assert(r.skip(1) == s);
    } else if s[0].0 == k {
        assert(r.skip(1) == s.skip(1));
    } else if lex_lt(k, s[0].0) {
        assert(r.skip(1) == s);
    } else {
        lemma_lookup_put_other(s.skip(1), k, v, other);
        assert(r.skip(1) == put(s.skip(1), k, v));
    }
}

/// A key-to-value mapping held in dictionary order of its keys.
pub struct Extensions {
    entries: Vec<(Vec<char>, Vec<char>)>,
}

impl View for Extensions {
    type V = Seq<Pair>;

    closed spec fn view(&self) -> Seq<Pair> {
        Seq::new(self.entries@.len(), |i: int| (self.entries@[i].0@, self.entries@[i].1@))
    }
}

impl Extensions {
    /// The keys rise strictly, so no key occurs twice.
    pub open spec fn wf(&self) -> bool {
        sorted(self@)
    }

    /// A mapping without entries.
    pub fn new() -> (e: Extensions)
        ensures
            e@ == Seq::<Pair>::empty(),
            e.wf(),
    {
        Extensions { entries: Vec::new() }
    }

    /// How many entries there are.
    pub fn len(&self) -> (n: usize)
        ensures
            n == self@.len(),
    {
        self.entries.len()
    }

    /// Stores `value` under `key`, replacing what was there.
    pub fn put_chars(&mut self, key: Vec<char>, value: Vec<char>)
        requires
            old(self).wf(),
        ensures
            final(self)@ == put(old(self)@, key@, value@),
            final(self).wf(),
    {
        let ghost s = self@;
        let mut i: usize = 0;
        let mut found = false;
        assert(s.skip(0) == s);
        while i < self.entries.len()
            invariant_except_break
                !found,
            invariant
                i <= self.entries.len(),
                self@ == s,
                put(s, key@, value@) == s.take(i as int) + put(s.skip(i as int), key@, value@),
            ensures
                i <= self.entries.len(),
                self@ == s,
                put(s, key@, value@) == s.take(i as int) + put(s.skip(i as int), key@, value@),
                found ==> i < s.len() && s[i as int].0 == key@,
                !found ==> i == s.len() || lex_lt(key@, s[i as int].0),
            decreases self.entries.len() - i,
        {
            let ghost rest = s.skip(i as int);
            match lex_order(&key, &self.entries[i].0) {
                Order::Equal => {
                    found = true;
                    break;
                },
                Order::Less => {
                    break;
                },
                Order::Greater => {
                    proof {
                        lemma_lex_total(key@, s[i as int].0);
                        assert(rest.skip(1) == s.skip(i as int + 1));
                    }
                    i += 1;
                },
            }
        }
        proof {
            lemma_put_sorted(s, key@, value@);
            if i < s.len() {
                lemma_lex_irreflexive(key@);
            }
        }
        let ghost rest = s.skip(i as int);
        if found {
            self.entries.set(i, (key, value));
        } else {
            self.entries.insert(i, (key, value));
            assert(self@ == s.take(i as int) + (seq![(key@, value@)] + rest));
        }
    }

    /// The value stored under `key`, if any.
    pub fn get_chars(&self, key: &Vec<char>) -> (r: Option<&Vec<char>>)
        ensures
            match r {
                Some(v) => lookup(self@, key@) == Some(v@),
                None => lookup(self@, key@) is None,
            },
    {
        let ghost s = self@;
        let mut i: usize = 0;
        assert(s.skip(0) == s);
        while i < self.entries.len()
            invariant
                i <= self.entries.len(),
                self@ == s,
                lookup(s, key@) == lookup(s.skip(i as int), key@),
            decreases self.entries.len() - i,
        {
            let ghost rest = s.skip(i as int);
            if chars_eq(key, &self.entries[i].0) {
                return Some(&self.entries[i].1);
            }
            assert(rest.skip(1) == s.skip(i as int + 1));
            i += 1;
        }
        None
    }

    /// Stores `value` under `key`, replacing what was there.
    pub fn insert(&mut self, key: &str, value: &str)
        requires
            old(self).wf(),
        ensures
            final(self)@ == put(old(self)@, key@, value@),
            final(self).wf(),
    {
        self.put_chars(to_chars(key), to_chars(value))
    }

    /// The value stored under `key`, if any.
    pub fn get(&self, key: &str) -> (r: Option<String>)
        ensures
            opt_view(r) == lookup(self@, key@),
    {
        let k = to_chars(key);
        match self.get_chars(&k) {
            Some(v) => Some(from_chars(v)),
            None => None,
        }
    }

    /// The key of entry `i`, counted in key order.
    pub fn key_at(&self, i: usize) -> (k: &Vec<char>)
        requires
            i < self@.len(),
        ensures
            k@ == self@[i as int].0,
    {
        &self.entries[i].0
    }

    /// The value of entry `i`, counted in key order.
    pub fn value_at(&self, i: usize) -> (v: &Vec<char>)
        requires
            i < self@.len(),
        ensures
            v@ == self@[i as int].1,
    {
        &self.entries[i].1
    }
}

} // verus!
