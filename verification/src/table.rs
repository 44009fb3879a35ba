//! An insertion-ordered map from domain-name strings to values, kept as a
//! vector of pairs with unique keys. Lookups walk the entries; the first
//! entry ever inserted stays at index zero, which the TLS resolver uses
//! for its default certificate.

use vstd::prelude::*;

verus! {

use crate::strutil::str_eq;

/// First value bound to `k` in `es`, if any.
pub open spec fn seq_get<V>(es: Seq<(String, V)>, k: Seq<char>) -> Option<V>
    decreases es.len(),
{
    if es.len() == 0 {
        None
    } else if es[0].0@ == k {
        Some(es[0].1)
    } else {
        seq_get(es.drop_first(), k)
    }
}

/// A map from domain names to values, in insertion order, keys unique.
pub struct DomainMap<V> {
    pub entries: Vec<(String, V)>,
}

impl<V> DomainMap<V> {
    /// The entries, in insertion order.
    pub open spec fn spec_entries(self) -> Seq<(String, V)> {
        self.entries@
    }

    /// The keys, in insertion order.
    pub open spec fn spec_keys(self) -> Seq<Seq<char>> {
        self.entries@.map_values(|e: (String, V)| e.0@)
    }

    /// Keys are pairwise distinct.
    pub open spec fn wf(self) -> bool {
        forall|i: int, j: int|
            0 <= i < j < self.entries@.len() ==> self.entries@[i].0@ != self.entries@[j].0@
    }

    /// Whether `k` is bound.
    pub open spec fn spec_contains(self, k: Seq<char>) -> bool {
        seq_get(self.entries@, k) is Some
    }

    /// The value bound to `k`, if any.
    pub open spec fn spec_get(self, k: Seq<char>) -> Option<V> {
        seq_get(self.entries@, k)
    }

    /// An empty map.
    pub fn new() -> (r: DomainMap<V>)
        ensures
            r.wf(),
            r.spec_entries() == Seq::<(String, V)>::empty(),
            forall|k: Seq<char>| !r.spec_contains(k),
    {
        let r = DomainMap { entries: Vec::new() };
        proof {
            assert forall|k: Seq<char>| !r.spec_contains(k) by {
                assert(seq_get(r.entries@, k) is None);
            }
        }
        r
    }

    /// Number of entries.
    pub fn len(&self) -> (n: usize)
        ensures
            n == self.spec_entries().len(),
    {
        self.entries.len()
    }

    /// The key of the entry at `i`, in insertion order.
    pub fn key_at(&self, i: usize) -> (k: &String)
        requires
            i < self.spec_entries().len(),
        ensures
            k@ == self.spec_entries()[i as int].0@,
    {
        &self.entries[i].0
    }

    /// The value of the entry at `i`, in insertion order.
    pub fn value_at(&self, i: usize) -> (v: &V)
        requires
            i < self.spec_entries().len(),
        ensures
            *v == self.spec_entries()[i as int].1,
    {
        &self.entries[i].1
    }

    /// The value bound to `k`, if any.
    pub fn get(&self, k: &str) -> (r: Option<&V>)
        ensures
            r is Some <==> self.spec_contains(k@),
            r matches Some(v) ==> self.spec_get(k@) == Some(*v),
    {
        let n = self.entries.len();
        proof {
            assert(self.entries@.skip(0) =~= self.entries@);
        }
        let mut i: usize = 0;
        while i < n
            invariant
                0 <= i <= n,
                n == self.entries@.len(),
                seq_get(self.entries@, k@) == seq_get(self.entries@.skip(i as int), k@),
            decreases n - i,
        {
            proof {
                assert(self.entries@.skip(i as int).len() > 0);
                assert(self.entries@.skip(i as int)[0] == self.entries@[i as int]);
                assert(self.entries@.skip(i as int).drop_first() =~= self.entries@.skip(i + 1));
            }
            if str_eq(self.entries[i].0.as_str(), k) {
                return Some(&self.entries[i].1);
            }
            i += 1;
        }
        proof {
            assert(self.entries@.skip(n as int) =~= Seq::<(String, V)>::empty());
        }
        None
    }

    /// Whether `k` is bound.
    pub fn contains_key(&self, k: &str) -> (r: bool)
        ensures
            r == self.spec_contains(k@),
    {
        self.get(k).is_some()
    }

    /// Binds `k` to `v` when `k` is new and answers `true`; answers `false`
    /// and leaves the map unchanged when `k` is already bound.
    pub fn insert(&mut self, k: String, v: V) -> (r: bool)
        requires
            old(self).wf(),
        ensures
            final(self).wf(),
            r == !old(self).spec_contains(k@),
            r ==> final(self).spec_entries() == old(self).spec_entries().push((k, v)),
            !r ==> final(self).spec_entries() == old(self).spec_entries(),
            final(self).spec_get(k@) == (if r {
                Some(v)
            } else {
                old(self).spec_get(k@)
            }),
            forall|k2: Seq<char>| k2 != k@ ==> final(self).spec_get(k2) == old(self).spec_get(k2),
    {
        if self.contains_key(k.as_str()) {
            proof {
                lemma_seq_get_some_is_key(self.entries@, k@);
            }
            return false;
        }
        let ghost es = self.entries@;
        proof {
            lemma_seq_get_none_no_key(es, k@);
        }
        self.entries.push((k, v));
        proof {
            assert(self.entries@ =~= es.push((k, v)));
            assert forall|k2: Seq<char>| true implies seq_get(self.entries@, k2) == (if k2 == k@ {
                Some(v)
            } else {
                seq_get(es, k2)
            }) by {
                lemma_seq_get_push(es, (k, v), k2);
            }
            assert forall|i: int, j: int|
                0 <= i < j < self.entries@.len() implies self.entries@[i].0@
                != self.entries@[j].0@ by {
                if j == es.len() {
                    lemma_seq_get_none_no_key(es, k@);
                }
            }
        }
        true
    }
}

/// When a key is bound, some entry holds it.
pub proof fn lemma_seq_get_some_is_key<V>(es: Seq<(String, V)>, k: Seq<char>)
    requires
        seq_get(es, k) is Some,
    ensures
        exists|i: int| 0 <= i < es.len() && es[i].0@ == k,
    decreases es.len(),
{
    if es.len() > 0 {
        if es[0].0@ == k {
            assert(es[0].0@ == k);
        } else {
            lemma_seq_get_some_is_key(es.drop_first(), k);
            let i = choose|i: int|
                0 <= i < es.drop_first().len() && es.drop_first()[i].0@ == k;
            assert(es[i + 1].0@ == k);
        }
    }
}

/// When a key is unbound, no entry holds it.
pub proof fn lemma_seq_get_none_no_key<V>(es: Seq<(String, V)>, k: Seq<char>)
    requires
        seq_get(es, k) is None,
    ensures
        forall|i: int| 0 <= i < es.len() ==> es[i].0@ != k,
    decreases es.len(),
{
    if es.len() > 0 {
        lemma_seq_get_none_no_key(es.drop_first(), k);
        assert forall|i: int| 0 <= i < es.len() implies es[i].0@ != k by {
            if i > 0 {
                assert(es.drop_first()[i - 1] == es[i]);
            }
        }
    }
}

/// Appending an entry binds its key if it was unbound, and nothing else.
pub proof fn lemma_seq_get_push<V>(es: Seq<(String, V)>, e: (String, V), k: Seq<char>)
    ensures
        seq_get(es, k) is Some ==> seq_get(es.push(e), k) == seq_get(es, k),
        seq_get(es, k) is None && e.0@ == k ==> seq_get(es.push(e), k) == Some(e.1),
        seq_get(es, k) is None && e.0@ != k ==> seq_get(es.push(e), k) is None,
    decreases es.len(),
{
    if es.len() == 0 {
        assert(es.push(e)[0] == e);
        assert(es.push(e).drop_first() =~= Seq::<(String, V)>::empty());
        assert(seq_get(es, k) is None);
        if e.0@ == k {
            assert(es.push(e)[0].0@ == k);
            assert(seq_get(es.push(e), k) == Some(es.push(e)[0].1));
        } else {
            assert(seq_get(es.push(e), k) == seq_get(es.push(e).drop_first(), k));
        }
    } else {
        assert(es.push(e)[0] == es[0]);
        assert(es.push(e).drop_first() =~= es.drop_first().push(e));
        lemma_seq_get_push(es.drop_first(), e, k);
        if es[0].0@ == k {
            assert(seq_get(es, k) == Some(es[0].1));
            assert(seq_get(es.push(e), k) == Some(es[0].1));
        } else {
            assert(seq_get(es, k) == seq_get(es.drop_first(), k));
            assert(seq_get(es.push(e), k) == seq_get(es.drop_first().push(e), k));
        }
    }
}

} // verus!
