//! Certificate selection by SNI: a map from normalized domain to the index
//! of its certified key, with the first configured domain as the explicit
//! default. The resolver never answers "none": an absent or unknown server
//! name gets the default, so a handshake is never aborted for lack of SNI.

use vstd::prelude::*;

verus! {

use crate::domain::{normalize_spec, normalize_domain};
use crate::table::DomainMap;

/// The resolver's table: normalized domain to an index below `count` into
/// whatever list of certified keys the listener holds, and the index of
/// the default (the first domain inserted).
pub struct CertResolver {
    pub table: DomainMap<usize>,
    pub default_ix: usize,
    pub count: usize,
}

impl CertResolver {
    /// Every index is below `count`, and the default is index zero of a
    /// non-empty list.
    pub open spec fn wf(self) -> bool {
        &&& self.table.wf()
        &&& self.count > 0
        &&& self.default_ix == 0
        &&& forall|i: int|
            0 <= i < self.table.spec_entries().len() ==> (
            #[trigger] self.table.spec_entries()[i]).1 < self.count
    }

    /// Builds the table from the configured domains, keyed by their
    /// normalized form, each mapped to its position; the default is the
    /// first. Nothing is built from an empty list: the listener cannot
    /// serve without a certificate.
    pub fn build(domains: &Vec<String>) -> (r: Option<CertResolver>)
        requires
            forall|i: int, j: int|
                0 <= i < j < domains@.len() ==> normalize_spec(domains@[i]@) != normalize_spec(
                    domains@[j]@,
                ),
        ensures
            r is Some <==> domains@.len() > 0,
            r matches Some(c) ==> {
                &&& c.wf()
                &&& c.count == domains@.len()
                &&& c.table.spec_entries().len() == domains@.len()
                &&& forall|i: int|
                    0 <= i < domains@.len() ==> (#[trigger] c.table.spec_entries()[i]) == (
                    c.table.spec_entries()[i].0,
                    i as usize,
                ) && c.table.spec_entries()[i].0@ == normalize_spec(domains@[i]@)
            },
    {
        let n = domains.len();
        if n == 0 {
            return None;
        }
        let mut table: DomainMap<usize> = DomainMap::new();
        let mut i: usize = 0;
        while i < n
            invariant
                0 <= i <= n == domains@.len(),
                forall|t1: int, t2: int|
                    0 <= t1 < t2 < domains@.len() ==> normalize_spec(domains@[t1]@)
                        != normalize_spec(domains@[t2]@),
                table.wf(),
                table.spec_entries().len() == i,
                forall|t: int|
                    0 <= t < i ==> (#[trigger] table.spec_entries()[t]).1 == t && table.spec_entries()[t].0@
                        == normalize_spec(domains@[t]@),
            decreases n - i,
        {
            let key = normalize_domain(domains[i].as_str());
            let ghost ents = table.spec_entries();
            if table.contains_key(key.as_str()) {
                proof {
                    crate::table::lemma_seq_get_some_is_key(ents, key@);
                    let t = choose|t: int| 0 <= t < ents.len() && ents[t].0@ == key@;
                    assert(normalize_spec(domains@[t]@) == normalize_spec(domains@[i as int]@));
                    assert(false);
                }
            }
            let inserted = table.insert(key, i);
            assert(inserted);
            proof {
                assert forall|t: int|
                    0 <= t < i + 1 implies (#[trigger] table.spec_entries()[t]).1 == t
                    && table.spec_entries()[t].0@ == normalize_spec(domains@[t]@) by {
                    if t < i as int {
                        assert(table.spec_entries()[t] == ents[t]);
                    }
                }
            }
            i += 1;
        }
        Some(CertResolver { table, default_ix: 0, count: n })
    }

    /// The index of the certified key for a ClientHello: the entry under
    /// the normalized server name when there is one, the default for an
    /// absent or unknown name. Always below `count`.
    pub fn resolve(&self, sni: Option<&str>) -> (ix: usize)
        requires
            self.wf(),
        ensures
            ix < self.count,
            match sni {
                Some(s) => ix == (if self.table.spec_contains(normalize_spec(s@)) {
                    self.table.spec_get(normalize_spec(s@))->Some_0
                } else {
                    self.default_ix
                }),
                None => ix == self.default_ix,
            },
    {
        match sni {
            None => self.default_ix,
            Some(s) => {
                let key = normalize_domain(s);
                match self.table.get(key.as_str()) {
                    Some(ix) => {
                        proof {
                            crate::table::lemma_seq_get_some_is_key(
                                self.table.spec_entries(),
                                key@,
                            );
                            lemma_get_is_entry(self.table.spec_entries(), key@);
                        }
                        *ix
                    },
                    None => self.default_ix,
                }
            },
        }
    }
}

/// A successful lookup returns the value of some entry.
proof fn lemma_get_is_entry<V>(es: Seq<(String, V)>, k: Seq<char>)
    requires
        crate::table::seq_get(es, k) is Some,
    ensures
        exists|i: int|
            0 <= i < es.len() && #[trigger] es[i].1 == crate::table::seq_get(es, k)->Some_0,
    decreases es.len(),
{
    if es.len() > 0 {
        if es[0].0@ == k {
            assert(es[0].1 == crate::table::seq_get(es, k)->Some_0);
        } else {
            lemma_get_is_entry(es.drop_first(), k);
            let i = choose|i: int|
                0 <= i < es.drop_first().len() && #[trigger] es.drop_first()[i].1
                    == crate::table::seq_get(es.drop_first(), k)->Some_0;
            assert(es[i + 1].1 == crate::table::seq_get(es, k)->Some_0);
        }
    }
}

} // verus!
