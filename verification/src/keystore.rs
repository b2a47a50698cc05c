//! The hardware-backed key provider, explicit-key-store variant.
//!
//! A named, non-exportable symmetric key is created lazily under an alias
//! and reused on every later request for the same alias. Key material never
//! leaves the store; a key is addressed only through its handle. The model
//! keeps one handle per alias, with a counter providing fresh handle
//! identities, and records whether the key demands user presence before
//! use. Keys are never removed: deleting a logical secret leaves its
//! hardware key behind, exactly as the delete operation documents.

use vstd::prelude::*;

verus! {

/// The handle of one non-exportable 128-bit symmetric key. The identity
/// selects the key material inside the store; `require_auth` records
/// whether the key was created demanding user presence before use.
#[derive(Clone, Copy, PartialEq, Eq, Structural, Debug)]
pub struct SecretKey {
    pub id: u64,
    pub require_auth: bool,
}

/// First-match lookup of an alias in a list of keyed entries.
pub open spec fn lookup_key(s: Seq<(String, SecretKey)>, alias: Seq<char>) -> Option<SecretKey>
    decreases s.len(),
{
    if s.len() == 0 {
        None
    } else if s[0].0@ == alias {
        Some(s[0].1)
    } else {
        lookup_key(s.skip(1), alias)
    }
}

/// Appending an entry changes only the lookup of its own alias, and only
/// when that alias was absent.
proof fn lemma_lookup_push(s: Seq<(String, SecretKey)>, e: (String, SecretKey), a: Seq<char>)
    ensures
        lookup_key(s.push(e), a) == if lookup_key(s, a) is Some {
            lookup_key(s, a)
        } else if e.0@ == a {
            Some(e.1)
        } else {
            None::<SecretKey>
        },
    decreases s.len(),
{
    let t = s.push(e);
    assert(t.len() == s.len() + 1);
    if s.len() == 0 {
        assert(t[0] == e);
        assert(t.skip(1) =~= Seq::<(String, SecretKey)>::empty());
        assert(lookup_key(t.skip(1), a) is None);
        if e.0@ == a {
            assert(lookup_key(t, a) == Some(e.1));
        } else {
            assert(lookup_key(t, a) == lookup_key(t.skip(1), a));
        }
    } else {
        assert(t[0] == s[0]);
        assert(t.skip(1) =~= s.skip(1).push(e));
        lemma_lookup_push(s.skip(1), e, a);
        if s[0].0@ == a {
            assert(lookup_key(t, a) == Some(s[0].1));
            assert(lookup_key(s, a) == Some(s[0].1));
        } else {
            assert(lookup_key(t, a) == lookup_key(s.skip(1).push(e), a));
            assert(lookup_key(s, a) == lookup_key(s.skip(1), a));
        }
    }
}

/// The platform key store: one hardware key per alias, created on demand.
pub struct KeyStore {
    entries: Vec<(String, SecretKey)>,
    next_id: u64,
}

impl KeyStore {
    /// The key stored under an alias, if any.
    pub closed spec fn spec_key(&self, alias: Seq<char>) -> Option<SecretKey> {
        lookup_key(self.entries@, alias)
    }

    /// The identity the next created key will receive.
    pub closed spec fn spec_next_id(&self) -> u64 {
        self.next_id
    }

    /// An empty key store.
    pub fn new() -> (r: KeyStore)
        ensures
            forall|a: Seq<char>| #[trigger] r.spec_key(a) is None,
            r.spec_next_id() == 0,
    {
        KeyStore { entries: Vec::new(), next_id: 0 }
    }

    /// The key currently stored under `alias`, without creating one.
    pub fn fetch_key(&self, alias: &str) -> (r: Option<SecretKey>)
        ensures
            r == self.spec_key(alias@),
    {
        let alias_owned: String = alias.to_owned();
        let n: usize = self.entries.len();
        proof {
            assert(self.entries@.skip(0) =~= self.entries@);
        }
        let mut i: usize = 0;
        while i < n
            invariant
                i <= n,
                n == self.entries@.len(),
                alias_owned@ == alias@,
                lookup_key(self.entries@, alias@) == lookup_key(
                    self.entries@.skip(i as int),
                    alias@,
                ),
            decreases n - i,
        {
            let hit = self.entries[i].0 == alias_owned;
            proof {
                assert(self.entries@.skip(i as int)[0] == self.entries@[i as int]);
                assert(self.entries@.skip(i as int).skip(1) =~= self.entries@.skip(i + 1));
            }
            if hit {
                return Some(self.entries[i].1);
            }
            i += 1;
        }
        proof {
            assert(self.entries@.skip(n as int) =~= Seq::<(String, SecretKey)>::empty());
        }
        None
    }

    /// Returns the key stored under `alias`, creating it first if the alias
    /// is new. Creation consumes the next key identity and records the
    /// authentication requirement; a later request under the same alias
    /// reuses the existing key as it was created, whatever
    /// `require_auth` says then.
    pub fn ensure_key(&mut self, alias: &str, require_auth: bool) -> (r: SecretKey)
        ensures
            match old(self).spec_key(alias@) {
                Some(k) => r == k && *final(self) == *old(self),
                None => {
                    &&& r == (SecretKey { id: old(self).spec_next_id(), require_auth })
                    &&& final(self).spec_key(alias@) == Some(r)
                    &&& forall|a2: Seq<char>|
                        a2 != alias@ ==> #[trigger] final(self).spec_key(a2) == old(
                            self,
                        ).spec_key(a2)
                    &&& final(self).spec_next_id() == if old(self).spec_next_id() == u64::MAX {
                        0u64
                    } else {
                        (old(self).spec_next_id() + 1) as u64
                    }
                },
            },
    {
        match self.fetch_key(alias) {
            Some(k) => k,
            None => {
                let k = SecretKey { id: self.next_id, require_auth };
                let owned: String = alias.to_owned();
                self.entries.push((owned, k));
                self.next_id = if self.next_id == u64::MAX {
                    0
                } else {
                    self.next_id + 1
                };
                proof {
                    let ghost e = (owned, k);
                    assert forall|a2: Seq<char>| true implies #[trigger] lookup_key(
                        self.entries@,
                        a2,
                    ) == if lookup_key(old(self).entries@, a2) is Some {
                        lookup_key(old(self).entries@, a2)
                    } else if a2 == alias@ {
                        Some(k)
                    } else {
                        None::<SecretKey>
                    } by {
                        assert(self.entries@ =~= old(self).entries@.push(e));
                        lemma_lookup_push(old(self).entries@, e, a2);
                    };
                }
                k
            },
        }
    }
}

} // verus!
