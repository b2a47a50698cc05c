//! The opaque key-value backing store: text entries partitioned into
//! namespaces, with batched, atomic writes and removals.
//!
//! One logical secret occupies two entries of its service's namespace, so
//! the store commits each batch as a whole: either every entry of the batch
//! is applied or none is. A commit fault can be injected to exercise the
//! failure path; a faulted batch leaves the store contents untouched, which
//! is exactly the atomicity the operations above rely on.

use vstd::prelude::*;
use crate::error::Error;

verus! {

/// The newest value stored under `(ns, key)`, if any: later writes shadow
/// earlier ones.
pub open spec fn lookup_entries(
    s: Seq<(String, String, String)>,
    ns: Seq<char>,
    key: Seq<char>,
) -> Option<Seq<char>>
    decreases s.len(),
{
    if s.len() == 0 {
        None
    } else if s.last().0@ == ns && s.last().1@ == key {
        Some(s.last().2@)
    } else {
        lookup_entries(s.drop_last(), ns, key)
    }
}

/// The value the newest batch entry assigns to `key`, if any.
pub open spec fn last_write(entries: Seq<(String, String)>, key: Seq<char>) -> Option<Seq<char>>
    decreases entries.len(),
{
    if entries.len() == 0 {
        None
    } else if entries.last().0@ == key {
        Some(entries.last().1@)
    } else {
        last_write(entries.drop_last(), key)
    }
}

/// Whether a batch of keys names `k`.
pub open spec fn key_listed(keys: Seq<String>, k: Seq<char>) -> bool {
    exists|i: int| 0 <= i < keys.len() && keys[i]@ == k
}

/// The store contents after removing every entry of namespace `ns` whose
/// key the batch names.
pub open spec fn remove_entries(
    s: Seq<(String, String, String)>,
    ns: Seq<char>,
    keys: Seq<String>,
) -> Seq<(String, String, String)>
    decreases s.len(),
{
    if s.len() == 0 {
        s
    } else {
        let r = remove_entries(s.drop_last(), ns, keys);
        if s.last().0@ == ns && key_listed(keys, s.last().1@) {
            r
        } else {
            r.push(s.last())
        }
    }
}

/// Removal erases exactly the named keys of the namespace and leaves every
/// other entry's lookup unchanged.
proof fn lemma_remove_lookup(
    s: Seq<(String, String, String)>,
    ns: Seq<char>,
    keys: Seq<String>,
    ns2: Seq<char>,
    k2: Seq<char>,
)
    ensures
        lookup_entries(remove_entries(s, ns, keys), ns2, k2) == if ns2 == ns && key_listed(
            keys,
            k2,
        ) {
            None::<Seq<char>>
        } else {
            lookup_entries(s, ns2, k2)
        },
    decreases s.len(),
{
    if s.len() == 0 {
    } else {
        lemma_remove_lookup(s.drop_last(), ns, keys, ns2, k2);
        let r = remove_entries(s.drop_last(), ns, keys);
        if s.last().0@ == ns && key_listed(keys, s.last().1@) {
        } else {
            assert(r.push(s.last()).drop_last() =~= r);
            assert(r.push(s.last()).last() == s.last());
        }
    }
}

/// The text-only backing store.
pub struct SecretStore {
    entries: Vec<(String, String, String)>,
    pending_fault: bool,
}

impl SecretStore {
    /// The value stored under `(ns, key)`, if any.
    pub closed spec fn spec_read(&self, ns: Seq<char>, key: Seq<char>) -> Option<Seq<char>> {
        lookup_entries(self.entries@, ns, key)
    }

    /// Whether the next commit will fail.
    pub closed spec fn spec_fault(&self) -> bool {
        self.pending_fault
    }

    /// An empty store.
    pub fn new() -> (r: SecretStore)
        ensures
            forall|ns: Seq<char>, k: Seq<char>| #[trigger] r.spec_read(ns, k) is None,
            !r.spec_fault(),
    {
        SecretStore { entries: Vec::new(), pending_fault: false }
    }

    /// Makes the next batch commit fail, leaving the contents untouched.
    pub fn inject_commit_fault(&mut self)
        ensures
            final(self).spec_fault(),
            forall|ns: Seq<char>, k: Seq<char>| #[trigger]
                final(self).spec_read(ns, k) == old(self).spec_read(ns, k),
    {
        self.pending_fault = true;
    }

    /// The value stored under `(ns, key)`, if any.
    pub fn read(&self, ns: &str, key: &str) -> (r: Option<String>)
        ensures
            match r {
                Some(v) => self.spec_read(ns@, key@) == Some(v@),
                None => self.spec_read(ns@, key@) is None,
            },
    {
        let ns_owned: String = ns.to_owned();
        let key_owned: String = key.to_owned();
        let n: usize = self.entries.len();
        proof {
            assert(self.entries@.take(n as int) =~= self.entries@);
        }
        let mut i: usize = n;
        while i > 0
            invariant
                i <= n,
                n == self.entries@.len(),
                ns_owned@ == ns@,
                key_owned@ == key@,
                lookup_entries(self.entries@, ns@, key@) == lookup_entries(
                    self.entries@.take(i as int),
                    ns@,
                    key@,
                ),
            decreases i,
        {
            let hit = self.entries[i - 1].0 == ns_owned && self.entries[i - 1].1 == key_owned;
            proof {
                assert(self.entries@.take(i as int).last() == self.entries@[i - 1]);
                assert(self.entries@.take(i as int).drop_last() =~= self.entries@.take(i - 1));
            }
            if hit {
                let v: String = self.entries[i - 1].2.clone();
                return Some(v);
            }
            i -= 1;
        }
        proof {
            assert(self.entries@.take(0) =~= Seq::<(String, String, String)>::empty());
        }
        None
    }

    /// Whether any value is stored under `(ns, key)`.
    pub fn contains(&self, ns: &str, key: &str) -> (r: bool)
        ensures
            r == (self.spec_read(ns@, key@) is Some),
    {
        self.read(ns, key).is_some()
    }

    /// Writes a batch of `(key, value)` entries into namespace `ns`,
    /// atomically: all of them on success, none on a commit fault. Within
    /// one batch a later entry for the same key wins.
    pub fn write_batch(&mut self, ns: &str, entries: &Vec<(String, String)>) -> (r: Result<
        (),
        Error,
    >)
        ensures
            !final(self).spec_fault(),
            r is Ok <==> !old(self).spec_fault(),
            r matches Err(e) ==> e == Error::Commit,
            r is Err ==> forall|ns2: Seq<char>, k2: Seq<char>| #[trigger]
                final(self).spec_read(ns2, k2) == old(self).spec_read(ns2, k2),
            r is Ok ==> forall|ns2: Seq<char>, k2: Seq<char>| #[trigger]
                final(self).spec_read(ns2, k2) == if ns2 == ns@ {
                    match last_write(entries@, k2) {
                        Some(v) => Some(v),
                        None => old(self).spec_read(ns2, k2),
                    }
                } else {
                    old(self).spec_read(ns2, k2)
                },
    {
        if self.pending_fault {
            self.pending_fault = false;
            return Err(Error::Commit);
        }
        let n: usize = entries.len();
        proof {
            assert(entries@.take(0) =~= Seq::<(String, String)>::empty());
        }
        let mut i: usize = 0;
        while i < n
            invariant
                i <= n,
                n == entries@.len(),
                !self.pending_fault,
                forall|ns2: Seq<char>, k2: Seq<char>| #[trigger]
                    lookup_entries(self.entries@, ns2, k2) == if ns2 == ns@ {
                        match last_write(entries@.take(i as int), k2) {
                            Some(v) => Some(v),
                            None => old(self).spec_read(ns2, k2),
                        }
                    } else {
                        old(self).spec_read(ns2, k2)
                    },
            decreases n - i,
        {
            let key: String = entries[i].0.clone();
            let value: String = entries[i].1.clone();
            let ns_entry: String = ns.to_owned();
            let ghost prev = self.entries@;
            let ghost e = (ns_entry, key, value);
            self.entries.push((ns_entry, key, value));
            proof {
                assert(self.entries@ == prev.push(e));
                assert(self.entries@.drop_last() =~= prev);
                assert(self.entries@.last() == e);
                assert(entries@.take(i + 1).drop_last() =~= entries@.take(i as int));
                assert(entries@.take(i + 1).last() == entries@[i as int]);
                assert(key == entries@[i as int].0);
                assert(value == entries@[i as int].1);
                assert forall|ns2: Seq<char>, k2: Seq<char>| true implies #[trigger] lookup_entries(
                    self.entries@,
                    ns2,
                    k2,
                ) == (if ns2 == ns@ {
                    match last_write(entries@.take(i + 1), k2) {
                        Some(v) => Some(v),
                        None => old(self).spec_read(ns2, k2),
                    }
                } else {
                    old(self).spec_read(ns2, k2)
                }) by {
                    if ns2 == ns@ && k2 == key@ {
                        assert(lookup_entries(self.entries@, ns2, k2) == Some(value@));
                        assert(last_write(entries@.take(i + 1), k2) == Some(value@));
                    } else {
                        assert(lookup_entries(self.entries@, ns2, k2) == lookup_entries(
                            prev,
                            ns2,
                            k2,
                        ));
                        if ns2 == ns@ {
                            assert(last_write(entries@.take(i + 1), k2) == last_write(
                                entries@.take(i as int),
                                k2,
                            ));
                        }
                    }
                };
            }
            i += 1;
        }
        proof {
            assert(entries@.take(n as int) =~= entries@);
        }
        Ok(())
    }

    /// Removes the named keys from namespace `ns`, atomically: all of them
    /// on success, none on a commit fault. Keys with no entry are simply
    /// absent afterwards.
    pub fn remove_batch(&mut self, ns: &str, keys: &Vec<String>) -> (r: Result<(), Error>)
        ensures
            !final(self).spec_fault(),
            r is Ok <==> !old(self).spec_fault(),
            r matches Err(e) ==> e == Error::Commit,
            r is Err ==> forall|ns2: Seq<char>, k2: Seq<char>| #[trigger]
                final(self).spec_read(ns2, k2) == old(self).spec_read(ns2, k2),
            r is Ok ==> forall|ns2: Seq<char>, k2: Seq<char>| #[trigger]
                final(self).spec_read(ns2, k2) == if ns2 == ns@ && key_listed(keys@, k2) {
                    None::<Seq<char>>
                } else {
                    old(self).spec_read(ns2, k2)
                },
    {
        if self.pending_fault {
            self.pending_fault = false;
            return Err(Error::Commit);
        }
        let ns_owned: String = ns.to_owned();
        let n: usize = self.entries.len();
        let mut kept: Vec<(String, String, String)> = Vec::new();
        proof {
            assert(self.entries@.take(0) =~= Seq::<(String, String, String)>::empty());
            assert(kept@ =~= remove_entries(self.entries@.take(0), ns@, keys@));
        }
        let mut i: usize = 0;
        while i < n
            invariant
                i <= n,
                n == self.entries@.len(),
                ns_owned@ == ns@,
                kept@ == remove_entries(self.entries@.take(i as int), ns@, keys@),
            decreases n - i,
        {
            let drop_it = self.entries[i].0 == ns_owned && key_in(keys, &self.entries[i].1);
            proof {
                assert(self.entries@.take(i + 1).drop_last() =~= self.entries@.take(i as int));
                assert(self.entries@.take(i + 1).last() == self.entries@[i as int]);
            }
            if !drop_it {
                let e0: String = self.entries[i].0.clone();
                let e1: String = self.entries[i].1.clone();
                let e2: String = self.entries[i].2.clone();
                kept.push((e0, e1, e2));
                proof {
                    assert((e0, e1, e2) == self.entries@[i as int]);
                }
            }
            i += 1;
        }
        proof {
            assert(self.entries@.take(n as int) =~= self.entries@);
            assert(kept@ == remove_entries(self.entries@, ns@, keys@));
            assert forall|ns2: Seq<char>, k2: Seq<char>| true implies #[trigger] lookup_entries(
                kept@,
                ns2,
                k2,
            ) == if ns2 == ns@ && key_listed(keys@, k2) {
                None::<Seq<char>>
            } else {
                lookup_entries(self.entries@, ns2, k2)
            } by {
                lemma_remove_lookup(self.entries@, ns@, keys@, ns2, k2);
            };
        }
        self.entries = kept;
        Ok(())
    }
}

/// Whether a batch of keys contains `k`.
fn key_in(keys: &Vec<String>, k: &String) -> (r: bool)
    ensures
        r == key_listed(keys@, k@),
{
    let n: usize = keys.len();
    let mut i: usize = 0;
    while i < n
        invariant
            i <= n,
            n == keys@.len(),
            forall|j: int| 0 <= j < i ==> keys@[j]@ != k@,
        decreases n - i,
    {
        if keys[i] == *k {
            return true;
        }
        i += 1;
    }
    false
}

} // verus!
