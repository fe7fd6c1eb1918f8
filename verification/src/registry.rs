//! The process-wide catalog of committed stores, keyed by display name.
//!
//! The registry is an explicitly constructed value handed by reference to
//! whoever needs it; a caller that shares it across threads wraps it in a
//! lock. Names are unique: committing a duplicate name signals a
//! duplicate-name condition and changes nothing.

use vstd::prelude::*;
use std::sync::Arc;
use crate::mailbox::Mailbox;
use crate::mailbox::ScanError;
use crate::task::arc_clone;

verus! {

/// Whether a committed store is named `n`.
pub open spec fn contains_name(s: Seq<Arc<Mailbox>>, n: Seq<char>) -> bool {
    exists|i: int| 0 <= i < s.len() && s[i]@.name == n
}

/// The first committed store named `n`, if any.
pub open spec fn spec_lookup(s: Seq<Arc<Mailbox>>, n: Seq<char>) -> Option<Arc<Mailbox>>
    decreases s.len(),
{
    if s.len() == 0 {
        None
    } else if s[0]@.name == n {
        Some(s[0])
    } else {
        spec_lookup(s.drop_first(), n)
    }
}

/// A lookup finds a store exactly when one is committed under the name, and
/// what it finds is a committed store carrying that name.
pub proof fn lemma_lookup_characterizes(s: Seq<Arc<Mailbox>>, n: Seq<char>)
    ensures
        (spec_lookup(s, n) is Some) == contains_name(s, n),
        match spec_lookup(s, n) {
            Some(m) => m@.name == n && s.contains(m),
            None => true,
        },
    decreases s.len(),
{
    if s.len() == 0 {
    } else if s[0]@.name == n {
        assert(contains_name(s, n));
    } else {
        lemma_lookup_characterizes(s.drop_first(), n);
        if contains_name(s, n) {
            let i = choose|i: int| 0 <= i < s.len() && s[i]@.name == n;
            assert(s.drop_first()[i - 1]@.name == n);
            assert(contains_name(s.drop_first(), n));
        }
        if spec_lookup(s.drop_first(), n) is Some {
            let m = spec_lookup(s.drop_first(), n)->Some_0;
            let i = choose|i: int| 0 <= i < s.drop_first().len() && s.drop_first()[i] == m;
            assert(s[i + 1] == m);
        }
        if contains_name(s.drop_first(), n) {
            let i = choose|i: int| 0 <= i < s.drop_first().len() && s.drop_first()[i]@.name == n;
            assert(s[i + 1]@.name == n);
        }
    }
}

/// Committing a fresh name and then looking that name up finds exactly the
/// store that was committed.
pub proof fn lemma_insert_then_lookup(s: Seq<Arc<Mailbox>>, store: Arc<Mailbox>)
    requires
        !contains_name(s, store@.name),
    ensures
        spec_lookup(s.push(store), store@.name) == Some(store),
    decreases s.len(),
{
    if s.len() == 0 {
        assert(s.push(store)[0] == store);
    } else {
        assert(s[0]@.name != store@.name);
        assert(s.push(store)[0] == s[0]);
        assert forall|i: int| 0 <= i < s.drop_first().len() implies s.drop_first()[i]@.name
            != store@.name by {
            assert(s[i + 1] == s.drop_first()[i]);
        }
        lemma_insert_then_lookup(s.drop_first(), store);
        assert(s.push(store).drop_first() =~= s.drop_first().push(store));
    }
}

/// The catalog of committed stores, in commit order.
#[derive(Debug)]
pub struct Registry {
    pub stores: Vec<Arc<Mailbox>>,
}

impl Registry {
    /// The registry's invariant: no two committed stores share a name.
    pub open spec fn wf(&self) -> bool {
        forall|i: int, j: int|
            0 <= i < j < self.stores@.len() ==> self.stores@[i]@.name != self.stores@[j]@.name
    }

    /// The empty registry.
    pub fn new() -> (r: Registry)
        ensures
            r.stores@.len() == 0,
            r.wf(),
    {
        Registry { stores: Vec::new() }
    }

    /// How many stores are committed.
    pub fn len(&self) -> (n: usize)
        ensures
            n == self.stores@.len(),
    {
        self.stores.len()
    }

    fn contains_name_exec(&self, name: &String) -> (r: bool)
        ensures
            r == contains_name(self.stores@, name@),
    {
        let mut i: usize = 0;
        while i < self.stores.len()
            invariant
                i <= self.stores@.len(),
                forall|j: int| 0 <= j < i ==> self.stores@[j]@.name != name@,
            decreases self.stores@.len() - i,
        {
            if self.stores[i].name == *name {
                return true;
            }
            i += 1;
        }
        false
    }

    /// Commit a store under its name. A name already present is signalled as
    /// the duplicate-name condition and leaves the registry unchanged;
    /// otherwise the store is appended in commit order.
    pub fn insert(&mut self, store: Arc<Mailbox>) -> (r: Result<(), ScanError>)
        requires
            old(self).wf(),
        ensures
            final(self).wf(),
            contains_name(old(self).stores@, store@.name) ==> r == Err::<(), ScanError>(
                ScanError::DuplicateName,
            ) && *final(self) == *old(self),
            !contains_name(old(self).stores@, store@.name) ==> r == Ok::<(), ScanError>(())
                && final(self).stores@ == old(self).stores@.push(store),
    {
        if self.contains_name_exec(&store.name) {
            return Err(ScanError::DuplicateName);
        }
        self.stores.push(store);
        proof {
            let s = self.stores@;
            assert forall|i: int, j: int| 0 <= i < j < s.len() implies s[i]@.name
                != s[j]@.name by {
                if j == s.len() - 1 {
                    assert(!contains_name(old(self).stores@, s[j]@.name));
                }
            }
        }
        Ok(())
    }

    /// Look up a committed store by name; the returned handle shares the
    /// committed value.
    pub fn lookup(&self, name: &String) -> (r: Option<Arc<Mailbox>>)
        ensures
            r == spec_lookup(self.stores@, name@),
            (r is Some) == contains_name(self.stores@, name@),
    {
        proof {
            lemma_lookup_characterizes(self.stores@, name@);
            assert(self.stores@.skip(0) =~= self.stores@);
        }
        let mut i: usize = 0;
        while i < self.stores.len()
            invariant
                i <= self.stores@.len(),
                spec_lookup(self.stores@, name@) == spec_lookup(
                    self.stores@.skip(i as int),
                    name@,
                ),
            decreases self.stores@.len() - i,
        {
            if self.stores[i].name == *name {
                let found = arc_clone(&self.stores[i]);
                proof {
                    assert(self.stores@.skip(i as int)[0] == self.stores@[i as int]);
                }
                return Some(found);
            }
            proof {
                assert(self.stores@.skip(i as int)[0] == self.stores@[i as int]);
                assert(self.stores@.skip(i as int).drop_first() =~= self.stores@.skip(i + 1));
            }
            i += 1;
        }
        None
    }

    /// All committed stores, in commit order.
    pub fn stores(&self) -> (r: &Vec<Arc<Mailbox>>)
        ensures
            r == &self.stores,
    {
        &self.stores
    }
}

} // verus!
