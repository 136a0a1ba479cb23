//! The storage contract, and the plain in-memory store.

use vstd::prelude::*;
use crate::entry::{
    entry_map, entry_views, find_entry, keys_distinct, lemma_entry_at, lemma_map_size,
    lemma_push_inserts, lemma_remove_removes, lemma_update_inserts, CacheMap, StoredEntry,
};
use crate::message::HttpResponse;
use crate::policy::FreshnessPolicy;

verus! {

/// A backend could not carry out an operation.
#[derive(Debug)]
pub struct StorageError {
    pub reason: String,
}

impl StorageError {
    /// The reason, as text.
    pub fn message(&self) -> (r: String)
        ensures
            r@ == self.reason@,
    {
        self.reason.clone()
    }
}

/// What `get` shows of a store: the pair under the key, if the key is there.
pub open spec fn shows(contents: CacheMap, key: Seq<char>, found: Option<
    (HttpResponse, FreshnessPolicy),
>) -> bool {
    match found {
        Some(pair) => contents.contains_key(key) && contents[key] == (pair.0@, pair.1@),
        None => !contents.contains_key(key),
    }
}

/// The storage contract. A store holds at most one entry per key. Every
/// operation either takes effect as a whole or fails and changes nothing.
pub trait CacheManager {
    /// What the store holds.
    spec fn contents(&self) -> CacheMap;

    /// The store's internal structure is consistent.
    spec fn wf(&self) -> bool;

    /// The store never fails. A store that keeps its entries in memory is
    /// reliable; one that does I/O is not.
    spec fn reliable(&self) -> bool;

    /// Looks `key` up. Freshness plays no part: a stale entry is returned
    /// like any other.
    fn get(&self, key: &String) -> (r: Result<Option<(HttpResponse, FreshnessPolicy)>, StorageError>)
        requires
            self.wf(),
        ensures
            r is Ok ==> shows(self.contents(), key@, r->Ok_0),
            self.reliable() ==> r is Ok,
    ;

    /// Stores the pair under `key`, replacing whatever was there.
    fn put(&mut self, key: String, response: HttpResponse, policy: FreshnessPolicy) -> (r: Result<
        (),
        StorageError,
    >)
        requires
            old(self).wf(),
        ensures
            final(self).wf(),
            r is Ok ==> final(self).contents() == old(self).contents().insert(
                key@,
                (response@, policy@),
            ),
            r is Err ==> final(self).contents() == old(self).contents(),
            final(self).reliable() == old(self).reliable(),
            old(self).reliable() ==> r is Ok,
    ;

    /// Removes the entry under `key`. Removing an absent key succeeds.
    fn delete(&mut self, key: &String) -> (r: Result<(), StorageError>)
        requires
            old(self).wf(),
        ensures
            final(self).wf(),
            r is Ok ==> final(self).contents() == old(self).contents().remove(key@),
            r is Err ==> final(self).contents() == old(self).contents(),
            final(self).reliable() == old(self).reliable(),
            old(self).reliable() ==> r is Ok,
    ;
}

/// Looking a key up right after storing under it yields what was stored.
pub proof fn lemma_put_then_get(
    before: CacheMap,
    key: Seq<char>,
    response: HttpResponse,
    policy: FreshnessPolicy,
    found: Option<(HttpResponse, FreshnessPolicy)>,
)
    requires
        shows(before.insert(key, (response@, policy@)), key, found),
    ensures
        match found {
            Some(pair) => pair.0@ == response@ && pair.1@ == policy@,
            None => false,
        },
{
}

/// Looking a key up right after deleting it yields nothing, whatever the
/// store held before.
pub proof fn lemma_delete_then_get(
    before: CacheMap,
    key: Seq<char>,
    found: Option<(HttpResponse, FreshnessPolicy)>,
)
    requires
        shows(before.remove(key), key, found),
    ensures
        found is None,
{
}

/// Storing or deleting under one key leaves every other key as it was.
pub proof fn lemma_other_keys_untouched(
    before: CacheMap,
    key: Seq<char>,
    other: Seq<char>,
    response: HttpResponse,
    policy: FreshnessPolicy,
)
    requires
        other != key,
    ensures
        before.insert(key, (response@, policy@)).contains_key(other) == before.contains_key(other),
        before.contains_key(other) ==> before.insert(key, (response@, policy@))[other]
            == before[other],
        before.remove(key).contains_key(other) == before.contains_key(other),
        before.contains_key(other) ==> before.remove(key)[other] == before[other],
{
}

/// A store that lives in memory and never fails.
pub struct MemoryStore {
    entries: Vec<StoredEntry>,
}

impl MemoryStore {
    /// An empty store.
    pub fn new() -> (r: Self)
        ensures
            r.wf(),
            r.contents() == CacheMap::empty(),
    {
        let r = MemoryStore { entries: Vec::new() };
        assert(r.contents() =~= CacheMap::empty());
        r
    }

    /// Number of entries.
    pub fn len(&self) -> (r: usize)
        requires
            self.wf(),
        ensures
            r == self.contents().len(),
            self.contents().dom().finite(),
    {
        proof {
            lemma_map_size(entry_views(self.entries@));
        }
        self.entries.len()
    }

    /// Removes every entry.
    pub fn clear(&mut self)
        ensures
            final(self).wf(),
            final(self).contents() == CacheMap::empty(),
    {
        self.entries = Vec::new();
        assert(self.contents() =~= CacheMap::empty());
    }
}

impl Default for MemoryStore {
    fn default() -> (r: Self)
        ensures
            r.wf(),
            r.contents() == CacheMap::empty(),
    {
        MemoryStore::new()
    }
}

impl CacheManager for MemoryStore {
    closed spec fn contents(&self) -> CacheMap {
        entry_map(entry_views(self.entries@))
    }

    closed spec fn wf(&self) -> bool {
        keys_distinct(entry_views(self.entries@))
    }

    open spec fn reliable(&self) -> bool {
        true
    }

    fn get(&self, key: &String) -> (r: Result<Option<(HttpResponse, FreshnessPolicy)>, StorageError>)
        ensures
            r is Ok,
    {
        match find_entry(&self.entries, key) {
            Some(i) => {
                proof {
                    lemma_entry_at(entry_views(self.entries@), i as int);
                }
                Ok(Some((self.entries[i].response.clone(), self.entries[i].policy.clone())))
            },
            None => Ok(None),
        }
    }

    fn put(&mut self, key: String, response: HttpResponse, policy: FreshnessPolicy) -> (r: Result<
        (),
        StorageError,
    >)
        ensures
            r is Ok,
    {
        let ghost before = entry_views(self.entries@);
        let found = find_entry(&self.entries, &key);
        let entry = StoredEntry { key, response, policy };
        match found {
            Some(i) => {
                proof {
                    lemma_update_inserts(before, i as int, entry@);
                }
                self.entries[i] = entry;
                assert(entry_views(self.entries@) =~= before.update(i as int, entry@));
            },
            None => {
                proof {
                    lemma_push_inserts(before, entry@);
                }
                self.entries.push(entry);
                assert(entry_views(self.entries@) =~= before.push(entry@));
            },
        }
        Ok(())
    }

    fn delete(&mut self, key: &String) -> (r: Result<(), StorageError>)
        ensures
            r is Ok,
    {
        let ghost before = entry_views(self.entries@);
        match find_entry(&self.entries, key) {
            Some(i) => {
                proof {
                    lemma_remove_removes(before, i as int);
                }
                self.entries.remove(i);
                assert(entry_views(self.entries@) =~= before.remove(i as int));
            },
            None => {
                assert(self.contents().remove(key@) =~= self.contents());
            },
        }
        Ok(())
    }
}

/// A store with a switch, to see how a cache fares while its backend is
/// out of reach. While `down`, every operation fails and the entries stay
/// as they are; otherwise the inner store does the work.
pub struct Faulty<M: CacheManager> {
    pub inner: M,
    pub down: bool,
}

impl<M: CacheManager> Faulty<M> {
    /// The error of a store that is down.
    pub fn unreachable() -> (r: StorageError)
        ensures
            r.reason@ == "backend is down"@,
    {
        StorageError { reason: String::from_str("backend is down") }
    }
}

impl<M: CacheManager> CacheManager for Faulty<M> {
    open spec fn contents(&self) -> CacheMap {
        self.inner.contents()
    }

    open spec fn wf(&self) -> bool {
        self.inner.wf()
    }

    open spec fn reliable(&self) -> bool {
        !self.down && self.inner.reliable()
    }

    fn get(&self, key: &String) -> (r: Result<Option<(HttpResponse, FreshnessPolicy)>, StorageError>)
        ensures
            self.down ==> r is Err,
    {
        if self.down {
            Err(Self::unreachable())
        } else {
            self.inner.get(key)
        }
    }

    fn put(&mut self, key: String, response: HttpResponse, policy: FreshnessPolicy) -> (r: Result<
        (),
        StorageError,
    >)
        ensures
            old(self).down ==> r is Err,
            final(self).down == old(self).down,
    {
        if self.down {
            Err(Self::unreachable())
        } else {
            self.inner.put(key, response, policy)
        }
    }

    fn delete(&mut self, key: &String) -> (r: Result<(), StorageError>)
        ensures
            old(self).down ==> r is Err,
            final(self).down == old(self).down,
    {
        if self.down {
            Err(Self::unreachable())
        } else {
            self.inner.delete(key)
        }
    }
}

} // verus!
