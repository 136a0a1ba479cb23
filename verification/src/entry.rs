//! Stored entries, and lists of them in which no key occurs twice.

use vstd::prelude::*;
use crate::message::{HttpResponse, ResponseView};
use crate::policy::{FreshnessPolicy, PolicyView};

verus! {

/// The unit of storage: a response and its policy under a key.
#[derive(Debug, PartialEq, Eq)]
pub struct StoredEntry {
    pub key: String,
    pub response: HttpResponse,
    pub policy: FreshnessPolicy,
}

pub struct EntryView {
    pub key: Seq<char>,
    pub response: ResponseView,
    pub policy: PolicyView,
}

impl View for StoredEntry {
    type V = EntryView;

    open spec fn view(&self) -> EntryView {
        EntryView { key: self.key@, response: self.response@, policy: self.policy@ }
    }
}

impl Clone for StoredEntry {
    fn clone(&self) -> (r: Self)
        ensures
            r@ == self@,
    {
        StoredEntry {
            key: self.key.clone(),
            response: self.response.clone(),
            policy: self.policy.clone(),
        }
    }
}

/// What a store holds: for each key at most one response with its policy.
pub type CacheMap = Map<Seq<char>, (ResponseView, PolicyView)>;

/// The models of a list of entries, in order.
pub open spec fn entry_views(entries: Seq<StoredEntry>) -> Seq<EntryView> {
    Seq::new(entries.len(), |i: int| entries[i]@)
}

/// No key occurs twice.
pub open spec fn keys_distinct(es: Seq<EntryView>) -> bool {
    forall|i: int, j: int|
        0 <= i < es.len() && 0 <= j < es.len() && i != j ==> (#[trigger] es[i]).key != (
        #[trigger] es[j]).key
}

pub open spec fn has_key(es: Seq<EntryView>, key: Seq<char>) -> bool {
    exists|i: int| 0 <= i < es.len() && (#[trigger] es[i]).key == key
}

/// A position at which `key` stands.
pub open spec fn index_of_key(es: Seq<EntryView>, key: Seq<char>) -> int {
    choose|i: int| 0 <= i < es.len() && (#[trigger] es[i]).key == key
}

/// The map from keys to what is stored under them.
pub open spec fn entry_map(es: Seq<EntryView>) -> CacheMap {
    Map::new(
        |k: Seq<char>| has_key(es, k),
        |k: Seq<char>| (es[index_of_key(es, k)].response, es[index_of_key(es, k)].policy),
    )
}

/// Among distinct keys, the entry at `i` is the one the map shows.
pub proof fn lemma_entry_at(es: Seq<EntryView>, i: int)
    requires
        keys_distinct(es),
        0 <= i < es.len(),
    ensures
        has_key(es, es[i].key),
        index_of_key(es, es[i].key) == i,
        entry_map(es).contains_key(es[i].key),
        entry_map(es)[es[i].key] == (es[i].response, es[i].policy),
{
    let k = es[i].key;
    assert(has_key(es, k));
    let j = index_of_key(es, k);
    assert(0 <= j < es.len() && es[j].key == k);
}

/// Appending an entry under a new key inserts it into the map.
pub proof fn lemma_push_inserts(es: Seq<EntryView>, e: EntryView)
    requires
        keys_distinct(es),
        !has_key(es, e.key),
    ensures
        keys_distinct(es.push(e)),
        entry_map(es.push(e)) == entry_map(es).insert(e.key, (e.response, e.policy)),
{
    let after = es.push(e);
    assert forall|i: int, j: int|
        0 <= i < after.len() && 0 <= j < after.len() && i != j implies (#[trigger] after[i]).key
        != (#[trigger] after[j]).key by {
        if i < es.len() {
            assert(after[i] == es[i]);
        }
        if j < es.len() {
            assert(after[j] == es[j]);
        }
    }
    let want = entry_map(es).insert(e.key, (e.response, e.policy));
    assert forall|k: Seq<char>| entry_map(after).contains_key(k) == want.contains_key(k) by {
        if has_key(after, k) {
            let i = index_of_key(after, k);
            if i < es.len() {
                assert(es[i].key == k);
            }
        }
        if has_key(es, k) {
            let i = index_of_key(es, k);
            assert(after[i].key == k);
        }
        if k == e.key {
            assert(after[es.len() as int].key == k);
        }
    }
    assert forall|k: Seq<char>| entry_map(after).contains_key(k) implies entry_map(after)[k]
        == want[k] by {
        let i = index_of_key(after, k);
        lemma_entry_at(after, i);
        if i < es.len() {
            assert(after[i] == es[i]);
            lemma_entry_at(es, i);
        }
    }
    assert(entry_map(after) =~= want);
}

/// Replacing an entry by one with the same key overwrites it in the map.
pub proof fn lemma_update_inserts(es: Seq<EntryView>, i: int, e: EntryView)
    requires
        keys_distinct(es),
        0 <= i < es.len(),
        es[i].key == e.key,
    ensures
        keys_distinct(es.update(i, e)),
        entry_map(es.update(i, e)) == entry_map(es).insert(e.key, (e.response, e.policy)),
{
    let after = es.update(i, e);
    assert forall|a: int, b: int|
        0 <= a < after.len() && 0 <= b < after.len() && a != b implies (#[trigger] after[a]).key
        != (#[trigger] after[b]).key by {
        assert(after[a].key == es[a].key);
        assert(after[b].key == es[b].key);
    }
    let want = entry_map(es).insert(e.key, (e.response, e.policy));
    assert forall|k: Seq<char>| entry_map(after).contains_key(k) == want.contains_key(k) by {
        if has_key(after, k) {
            let j = index_of_key(after, k);
            assert(es[j].key == k);
        }
        if has_key(es, k) {
            let j = index_of_key(es, k);
            assert(after[j].key == k);
        }
        if k == e.key {
            assert(after[i].key == k);
        }
    }
    assert forall|k: Seq<char>| entry_map(after).contains_key(k) implies entry_map(after)[k]
        == want[k] by {
        let j = index_of_key(after, k);
        lemma_entry_at(after, j);
        if j != i {
            assert(after[j] == es[j]);
            lemma_entry_at(es, j);
        }
    }
    assert(entry_map(after) =~= want);
}

/// Taking an entry out removes its key from the map.
pub proof fn lemma_remove_removes(es: Seq<EntryView>, i: int)
    requires
        keys_distinct(es),
        0 <= i < es.len(),
    ensures
        keys_distinct(es.remove(i)),
        !has_key(es.remove(i), es[i].key),
        entry_map(es.remove(i)) == entry_map(es).remove(es[i].key),
{
    let after = es.remove(i);
    let gone = es[i].key;
    assert forall|a: int, b: int|
        0 <= a < after.len() && 0 <= b < after.len() && a != b implies (#[trigger] after[a]).key
        != (#[trigger] after[b]).key by {
        let a0 = if a < i { a } else { a + 1 };
        let b0 = if b < i { b } else { b + 1 };
        assert(after[a] == es[a0]);
        assert(after[b] == es[b0]);
    }
    if has_key(after, gone) {
        let a = index_of_key(after, gone);
        let a0 = if a < i { a } else { a + 1 };
        assert(after[a] == es[a0]);
        assert(es[a0].key == es[i].key);
    }
    let want = entry_map(es).remove(gone);
    assert forall|k: Seq<char>| entry_map(after).contains_key(k) == want.contains_key(k) by {
        if has_key(after, k) {
            let a = index_of_key(after, k);
            let a0 = if a < i { a } else { a + 1 };
            assert(after[a] == es[a0]);
            assert(es[a0].key == k);
        }
        if has_key(es, k) && k != gone {
            let j = index_of_key(es, k);
            let a = if j < i { j } else { j - 1 };
            assert(after[a] == es[j]);
            assert(after[a].key == k);
        }
    }
    assert forall|k: Seq<char>| entry_map(after).contains_key(k) implies entry_map(after)[k]
        == want[k] by {
        let a = index_of_key(after, k);
        lemma_entry_at(after, a);
        let a0 = if a < i { a } else { a + 1 };
        assert(after[a] == es[a0]);
        lemma_entry_at(es, a0);
    }
    assert(entry_map(after) =~= want);
}

/// The map of a list with distinct keys has as many keys as the list has
/// entries.
pub proof fn lemma_map_size(es: Seq<EntryView>)
    requires
        keys_distinct(es),
    ensures
        entry_map(es).dom().finite(),
        entry_map(es).len() == es.len(),
    decreases es.len(),
{
    if es.len() == 0 {
        assert(entry_map(es) =~= CacheMap::empty());
    } else {
        let last = es.last();
        let front = es.drop_last();
        assert forall|i: int, j: int|
            0 <= i < front.len() && 0 <= j < front.len() && i != j implies (
        #[trigger] front[i]).key != (#[trigger] front[j]).key by {
            assert(front[i] == es[i]);
            assert(front[j] == es[j]);
        }
        lemma_map_size(front);
        if has_key(front, last.key) {
            let i = index_of_key(front, last.key);
            assert(front[i] == es[i]);
            assert(es[es.len() - 1] == last);
        }
        lemma_push_inserts(front, last);
        assert(front.push(last) =~= es);
    }
}

/// Without the key anywhere in the list, the map lacks it.
pub proof fn lemma_absent_key(es: Seq<EntryView>, key: Seq<char>)
    requires
        forall|j: int| 0 <= j < es.len() ==> (#[trigger] es[j]).key != key,
    ensures
        !has_key(es, key),
        !entry_map(es).contains_key(key),
{
}

/// Position of the entry stored under `key`.
pub fn find_entry(entries: &Vec<StoredEntry>, key: &String) -> (r: Option<usize>)
    ensures
        match r {
            Some(i) => i < entries.len() && entries@[i as int]@.key == key@,
            None => !has_key(entry_views(entries@), key@),
        },
{
    let ghost es = entry_views(entries@);
    let mut i: usize = 0;
    while i < entries.len()
        invariant
            0 <= i <= entries.len(),
            es == entry_views(entries@),
            forall|j: int| 0 <= j < i ==> (#[trigger] es[j]).key != key@,
        decreases entries.len() - i,
    {
        if entries[i].key == *key {
            return Some(i);
        }
        i += 1;
    }
    proof {
        lemma_absent_key(es, key@);
    }
    None
}

} // verus!
