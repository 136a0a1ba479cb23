//! A store with secondary indices: a tag index by response URL, range
//! queries over age and time to live, and a view of the stale entries.
//!
//! The tag index is kept in step with the entries by every write. Age,
//! time to live and staleness change as time passes, so they are never
//! stored: each query computes them from the policies at the instant it
//! is given.

use vstd::prelude::*;
use crate::entry::{
    entry_map, entry_views, find_entry, has_key, index_of_key, keys_distinct, lemma_entry_at,
    lemma_map_size, lemma_push_inserts, lemma_remove_removes, lemma_update_inserts, CacheMap,
    EntryView, StoredEntry,
};
use crate::manager::{CacheManager, StorageError};
use crate::message::HttpResponse;
use crate::policy::{FreshnessPolicy, PolicyView};
use crate::tags::{bucket_views, find_bucket, tag_insert, tag_remove, tagged, tags_wf, TagBucket};

verus! {

/// A numeric field of an entry that a range query can ask for.
#[derive(Clone, Copy, Debug, PartialEq, Eq, Structural)]
pub enum RangeField {
    /// Seconds since the response was generated.
    Age,
    /// Seconds of freshness left.
    TimeToLive,
}

impl RangeField {
    /// The field called `name`: `age` or `time_to_live`.
    pub fn from_name(name: &String) -> (r: Option<RangeField>)
        ensures
            r == if name@ == "age"@ {
                Some(RangeField::Age)
            } else if name@ == "time_to_live"@ {
                Some(RangeField::TimeToLive)
            } else {
                None
            },
    {
        if *name == String::from_str("age") {
            Some(RangeField::Age)
        } else if *name == String::from_str("time_to_live") {
            Some(RangeField::TimeToLive)
        } else {
            None
        }
    }
}

/// What a query asks of an entry.
#[derive(Clone, Copy, Debug, PartialEq, Eq, Structural)]
pub enum Criterion {
    /// The field lies between `low` and `high`, both included.
    InRange { field: RangeField, low: u64, high: u64 },
    /// The entry is stale.
    Stale,
}

/// The value of a field of an entry at `now`.
pub open spec fn field_value(field: RangeField, policy: PolicyView, now: u64) -> int {
    match field {
        RangeField::Age => policy.age(now),
        RangeField::TimeToLive => policy.time_to_live(now),
    }
}

impl Criterion {
    /// Whether an entry with `policy` meets the criterion at `now`.
    pub open spec fn admits(self, policy: PolicyView, now: u64) -> bool {
        match self {
            Criterion::InRange { field, low, high } => low <= field_value(field, policy, now) <= high,
            Criterion::Stale => policy.is_stale(now),
        }
    }

    /// Whether an entry with `policy` meets the criterion at `now`.
    pub fn test(&self, policy: &FreshnessPolicy, now: u64) -> (r: bool)
        ensures
            r == self.admits(policy@, now),
    {
        match self {
            Criterion::InRange { field, low, high } => {
                let value: u64 = match field {
                    RangeField::Age => policy.age(now),
                    RangeField::TimeToLive => policy.time_to_live(now),
                };
                *low <= value && value <= *high
            },
            Criterion::Stale => policy.is_stale(now),
        }
    }
}

/// The entry that a store holds under `key`.
pub open spec fn entry_of(contents: CacheMap, key: Seq<char>) -> EntryView {
    EntryView { key, response: contents[key].0, policy: contents[key].1 }
}

/// The store holds `e` under its key.
pub open spec fn stored_in(contents: CacheMap, e: EntryView) -> bool {
    contents.contains_key(e.key) && contents[e.key] == (e.response, e.policy)
}

/// `result` lists, each once and in some order, exactly the entries of
/// the store that `wanted` holds of.
pub open spec fn selects(
    result: Seq<EntryView>,
    contents: CacheMap,
    wanted: spec_fn(EntryView) -> bool,
) -> bool {
    &&& keys_distinct(result)
    &&& forall|j: int|
        0 <= j < result.len() ==> stored_in(contents, #[trigger] result[j]) && wanted(result[j])
    &&& forall|k: Seq<char>|
        contents.contains_key(k) && wanted(entry_of(contents, k)) ==> #[trigger] has_key(result, k)
}

/// Entries whose response came from `url`.
pub open spec fn from_url(url: Seq<char>) -> spec_fn(EntryView) -> bool {
    |e: EntryView| e.response.url == url
}

/// Entries that meet `criterion` at `now`.
pub open spec fn meeting(criterion: Criterion, now: u64) -> spec_fn(EntryView) -> bool {
    |e: EntryView| criterion.admits(e.policy, now)
}

/// Some entry has this key and this response URL.
pub open spec fn has_entry_with(es: Seq<EntryView>, key: Seq<char>, url: Seq<char>) -> bool {
    exists|i: int| 0 <= i < es.len() && (#[trigger] es[i]).key == key && es[i].response.url == url
}

/// The index relates a URL to a key exactly where an entry has both.
pub open spec fn index_matches(ts: Seq<crate::tags::BucketView>, es: Seq<EntryView>) -> bool {
    &&& forall|u: Seq<char>, k: Seq<char>| #[trigger] tagged(ts, u, k) ==> has_entry_with(es, k, u)
    &&& forall|i: int| 0 <= i < es.len() ==> tagged(ts, (#[trigger] es[i]).response.url, es[i].key)
}

/// A list of entries picked from `es`, each with its place in `es`, is a
/// selection from the map of `es`.
pub proof fn lemma_picked_selects(
    es: Seq<EntryView>,
    out: Seq<EntryView>,
    src: Seq<int>,
    wanted: spec_fn(EntryView) -> bool,
)
    requires
        keys_distinct(es),
        keys_distinct(out),
        src.len() == out.len(),
        forall|j: int|
            0 <= j < out.len() ==> 0 <= #[trigger] src[j] < es.len() && out[j] == es[src[j]]
                && wanted(out[j]),
        forall|i: int| 0 <= i < es.len() && wanted(#[trigger] es[i]) ==> has_key(out, es[i].key),
    ensures
        selects(out, entry_map(es), wanted),
{
    let contents = entry_map(es);
    assert forall|j: int| 0 <= j < out.len() implies stored_in(contents, #[trigger] out[j])
        && wanted(out[j]) by {
        assert(0 <= src[j] < es.len() && out[j] == es[src[j]]);
        lemma_entry_at(es, src[j]);
    }
    assert forall|k: Seq<char>|
        contents.contains_key(k) && wanted(entry_of(contents, k)) implies #[trigger] has_key(
        out,
        k,
    ) by {
        let i = index_of_key(es, k);
        lemma_entry_at(es, i);
        assert(entry_of(contents, k) == es[i]);
    }
}

/// A store that keeps a tag index beside its entries.
pub struct IndexedStore {
    entries: Vec<StoredEntry>,
    tags: Vec<TagBucket>,
}

impl IndexedStore {
    /// An empty store.
    pub fn new() -> (r: Self)
        ensures
            r.wf(),
            r.contents() == CacheMap::empty(),
    {
        let r = IndexedStore { entries: Vec::new(), tags: Vec::new() };
        assert(r.contents() =~= CacheMap::empty());
        r
    }

    /// The tag index relates `url` to `key`.
    pub closed spec fn relates(&self, url: Seq<char>, key: Seq<char>) -> bool {
        tagged(bucket_views(self.tags@), url, key)
    }

    /// The tag index and the primary store agree: the index relates a URL
    /// to a key exactly where the store holds, under that key, a response
    /// from that URL. So no index entry refers to a key that is absent,
    /// and no stored response is missing from the index.
    pub proof fn lemma_index_is_consistent(&self, url: Seq<char>, key: Seq<char>)
        requires
            self.wf(),
        ensures
            self.relates(url, key) <==> self.contents().contains_key(key) && self.contents()[key].0.url
                == url,
    {
        let es = entry_views(self.entries@);
        let ts = bucket_views(self.tags@);
        if tagged(ts, url, key) {
            assert(has_entry_with(es, key, url));
            let i = choose|i: int|
                0 <= i < es.len() && (#[trigger] es[i]).key == key && es[i].response.url == url;
            lemma_entry_at(es, i);
        }
        if self.contents().contains_key(key) && self.contents()[key].0.url == url {
            let i = index_of_key(es, key);
            lemma_entry_at(es, i);
            assert(tagged(ts, es[i].response.url, es[i].key));
        }
    }

    /// Number of entries.
    pub fn len(&self) -> (r: usize)
        requires
            self.wf(),
        ensures
            r == self.contents().len(),
            self.contents().dom().finite(),
    {
        proof {
            lemma_map_size(entry_views(self.entries@));
        }
        self.entries.len()
    }

    /// Removes every entry, and with it every index entry.
    pub fn clear(&mut self)
        ensures
            final(self).wf(),
            final(self).contents() == CacheMap::empty(),
    {
        self.entries = Vec::new();
        self.tags = Vec::new();
        assert(self.contents() =~= CacheMap::empty());
    }

    /// The entry stored under `key`, as the primary store has it.
    pub fn lookup(&self, key: &String) -> (r: Option<StoredEntry>)
        requires
            self.wf(),
        ensures
            match r {
                Some(e) => e@.key == key@ && stored_in(self.contents(), e@),
                None => !self.contents().contains_key(key@),
            },
    {
        match find_entry(&self.entries, key) {
            Some(i) => {
                proof {
                    lemma_entry_at(entry_views(self.entries@), i as int);
                }
                Some(self.entries[i].clone())
            },
            None => None,
        }
    }

    /// All entries whose response came from `url`, found through the tag
    /// index.
    pub fn lookup_by_tag(&self, url: &String) -> (r: Vec<StoredEntry>)
        requires
            self.wf(),
        ensures
            selects(entry_views(r@), self.contents(), from_url(url@)),
    {
        let ghost es = entry_views(self.entries@);
        let ghost ts = bucket_views(self.tags@);
        let ghost wanted = from_url(url@);
        let mut out: Vec<StoredEntry> = Vec::new();
        let ghost mut src: Seq<int> = Seq::empty();
        match find_bucket(&self.tags, url) {
            Some(b) => {
                let mut j: usize = 0;
                while j < self.tags[b as usize].keys.len()
                    invariant
                        self.wf(),
                        es == entry_views(self.entries@),
                        ts == bucket_views(self.tags@),
                        b < self.tags.len(),
                        ts[b as int].url == url@,
                        0 <= j <= self.tags@[b as int].keys.len(),
                        out.len() == j,
                        src.len() == j,
                        forall|a: int|
                            0 <= a < j ==> 0 <= #[trigger] src[a] < es.len() && entry_views(out@)[a]
                                == es[src[a]] && es[src[a]].key == ts[b as int].keys[a]
                                && es[src[a]].response.url == url@,
                    decreases self.tags@[b as int].keys.len() - j,
                {
                    let ghost before = entry_views(out@);
                    let ghost k = ts[b as int].keys[j as int];
                    proof {
                        assert(ts[b as int].keys[j as int] == self.tags@[b as int].keys@[j as int]@);
                        assert(tagged(ts, url@, k));
                        assert(has_entry_with(es, k, url@));
                        let x = choose|x: int|
                            0 <= x < es.len() && (#[trigger] es[x]).key == k && es[x].response.url
                                == url@;
                        assert(has_key(es, k));
                    }
                    match find_entry(&self.entries, &self.tags[b].keys[j]) {
                        Some(i) => {
                            out.push(self.entries[i].clone());
                            proof {
                                let x = choose|x: int|
                                    0 <= x < es.len() && (#[trigger] es[x]).key == k
                                        && es[x].response.url == url@;
                                assert(es[i as int].key == es[x].key);
                                assert(x == i);
                                src = src.push(i as int);
                                assert(entry_views(out@) =~= before.push(es[i as int]));
                            }
                        },
                        None => {
                            assert(false);
                        },
                    }
                    j += 1;
                }
                proof {
                    let found = entry_views(out@);
                    let keys = ts[b as int].keys;
                    assert(keys.no_duplicates());
                    assert forall|x: int, y: int|
                        0 <= x < found.len() && 0 <= y < found.len() && x != y implies (
                    #[trigger] found[x]).key != (#[trigger] found[y]).key by {
                        assert(found[x] == es[src[x]] && found[y] == es[src[y]]);
                        assert(keys[x] != keys[y]);
                    }
                    assert forall|i: int| 0 <= i < es.len() && wanted(#[trigger] es[i]) implies has_key(
                        found,
                        es[i].key,
                    ) by {
                        assert(tagged(ts, es[i].response.url, es[i].key));
                        let (x, y) = choose|x: int, y: int|
                            0 <= x < ts.len() && 0 <= y < ts[x].keys.len() && ts[x].url == url@
                                && #[trigger] ts[x].keys[y] == es[i].key;
                        assert(x == b);
                        assert(found[y] == es[src[y]]);
                        assert(found[y].key == es[i].key);
                    }
                    assert forall|a: int| 0 <= a < found.len() implies 0 <= #[trigger] src[a]
                        < es.len() && found[a] == es[src[a]] && wanted(found[a]) by {}
                }
            },
            None => {
                proof {
                    assert forall|i: int| 0 <= i < es.len() && wanted(#[trigger] es[i]) implies has_key(
                        entry_views(out@),
                        es[i].key,
                    ) by {
                        assert(tagged(ts, es[i].response.url, es[i].key));
                        let (x, y) = choose|x: int, y: int|
                            0 <= x < ts.len() && 0 <= y < ts[x].keys.len() && ts[x].url == url@
                                && #[trigger] ts[x].keys[y] == es[i].key;
                        assert(self.tags@[x]@.url == url@);
                    }
                }
            },
        }
        proof {
            lemma_picked_selects(es, entry_views(out@), src, wanted);
        }
        out
    }

    /// All entries that meet `criterion` at `now`. Every entry is judged
    /// by its policy at `now`; nothing computed at write time is used.
    pub fn scan(&self, criterion: Criterion, now: u64) -> (r: Vec<StoredEntry>)
        requires
            self.wf(),
        ensures
            selects(entry_views(r@), self.contents(), meeting(criterion, now)),
    {
        let ghost es = entry_views(self.entries@);
        let ghost wanted = meeting(criterion, now);
        let mut out: Vec<StoredEntry> = Vec::new();
        let ghost mut src: Seq<int> = Seq::empty();
        let mut i: usize = 0;
        while i < self.entries.len()
            invariant
                0 <= i <= self.entries.len(),
                es == entry_views(self.entries@),
                wanted == meeting(criterion, now),
                keys_distinct(es),
                keys_distinct(entry_views(out@)),
                src.len() == out.len(),
                forall|j: int|
                    0 <= j < out.len() ==> 0 <= #[trigger] src[j] < i && entry_views(out@)[j]
                        == es[src[j]] && wanted(entry_views(out@)[j]),
                forall|i0: int|
                    0 <= i0 < i && wanted(#[trigger] es[i0]) ==> has_key(
                        entry_views(out@),
                        es[i0].key,
                    ),
            decreases self.entries.len() - i,
        {
            let ghost before = entry_views(out@);
            if criterion.test(&self.entries[i].policy, now) {
                out.push(self.entries[i].clone());
                proof {
                    src = src.push(i as int);
                    let after = entry_views(out@);
                    assert(after =~= before.push(es[i as int]));
                    assert forall|a: int, b: int|
                        0 <= a < after.len() && 0 <= b < after.len() && a != b implies (
                    #[trigger] after[a]).key != (#[trigger] after[b]).key by {
                        if a < before.len() {
                            assert(after[a] == before[a] && before[a] == es[src[a]]);
                        }
                        if b < before.len() {
                            assert(after[b] == before[b] && before[b] == es[src[b]]);
                        }
                    }
                    assert forall|i0: int| 0 <= i0 < i + 1 && wanted(#[trigger] es[i0]) implies has_key(
                        after,
                        es[i0].key,
                    ) by {
                        if i0 < i {
                            let j = index_of_key(before, es[i0].key);
                            assert(after[j].key == es[i0].key);
                        } else {
                            assert(after[before.len() as int].key == es[i0].key);
                        }
                    }
                }
            }
            i += 1;
        }
        proof {
            lemma_picked_selects(es, entry_views(out@), src, wanted);
        }
        out
    }

    /// All entries whose field lies in `[low, high]` at `now`.
    pub fn range(&self, field: RangeField, low: u64, high: u64, now: u64) -> (r: Vec<StoredEntry>)
        requires
            self.wf(),
        ensures
            selects(
                entry_views(r@),
                self.contents(),
                meeting(Criterion::InRange { field, low, high }, now),
            ),
    {
        self.scan(Criterion::InRange { field, low, high }, now)
    }

    /// All entries that are stale at `now`.
    pub fn stale_view(&self, now: u64) -> (r: Vec<StoredEntry>)
        requires
            self.wf(),
        ensures
            selects(entry_views(r@), self.contents(), meeting(Criterion::Stale, now)),
    {
        self.scan(Criterion::Stale, now)
    }
}

impl Default for IndexedStore {
    fn default() -> (r: Self)
        ensures
            r.wf(),
            r.contents() == CacheMap::empty(),
    {
        IndexedStore::new()
    }
}

impl CacheManager for IndexedStore {
    closed spec fn contents(&self) -> CacheMap {
        entry_map(entry_views(self.entries@))
    }

    closed spec fn wf(&self) -> bool {
        &&& keys_distinct(entry_views(self.entries@))
        &&& tags_wf(bucket_views(self.tags@))
        &&& index_matches(bucket_views(self.tags@), entry_views(self.entries@))
    }

    open spec fn reliable(&self) -> bool {
        true
    }

    fn get(&self, key: &String) -> (r: Result<Option<(HttpResponse, FreshnessPolicy)>, StorageError>)
        ensures
            r is Ok,
    {
        match find_entry(&self.entries, key) {
            Some(i) => {
                proof {
                    lemma_entry_at(entry_views(self.entries@), i as int);
                }
                Ok(Some((self.entries[i].response.clone(), self.entries[i].policy.clone())))
            },
            None => Ok(None),
        }
    }

    fn put(&mut self, key: String, response: HttpResponse, policy: FreshnessPolicy) -> (r: Result<
        (),
        StorageError,
    >)
        ensures
            r is Ok,
    {
        let ghost es = entry_views(self.entries@);
        let ghost ts = bucket_views(self.tags@);
        let found = find_entry(&self.entries, &key);
        match found {
            Some(i) => {
                let ghost old_url = es[i as int].response.url;
                tag_remove(&mut self.tags, &self.entries[i].response.url, &key);
                let ghost ts1 = bucket_views(self.tags@);
                proof {
                    if tagged(ts1, response@.url, key@) {
                        assert(tagged(ts, response@.url, key@));
                        assert(has_entry_with(es, key@, response@.url));
                    }
                }
                tag_insert(&mut self.tags, &response.url, &key);
                let entry = StoredEntry { key, response, policy };
                proof {
                    lemma_update_inserts(es, i as int, entry@);
                }
                self.entries[i] = entry;
                proof {
                    let es2 = entry_views(self.entries@);
                    let ts2 = bucket_views(self.tags@);
                    assert(es2 =~= es.update(i as int, entry@));
                    assert forall|u: Seq<char>, k: Seq<char>| #[trigger]
                        tagged(ts2, u, k) implies has_entry_with(es2, k, u) by {
                        if u == entry@.response.url && k == entry@.key {
                            assert(es2[i as int].key == k);
                        } else {
                            assert(tagged(ts1, u, k));
                            assert(tagged(ts, u, k));
                            assert(has_entry_with(es, k, u));
                            let x = choose|x: int|
                                0 <= x < es.len() && (#[trigger] es[x]).key == k && es[x].response.url
                                    == u;
                            assert(x != i);
                            assert(es2[x] == es[x]);
                        }
                    }
                    assert forall|x: int| 0 <= x < es2.len() implies tagged(
                        ts2,
                        (#[trigger] es2[x]).response.url,
                        es2[x].key,
                    ) by {
                        if x != i {
                            assert(es2[x] == es[x]);
                            assert(tagged(ts, es[x].response.url, es[x].key));
                            assert(es[x].key != es[i as int].key);
                            assert(tagged(ts1, es[x].response.url, es[x].key));
                        }
                    }
                }
            },
            None => {
                proof {
                    if tagged(ts, response@.url, key@) {
                        assert(has_entry_with(es, key@, response@.url));
                    }
                }
                tag_insert(&mut self.tags, &response.url, &key);
                let entry = StoredEntry { key, response, policy };
                proof {
                    lemma_push_inserts(es, entry@);
                }
                self.entries.push(entry);
                proof {
                    let es2 = entry_views(self.entries@);
                    let ts2 = bucket_views(self.tags@);
                    assert(es2 =~= es.push(entry@));
                    assert forall|u: Seq<char>, k: Seq<char>| #[trigger]
                        tagged(ts2, u, k) implies has_entry_with(es2, k, u) by {
                        if u == entry@.response.url && k == entry@.key {
                            assert(es2[es.len() as int].key == k);
                        } else {
                            assert(tagged(ts, u, k));
                            assert(has_entry_with(es, k, u));
                            let x = choose|x: int|
                                0 <= x < es.len() && (#[trigger] es[x]).key == k && es[x].response.url
                                    == u;
                            assert(es2[x] == es[x]);
                        }
                    }
                    assert forall|x: int| 0 <= x < es2.len() implies tagged(
                        ts2,
                        (#[trigger] es2[x]).response.url,
                        es2[x].key,
                    ) by {
                        if x < es.len() {
                            assert(es2[x] == es[x]);
                            assert(tagged(ts, es[x].response.url, es[x].key));
                        }
                    }
                }
            },
        }
        Ok(())
    }

    fn delete(&mut self, key: &String) -> (r: Result<(), StorageError>)
        ensures
            r is Ok,
    {
        let ghost es = entry_views(self.entries@);
        let ghost ts = bucket_views(self.tags@);
        match find_entry(&self.entries, key) {
            Some(i) => {
                tag_remove(&mut self.tags, &self.entries[i].response.url, key);
                proof {
                    lemma_remove_removes(es, i as int);
                }
                self.entries.remove(i);
                proof {
                    let es2 = entry_views(self.entries@);
                    let ts2 = bucket_views(self.tags@);
                    assert(es2 =~= es.remove(i as int));
                    assert forall|u: Seq<char>, k: Seq<char>| #[trigger]
                        tagged(ts2, u, k) implies has_entry_with(es2, k, u) by {
                        assert(tagged(ts, u, k));
                        assert(has_entry_with(es, k, u));
                        let x = choose|x: int|
                            0 <= x < es.len() && (#[trigger] es[x]).key == k && es[x].response.url == u;
                        assert(x != i);
                        let x1 = if x < i { x } else { x - 1 };
                        assert(es2[x1] == es[x]);
                    }
                    assert forall|x: int| 0 <= x < es2.len() implies tagged(
                        ts2,
                        (#[trigger] es2[x]).response.url,
                        es2[x].key,
                    ) by {
                        let x0 = if x < i { x } else { x + 1 };
                        assert(es2[x] == es[x0]);
                        assert(tagged(ts, es[x0].response.url, es[x0].key));
                        assert(es[x0].key != es[i as int].key);
                    }
                }
            },
            None => {
                assert(self.contents().remove(key@) =~= self.contents());
            },
        }
        Ok(())
    }
}

/// The tag index reflects a write: right after a response is stored
/// under `key`, a lookup by that response's URL lists the entry, with the
/// response and the policy that were stored.
pub proof fn lemma_tag_lookup_after_put(
    before: CacheMap,
    key: Seq<char>,
    response: crate::message::ResponseView,
    policy: PolicyView,
    result: Seq<EntryView>,
)
    requires
        selects(result, before.insert(key, (response, policy)), from_url(response.url)),
    ensures
        has_key(result, key),
        result[index_of_key(result, key)] == (EntryView { key, response, policy }),
{
    let contents = before.insert(key, (response, policy));
    assert(contents.contains_key(key));
    assert(from_url(response.url)(entry_of(contents, key)));
    assert(has_key(result, key));
    let j = index_of_key(result, key);
    assert(stored_in(contents, result[j]));
}

/// The tag index reflects a deletion: right after `key` is deleted, no
/// lookup by any URL lists an entry with that key.
pub proof fn lemma_tag_lookup_after_delete(
    before: CacheMap,
    key: Seq<char>,
    url: Seq<char>,
    result: Seq<EntryView>,
)
    requires
        selects(result, before.remove(key), from_url(url)),
    ensures
        !has_key(result, key),
{
    if has_key(result, key) {
        let j = index_of_key(result, key);
        assert(stored_in(before.remove(key), result[j]));
    }
}

/// A range query returns only entries whose field, computed at the
/// instant of the query, lies within the bounds, and leaves out every
/// entry whose field lies outside them.
pub proof fn lemma_range_is_exact(
    contents: CacheMap,
    field: RangeField,
    low: u64,
    high: u64,
    now: u64,
    result: Seq<EntryView>,
)
    requires
        selects(result, contents, meeting(Criterion::InRange { field, low, high }, now)),
    ensures
        forall|j: int|
            0 <= j < result.len() ==> low <= field_value(field, (#[trigger] result[j]).policy, now)
                <= high,
        forall|k: Seq<char>|
            contents.contains_key(k) && !(low <= field_value(field, contents[k].1, now) <= high)
                ==> !#[trigger] has_key(result, k),
        forall|k: Seq<char>|
            contents.contains_key(k) && low <= field_value(field, contents[k].1, now) <= high
                ==> #[trigger] has_key(result, k),
{
    let wanted = meeting(Criterion::InRange { field, low, high }, now);
    assert forall|j: int| 0 <= j < result.len() implies low <= field_value(
        field,
        (#[trigger] result[j]).policy,
        now,
    ) <= high by {
        assert(wanted(result[j]));
    }
    assert forall|k: Seq<char>|
        contents.contains_key(k) && !(low <= field_value(field, contents[k].1, now)
            <= high) implies !#[trigger] has_key(result, k) by {
        if has_key(result, k) {
            let j = index_of_key(result, k);
            assert(stored_in(contents, result[j]) && wanted(result[j]));
        }
    }
    assert forall|k: Seq<char>|
        contents.contains_key(k) && low <= field_value(field, contents[k].1, now)
            <= high implies #[trigger] has_key(result, k) by {
        assert(wanted(entry_of(contents, k)));
    }
}

/// An entry that has expired is in no range of positive times to live.
pub proof fn lemma_expired_outside_range(
    contents: CacheMap,
    key: Seq<char>,
    low: u64,
    high: u64,
    now: u64,
    result: Seq<EntryView>,
)
    requires
        selects(
            result,
            contents,
            meeting(Criterion::InRange { field: RangeField::TimeToLive, low, high }, now),
        ),
        contents.contains_key(key),
        contents[key].1.is_stale(now),
        low > 0,
    ensures
        !has_key(result, key),
{
    lemma_range_is_exact(contents, RangeField::TimeToLive, low, high, now, result);
}

/// The stale view holds no entry that is still within its freshness
/// lifetime, and every entry that is not.
pub proof fn lemma_stale_view_is_exact(
    contents: CacheMap,
    key: Seq<char>,
    now: u64,
    result: Seq<EntryView>,
)
    requires
        selects(result, contents, meeting(Criterion::Stale, now)),
        contents.contains_key(key),
    ensures
        contents[key].1.elapsed(now) < contents[key].1.lifetime ==> !has_key(result, key),
        contents[key].1.elapsed(now) >= contents[key].1.lifetime ==> has_key(result, key),
{
    let wanted = meeting(Criterion::Stale, now);
    if has_key(result, key) {
        let j = index_of_key(result, key);
        assert(stored_in(contents, result[j]) && wanted(result[j]));
    }
    if contents[key].1.elapsed(now) >= contents[key].1.lifetime {
        assert(wanted(entry_of(contents, key)));
    }
}

} // verus!
