//! The tag index: for each response URL, the keys stored with that URL.

use vstd::prelude::*;

verus! {

/// The keys whose responses came from one URL.
#[derive(Debug)]
pub struct TagBucket {
    pub url: String,
    pub keys: Vec<String>,
}

pub struct BucketView {
    pub url: Seq<char>,
    pub keys: Seq<Seq<char>>,
}

impl View for TagBucket {
    type V = BucketView;

    open spec fn view(&self) -> BucketView {
        BucketView { url: self.url@, keys: self.keys.deep_view() }
    }
}

/// The models of a list of buckets, in order.
pub open spec fn bucket_views(tags: Seq<TagBucket>) -> Seq<BucketView> {
    Seq::new(tags.len(), |b: int| tags[b]@)
}

/// The index relates `url` to `key`.
pub open spec fn tagged(ts: Seq<BucketView>, url: Seq<char>, key: Seq<char>) -> bool {
    exists|b: int, j: int|
        0 <= b < ts.len() && 0 <= j < ts[b].keys.len() && ts[b].url == url && #[trigger] ts[b].keys[j]
            == key
}

/// No URL has two buckets, and no bucket holds a key twice.
pub open spec fn tags_wf(ts: Seq<BucketView>) -> bool {
    &&& forall|a: int, b: int|
        0 <= a < ts.len() && 0 <= b < ts.len() && a != b ==> (#[trigger] ts[a]).url != (
        #[trigger] ts[b]).url
    &&& forall|b: int| 0 <= b < ts.len() ==> (#[trigger] ts[b]).keys.no_duplicates()
}

/// Position of the bucket of `url`.
pub fn find_bucket(tags: &Vec<TagBucket>, url: &String) -> (r: Option<usize>)
    ensures
        match r {
            Some(b) => b < tags.len() && tags@[b as int]@.url == url@,
            None => forall|b: int| 0 <= b < tags.len() ==> (#[trigger] tags@[b])@.url != url@,
        },
{
    let mut b: usize = 0;
    while b < tags.len()
        invariant
            0 <= b <= tags.len(),
            forall|a: int| 0 <= a < b ==> (#[trigger] tags@[a])@.url != url@,
        decreases tags.len() - b,
    {
        if tags[b].url == *url {
            return Some(b);
        }
        b += 1;
    }
    None
}

/// Position of `key` in a list of keys.
pub fn find_key(keys: &Vec<String>, key: &String) -> (r: Option<usize>)
    ensures
        match r {
            Some(j) => j < keys.len() && keys.deep_view()[j as int] == key@,
            None => !keys.deep_view().contains(key@),
        },
{
    let mut j: usize = 0;
    while j < keys.len()
        invariant
            0 <= j <= keys.len(),
            forall|i: int| 0 <= i < j ==> (#[trigger] keys.deep_view()[i]) != key@,
        decreases keys.len() - j,
    {
        assert(keys.deep_view()[j as int] == keys@[j as int]@);
        if keys[j] == *key {
            return Some(j);
        }
        j += 1;
    }
    None
}

/// Relates `url` to `key` in the index.
pub fn tag_insert(tags: &mut Vec<TagBucket>, url: &String, key: &String)
    requires
        tags_wf(bucket_views(old(tags)@)),
        !tagged(bucket_views(old(tags)@), url@, key@),
    ensures
        tags_wf(bucket_views(final(tags)@)),
        forall|u: Seq<char>, k: Seq<char>|
            #![trigger tagged(bucket_views(final(tags)@), u, k)]
            tagged(bucket_views(final(tags)@), u, k) <==> tagged(bucket_views(old(tags)@), u, k) || (u
                == url@ && k == key@),
{
    let ghost before = bucket_views(tags@);
    match find_bucket(tags, url) {
        Some(b) => {
            let ghost old_keys = tags@[b as int]@.keys;
            tags[b].keys.push(key.clone());
            let ghost after = bucket_views(tags@);
            proof {
                assert(after[b as int].keys =~= old_keys.push(key@));
                assert(forall|a: int| 0 <= a < before.len() && a != b ==> after[a] == before[a]);
                assert(before[b as int].keys == old_keys);
                if old_keys.contains(key@) {
                    let j = choose|j: int| 0 <= j < old_keys.len() && old_keys[j] == key@;
                    assert(before[b as int].keys[j] == key@);
                    assert(tagged(before, url@, key@));
                }
                assert(after[b as int].keys.no_duplicates());
                assert(tags_wf(after)) by {
                    assert forall|x: int, y: int|
                        0 <= x < after.len() && 0 <= y < after.len() && x != y implies (
                    #[trigger] after[x]).url != (#[trigger] after[y]).url by {
                        assert(after[x].url == before[x].url);
                        assert(after[y].url == before[y].url);
                    }
                    assert forall|x: int| 0 <= x < after.len() implies (
                    #[trigger] after[x]).keys.no_duplicates() by {
                        if x != b {
                            assert(after[x] == before[x]);
                        }
                    }
                }
                assert forall|u: Seq<char>, k: Seq<char>|
                    #![trigger tagged(after, u, k)]
                    tagged(after, u, k) <==> tagged(before, u, k) || (u == url@ && k == key@) by {
                    if tagged(after, u, k) {
                        let (x, j) = choose|x: int, j: int|
                            0 <= x < after.len() && 0 <= j < after[x].keys.len() && after[x].url == u
                                && #[trigger] after[x].keys[j] == k;
                        if x != b {
                            assert(before[x].keys[j] == k);
                        } else if j < old_keys.len() {
                            assert(before[x].keys[j] == k);
                        }
                    }
                    if tagged(before, u, k) {
                        let (x, j) = choose|x: int, j: int|
                            0 <= x < before.len() && 0 <= j < before[x].keys.len() && before[x].url
                                == u && #[trigger] before[x].keys[j] == k;
                        assert(after[x].keys[j] == k);
                    }
                    if u == url@ && k == key@ {
                        assert(after[b as int].keys[old_keys.len() as int] == k);
                    }
                }
            }
        },
        None => {
            let mut keys: Vec<String> = Vec::new();
            keys.push(key.clone());
            tags.push(TagBucket { url: url.clone(), keys });
            let ghost after = bucket_views(tags@);
            proof {
                let n = before.len() as int;
                assert(after[n].keys =~= seq![key@]);
                assert(after[n].url == url@);
                assert(forall|a: int| 0 <= a < n ==> after[a] == before[a]);
                assert(tags_wf(after));
                assert forall|u: Seq<char>, k: Seq<char>|
                    #![trigger tagged(after, u, k)]
                    tagged(after, u, k) <==> tagged(before, u, k) || (u == url@ && k == key@) by {
                    if tagged(after, u, k) {
                        let (x, j) = choose|x: int, j: int|
                            0 <= x < after.len() && 0 <= j < after[x].keys.len() && after[x].url == u
                                && #[trigger] after[x].keys[j] == k;
                        if x < n {
                            assert(before[x].keys[j] == k);
                        }
                    }
                    if tagged(before, u, k) {
                        let (x, j) = choose|x: int, j: int|
                            0 <= x < before.len() && 0 <= j < before[x].keys.len() && before[x].url
                                == u && #[trigger] before[x].keys[j] == k;
                        assert(after[x].keys[j] == k);
                    }
                    if u == url@ && k == key@ {
                        assert(after[n].keys[0] == k);
                    }
                }
            }
        },
    }
}

/// Taking an empty bucket out of the index changes nothing that it
/// relates.
pub proof fn lemma_drop_empty_bucket(ts: Seq<BucketView>, b: int)
    requires
        tags_wf(ts),
        0 <= b < ts.len(),
        ts[b].keys.len() == 0,
    ensures
        tags_wf(ts.remove(b)),
        forall|u: Seq<char>, k: Seq<char>|
            #![trigger tagged(ts.remove(b), u, k)]
            tagged(ts.remove(b), u, k) <==> tagged(ts, u, k),
{
    let after = ts.remove(b);
    assert forall|x: int, y: int|
        0 <= x < after.len() && 0 <= y < after.len() && x != y implies (#[trigger] after[x]).url != (
    #[trigger] after[y]).url by {
        let x0 = if x < b { x } else { x + 1 };
        let y0 = if y < b { y } else { y + 1 };
        assert(after[x] == ts[x0]);
        assert(after[y] == ts[y0]);
    }
    assert forall|x: int| 0 <= x < after.len() implies (#[trigger] after[x]).keys.no_duplicates() by {
        let x0 = if x < b { x } else { x + 1 };
        assert(after[x] == ts[x0]);
    }
    assert forall|u: Seq<char>, k: Seq<char>|
        #![trigger tagged(after, u, k)]
        tagged(after, u, k) <==> tagged(ts, u, k) by {
        if tagged(after, u, k) {
            let (x, j) = choose|x: int, j: int|
                0 <= x < after.len() && 0 <= j < after[x].keys.len() && after[x].url == u
                    && #[trigger] after[x].keys[j] == k;
            let x0 = if x < b { x } else { x + 1 };
            assert(after[x] == ts[x0]);
            assert(ts[x0].keys[j] == k);
        }
        if tagged(ts, u, k) {
            let (x, j) = choose|x: int, j: int|
                0 <= x < ts.len() && 0 <= j < ts[x].keys.len() && ts[x].url == u && #[trigger] ts[x].keys[j]
                    == k;
            let x1 = if x < b { x } else { x - 1 };
            assert(after[x1] == ts[x]);
            assert(after[x1].keys[j] == k);
        }
    }
}

/// Taking the key at `j` out of the bucket at `b` unrelates that key from
/// the bucket's URL and changes nothing else.
pub proof fn lemma_take_key(ts: Seq<BucketView>, after: Seq<BucketView>, b: int, j: int)
    requires
        tags_wf(ts),
        0 <= b < ts.len(),
        0 <= j < ts[b].keys.len(),
        after.len() == ts.len(),
        after[b].url == ts[b].url,
        after[b].keys == ts[b].keys.remove(j),
        forall|a: int| 0 <= a < ts.len() && a != b ==> after[a] == ts[a],
    ensures
        tags_wf(after),
        forall|u: Seq<char>, k: Seq<char>|
            #![trigger tagged(after, u, k)]
            tagged(after, u, k) <==> tagged(ts, u, k) && !(u == ts[b].url && k == ts[b].keys[j]),
{
    let old_keys = ts[b].keys;
    let new_keys = after[b].keys;
    let url = ts[b].url;
    let key = old_keys[j];
    assert forall|x: int, y: int|
        0 <= x < after.len() && 0 <= y < after.len() && x != y implies (#[trigger] after[x]).url != (
    #[trigger] after[y]).url by {
        assert(after[x].url == ts[x].url);
        assert(after[y].url == ts[y].url);
    }
    assert forall|x: int| 0 <= x < after.len() implies (#[trigger] after[x]).keys.no_duplicates() by {
        if x != b {
            assert(after[x] == ts[x]);
        } else {
            assert(ts[b].keys.no_duplicates());
        }
    }
    assert forall|u: Seq<char>, k: Seq<char>|
        #![trigger tagged(after, u, k)]
        tagged(after, u, k) <==> tagged(ts, u, k) && !(u == url && k == key) by {
        if tagged(after, u, k) {
            let (x, i) = choose|x: int, i: int|
                0 <= x < after.len() && 0 <= i < after[x].keys.len() && after[x].url == u
                    && #[trigger] after[x].keys[i] == k;
            if x != b {
                assert(ts[x].keys[i] == k);
                assert(ts[x].url != ts[b].url);
            } else {
                let i0 = if i < j { i } else { i + 1 };
                assert(new_keys[i] == old_keys[i0]);
                assert(ts[b].keys[i0] == k);
            }
        }
        if tagged(ts, u, k) && !(u == url && k == key) {
            let (x, i) = choose|x: int, i: int|
                0 <= x < ts.len() && 0 <= i < ts[x].keys.len() && ts[x].url == u && #[trigger] ts[x].keys[i]
                    == k;
            if x != b {
                assert(after[x].keys[i] == k);
            } else {
                let i1 = if i < j { i } else { i - 1 };
                assert(new_keys[i1] == old_keys[i]);
                assert(after[b].keys[i1] == k);
            }
        }
    }
}

/// Without `key` in the bucket of `url`, or without such a bucket, the
/// index does not relate the two.
pub proof fn lemma_not_tagged(ts: Seq<BucketView>, url: Seq<char>, key: Seq<char>)
    requires
        forall|b: int| 0 <= b < ts.len() && (#[trigger] ts[b]).url == url ==> !ts[b].keys.contains(key),
    ensures
        !tagged(ts, url, key),
{
    if tagged(ts, url, key) {
        let (x, j) = choose|x: int, j: int|
            0 <= x < ts.len() && 0 <= j < ts[x].keys.len() && ts[x].url == url && #[trigger] ts[x].keys[j]
                == key;
        assert(ts[x].keys.contains(key));
    }
}

/// Unrelates `url` from `key` in the index. A bucket that loses its last
/// key is dropped.
pub fn tag_remove(tags: &mut Vec<TagBucket>, url: &String, key: &String)
    requires
        tags_wf(bucket_views(old(tags)@)),
    ensures
        tags_wf(bucket_views(final(tags)@)),
        forall|u: Seq<char>, k: Seq<char>|
            #![trigger tagged(bucket_views(final(tags)@), u, k)]
            tagged(bucket_views(final(tags)@), u, k) <==> tagged(bucket_views(old(tags)@), u, k) && !(u
                == url@ && k == key@),
{
    let ghost before = bucket_views(tags@);
    match find_bucket(tags, url) {
        Some(b) => {
            match find_key(&tags[b].keys, key) {
                Some(j) => {
                    tags[b].keys.remove(j);
                    let ghost mid = bucket_views(tags@);
                    proof {
                        assert(mid[b as int].keys =~= before[b as int].keys.remove(j as int));
                        assert(forall|a: int|
                            0 <= a < before.len() && a != b ==> mid[a] == before[a]);
                        lemma_take_key(before, mid, b as int, j as int);
                    }
                    if tags[b].keys.len() == 0 {
                        tags.remove(b);
                        proof {
                            assert(bucket_views(tags@) =~= mid.remove(b as int));
                            lemma_drop_empty_bucket(mid, b as int);
                        }
                    }
                },
                None => {
                    proof {
                        assert forall|a: int|
                            0 <= a < before.len() && (#[trigger] before[a]).url
                                == url@ implies !before[a].keys.contains(key@) by {
                            if a != b {
                                assert(before[a].url != before[b as int].url);
                            }
                        }
                        lemma_not_tagged(before, url@, key@);
                    }
                },
            }
        },
        None => {
            proof {
                lemma_not_tagged(before, url@, key@);
            }
        },
    }
}

} // verus!
