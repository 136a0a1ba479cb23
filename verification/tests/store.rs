use http_response_cache::entry::StoredEntry;
use http_response_cache::indexed::{Criterion, IndexedStore, RangeField};
use http_response_cache::manager::{CacheManager, MemoryStore, StorageError};
use http_response_cache::message::{HttpResponse, HttpVersion, RequestParts};
use http_response_cache::policy::{assess_storability, FreshnessPolicy};
use url::Url;

const GET: &str = "GET";

const TEST_BODY: &[u8] = b"test";

const NOW: u64 = 1_700_000_000;

fn plain_response(url: &str, body: &[u8]) -> HttpResponse {
    HttpResponse {
        body: body.to_vec(),
        headers: Vec::new(),
        status: 200,
        url: url.to_string(),
        version: HttpVersion::Http11,
    }
}

fn policy_with(received: u64, initial_age: u64, lifetime: u64) -> FreshnessPolicy {
    FreshnessPolicy {
        received,
        initial_age,
        lifetime,
        etag: None,
        last_modified: None,
        shared: true,
    }
}

fn keys_of(entries: &[StoredEntry]) -> Vec<String> {
    let mut keys: Vec<String> = entries.iter().map(|e| e.key.clone()).collect();
    keys.sort();
    keys
}

#[test]
fn darkbird() {
    let url = Url::parse("http://example.com").unwrap();
    let mut manager = IndexedStore::new();
    let http_res = HttpResponse {
        body: TEST_BODY.to_vec(),
        headers: Vec::new(),
        status: 200,
        url: url.to_string(),
        version: HttpVersion::Http11,
    };
    let req = RequestParts {
        method: GET.to_string(),
        uri: "http://example.com".to_string(),
        version: HttpVersion::Http11,
        headers: Vec::new(),
    };
    let policy = assess_storability(&req, &http_res, NOW, true).unwrap();
    manager.put(format!("{}:{}", GET, &url), http_res.clone(), policy.clone()).unwrap();
    let data = manager.get(&format!("{}:{}", GET, &url)).unwrap();
    assert!(data.is_some());
    assert_eq!(data.unwrap().0.body, TEST_BODY);
    assert!(manager.lookup(&format!("{}:{}", GET, &url)).is_some());
    assert!(!manager.lookup_by_tag(&http_res.url).is_empty());
    manager.delete(&format!("{}:{}", GET, &url)).unwrap();
    let data = manager.get(&format!("{}:{}", GET, &url)).unwrap();
    assert!(data.is_none());

    let mut manager = IndexedStore::new();
    manager.put(format!("{}:{}", GET, &url), http_res.clone(), policy.clone()).unwrap();
    assert!(!manager.stale_view(NOW).is_empty());
    assert_eq!(manager.stale_view(NOW).first().unwrap().key, format!("{}:{}", GET, &url));
    assert!(manager.range(RangeField::Age, 1, 1000, NOW).is_empty());
}

#[test]
fn put_then_get_round_trips_in_memory() {
    let mut store = MemoryStore::new();
    let response = plain_response("http://a.test/", b"alpha");
    let policy = policy_with(NOW, 3, 60);
    store.put("k".to_string(), response.clone(), policy.clone()).unwrap();
    assert_eq!(store.get(&"k".to_string()).unwrap(), Some((response, policy)));
    assert_eq!(store.len(), 1);
}

#[test]
fn put_then_get_round_trips_indexed() {
    let mut store = IndexedStore::new();
    let response = plain_response("http://a.test/", b"alpha");
    let policy = policy_with(NOW, 3, 60);
    store.put("k".to_string(), response.clone(), policy.clone()).unwrap();
    assert_eq!(store.get(&"k".to_string()).unwrap(), Some((response, policy)));
}

#[test]
fn put_replaces_and_never_duplicates() {
    let mut store = MemoryStore::new();
    store.put("k".to_string(), plain_response("http://a.test/", b"one"), policy_with(NOW, 0, 1)).unwrap();
    store.put("k".to_string(), plain_response("http://a.test/", b"two"), policy_with(NOW, 0, 2)).unwrap();
    assert_eq!(store.len(), 1);
    let (response, policy) = store.get(&"k".to_string()).unwrap().unwrap();
    assert_eq!(response.body, b"two");
    assert_eq!(policy.lifetime, 2);
}

#[test]
fn delete_then_get_yields_none() {
    let mut store = MemoryStore::new();
    store.put("k".to_string(), plain_response("http://a.test/", b"one"), policy_with(NOW, 0, 1)).unwrap();
    store.put("other".to_string(), plain_response("http://b.test/", b"two"), policy_with(NOW, 0, 1)).unwrap();
    store.delete(&"k".to_string()).unwrap();
    assert_eq!(store.get(&"k".to_string()).unwrap(), None);
    assert!(store.get(&"other".to_string()).unwrap().is_some());
    assert_eq!(store.len(), 1);
}

#[test]
fn delete_of_absent_key_succeeds() {
    let mut memory = MemoryStore::new();
    assert!(memory.delete(&"nothing".to_string()).is_ok());
    assert_eq!(memory.len(), 0);
    let mut indexed = IndexedStore::new();
    assert!(indexed.delete(&"nothing".to_string()).is_ok());
    indexed.put("k".to_string(), plain_response("http://a.test/", b"one"), policy_with(NOW, 0, 1)).unwrap();
    assert!(indexed.delete(&"nothing".to_string()).is_ok());
    assert!(indexed.get(&"k".to_string()).unwrap().is_some());
}

#[test]
fn clear_empties_the_store() {
    let mut store = MemoryStore::new();
    store.put("k".to_string(), plain_response("http://a.test/", b"one"), policy_with(NOW, 0, 1)).unwrap();
    store.clear();
    assert_eq!(store.len(), 0);
    assert_eq!(store.get(&"k".to_string()).unwrap(), None);
}

#[test]
fn tag_lookup_lists_every_key_of_a_url() {
    let mut store = IndexedStore::new();
    store.put("GET:a".to_string(), plain_response("http://a.test/", b"1"), policy_with(NOW, 0, 1)).unwrap();
    store.put("HEAD:a".to_string(), plain_response("http://a.test/", b"2"), policy_with(NOW, 0, 1)).unwrap();
    store.put("GET:b".to_string(), plain_response("http://b.test/", b"3"), policy_with(NOW, 0, 1)).unwrap();
    let found = store.lookup_by_tag(&"http://a.test/".to_string());
    assert_eq!(keys_of(&found), vec!["GET:a".to_string(), "HEAD:a".to_string()]);
    let found = store.lookup_by_tag(&"http://b.test/".to_string());
    assert_eq!(keys_of(&found), vec!["GET:b".to_string()]);
    assert_eq!(found[0].response.body, b"3");
    assert!(store.lookup_by_tag(&"http://c.test/".to_string()).is_empty());
}

#[test]
fn tag_index_follows_overwrite_and_delete() {
    let mut store = IndexedStore::new();
    store.put("k".to_string(), plain_response("http://a.test/", b"1"), policy_with(NOW, 0, 1)).unwrap();
    store.put("k".to_string(), plain_response("http://b.test/", b"2"), policy_with(NOW, 0, 1)).unwrap();
    assert!(store.lookup_by_tag(&"http://a.test/".to_string()).is_empty());
    let found = store.lookup_by_tag(&"http://b.test/".to_string());
    assert_eq!(found.len(), 1);
    assert_eq!(found[0].key, "k");
    assert_eq!(found[0].response.body, b"2");
    store.put("k".to_string(), plain_response("http://b.test/", b"3"), policy_with(NOW, 0, 1)).unwrap();
    let found = store.lookup_by_tag(&"http://b.test/".to_string());
    assert_eq!(found.len(), 1);
    assert_eq!(found[0].response.body, b"3");
    store.delete(&"k".to_string()).unwrap();
    assert!(store.lookup_by_tag(&"http://b.test/".to_string()).is_empty());
    assert!(store.lookup(&"k".to_string()).is_none());
}

#[test]
fn range_keeps_only_values_within_bounds() {
    let mut store = IndexedStore::new();
    store.put("young".to_string(), plain_response("http://a.test/", b"1"), policy_with(NOW - 5, 0, 100)).unwrap();
    store.put("old".to_string(), plain_response("http://a.test/", b"2"), policy_with(NOW - 50, 10, 100)).unwrap();
    store.put("expired".to_string(), plain_response("http://a.test/", b"3"), policy_with(NOW - 500, 0, 100)).unwrap();
    // Ages at NOW: young 5, old 60, expired 500.
    assert_eq!(keys_of(&store.range(RangeField::Age, 5, 60, NOW)), vec!["old".to_string(), "young".to_string()]);
    assert_eq!(keys_of(&store.range(RangeField::Age, 6, 59, NOW)), Vec::<String>::new());
    assert_eq!(keys_of(&store.range(RangeField::Age, 61, 1000, NOW)), vec!["expired".to_string()]);
    // Times to live at NOW: young 95, old 50, expired 0.
    assert_eq!(keys_of(&store.range(RangeField::TimeToLive, 1, 9_999_999_999_999, NOW)), vec!["old".to_string(), "young".to_string()]);
    assert_eq!(keys_of(&store.range(RangeField::TimeToLive, 0, 0, NOW)), vec!["expired".to_string()]);
    assert_eq!(keys_of(&store.range(RangeField::TimeToLive, 50, 50, NOW)), vec!["old".to_string()]);
    assert!(store.range(RangeField::TimeToLive, 96, 9_999_999_999_999, NOW).is_empty());
}

#[test]
fn range_with_inverted_bounds_is_empty() {
    let mut store = IndexedStore::new();
    store.put("k".to_string(), plain_response("http://a.test/", b"1"), policy_with(NOW, 7, 100)).unwrap();
    assert!(store.range(RangeField::Age, 8, 6, NOW).is_empty());
    assert_eq!(store.range(RangeField::Age, 7, 7, NOW).len(), 1);
}

#[test]
fn stale_view_is_recomputed_at_query_time() {
    let mut store = IndexedStore::new();
    store.put("k".to_string(), plain_response("http://a.test/", b"1"), policy_with(NOW, 0, 100)).unwrap();
    assert!(store.stale_view(NOW).is_empty());
    assert!(store.stale_view(NOW + 99).is_empty());
    let stale = store.stale_view(NOW + 100);
    assert_eq!(stale.len(), 1);
    assert_eq!(stale[0].key, "k");
    assert_eq!(store.scan(Criterion::Stale, NOW + 100).len(), 1);
    assert!(store.scan(Criterion::Stale, NOW + 99).is_empty());
}

#[test]
fn stale_view_lists_only_the_stale() {
    let mut store = IndexedStore::new();
    store.put("fresh".to_string(), plain_response("http://a.test/", b"1"), policy_with(NOW, 0, 100)).unwrap();
    store.put("stale".to_string(), plain_response("http://a.test/", b"2"), policy_with(NOW - 200, 0, 100)).unwrap();
    store.put("never".to_string(), plain_response("http://a.test/", b"3"), policy_with(NOW, 0, 0)).unwrap();
    assert_eq!(keys_of(&store.stale_view(NOW)), vec!["never".to_string(), "stale".to_string()]);
}

#[test]
fn storage_error_reports_its_reason() {
    let error = StorageError { reason: "disk full".to_string() };
    assert_eq!(error.message(), "disk full");
}

#[test]
fn range_fields_have_names() {
    assert_eq!(RangeField::from_name(&"age".to_string()), Some(RangeField::Age));
    assert_eq!(RangeField::from_name(&"time_to_live".to_string()), Some(RangeField::TimeToLive));
    assert_eq!(RangeField::from_name(&"stale".to_string()), None);
    assert_eq!(RangeField::from_name(&"Age".to_string()), None);
}

#[test]
fn clear_empties_the_index_too() {
    let mut store = IndexedStore::new();
    store.put("a".to_string(), plain_response("http://a.test/", b"1"), policy_with(NOW, 0, 0)).unwrap();
    store.put("b".to_string(), plain_response("http://a.test/", b"2"), policy_with(NOW, 0, 0)).unwrap();
    assert_eq!(store.len(), 2);
    store.clear();
    assert_eq!(store.len(), 0);
    assert!(store.lookup_by_tag(&"http://a.test/".to_string()).is_empty());
    assert!(store.stale_view(NOW).is_empty());
    assert!(store.get(&"a".to_string()).unwrap().is_none());
}
