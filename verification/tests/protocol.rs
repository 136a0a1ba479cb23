use http_response_cache::indexed::{IndexedStore, RangeField};
use http_response_cache::key::{CacheOptions, HttpCacheOptions};
use http_response_cache::manager::{CacheManager, Faulty, MemoryStore, StorageError};
use http_response_cache::message::{HttpResponse, HttpVersion, RequestParts};
use http_response_cache::middleware::{decide, lookup_or_miss, CacheMode, HttpCache, Step};
use http_response_cache::policy::FreshnessPolicy;
use url::Url;

const GET: &str = "GET";

const TEST_BODY: &[u8] = b"test";

const CACHEABLE_PUBLIC: &str = "max-age=86400, public";

const NOW: u64 = 1_700_000_000;

type NoOverride = fn(&RequestParts) -> String;

/// Stands in for the origin: answers every request alike and counts them.
struct Origin {
    headers: Vec<(String, String)>,
    body: Vec<u8>,
    status: u16,
    url: String,
    calls: u64,
    seen: Vec<RequestParts>,
}

impl Origin {
    fn respond(&mut self, request: &RequestParts) -> HttpResponse {
        self.calls += 1;
        self.seen.push(request.clone());
        HttpResponse {
            body: self.body.clone(),
            headers: self.headers.clone(),
            status: self.status,
            url: self.url.clone(),
            version: HttpVersion::Http11,
        }
    }
}

fn build_mock(cache_control_val: &str, body: &[u8], status: u16, url: &str) -> Origin {
    Origin {
        headers: vec![("cache-control".to_string(), cache_control_val.to_string())],
        body: body.to_vec(),
        status,
        url: url.to_string(),
        calls: 0,
        seen: Vec::new(),
    }
}

fn get_request(url: &str) -> RequestParts {
    RequestParts {
        method: GET.to_string(),
        uri: url.to_string(),
        version: HttpVersion::Http11,
        headers: Vec::new(),
    }
}

fn defaults() -> HttpCacheOptions<NoOverride> {
    HttpCacheOptions::default()
}

/// Carries one request through the cache, asking the origin where told to.
fn send<M: CacheManager, F: Fn(&RequestParts) -> String>(
    cache: &mut HttpCache<M, F>,
    origin: &mut Origin,
    request: &RequestParts,
    now: u64,
) -> Option<HttpResponse> {
    match cache.begin(request, now) {
        Step::Serve(response) => Some(response),
        Step::Bypass => Some(origin.respond(request)),
        Step::Forward { key } => {
            let answer = origin.respond(request);
            Some(cache.complete_forward(request, key, answer, now))
        },
        Step::Revalidate { key, request: conditional, stored, policy } => {
            let answer = origin.respond(&conditional);
            Some(cache.complete_revalidation(request, key, stored, policy, answer, now))
        },
        Step::Unavailable => None,
    }
}

#[test]
fn test_default_mode() {
    let url = format!("{}/", "http://127.0.0.1:8080");
    let mut origin = build_mock(CACHEABLE_PUBLIC, TEST_BODY, 200, &url);
    let mut cache = HttpCache {
        mode: CacheMode::Default,
        manager: IndexedStore::new(),
        options: defaults(),
    };

    // Cold pass to load cache
    send(&mut cache, &mut origin, &get_request(&url), NOW).unwrap();

    // Try to load cached object
    let data = cache.manager.get(&format!("{}:{}", GET, &Url::parse(&url).unwrap())).unwrap();
    assert!(data.is_some());

    // Hot pass to make sure the expect response was returned
    let res = send(&mut cache, &mut origin, &get_request(&url), NOW + 1).unwrap();
    assert_eq!(res.body, TEST_BODY);
    assert_eq!(origin.calls, 1);

    assert!(cache.manager.stale_view(NOW + 1).is_empty());
    assert!(!cache.manager.range(RangeField::TimeToLive, 0, 9999999999999, NOW + 1).is_empty());
}

#[test]
fn test_default_mode_with_options() {
    let url = format!("{}/", "http://127.0.0.1:8080");
    let mut origin = build_mock(CACHEABLE_PUBLIC, TEST_BODY, 200, &url);
    let mut cache = HttpCache {
        mode: CacheMode::Default,
        manager: IndexedStore::new(),
        options: HttpCacheOptions::<NoOverride> {
            cache_key: None,
            cache_options: Some(CacheOptions { shared: false }),
        },
    };

    // Cold pass to load cache
    send(&mut cache, &mut origin, &get_request(&url), NOW).unwrap();

    // Try to load cached object
    let data = cache.manager.get(&format!("{}:{}", GET, &Url::parse(&url).unwrap())).unwrap();
    assert!(data.is_some());
    assert!(!data.unwrap().1.shared);
    assert_eq!(origin.calls, 1);
}

#[test]
fn test_no_cache_mode() {
    let url = format!("{}/", "http://127.0.0.1:8080");
    let mut origin = build_mock(CACHEABLE_PUBLIC, TEST_BODY, 200, &url);
    let mut cache = HttpCache {
        mode: CacheMode::NoCache,
        manager: IndexedStore::new(),
        options: defaults(),
    };

    // Remote request and should cache
    send(&mut cache, &mut origin, &get_request(&url), NOW).unwrap();

    // Try to load cached object
    let data = cache.manager.get(&format!("{}:{}", GET, &Url::parse(&url).unwrap())).unwrap();
    assert!(data.is_some());

    // To verify our endpoint receives the request rather than a cache hit
    send(&mut cache, &mut origin, &get_request(&url), NOW + 1).unwrap();
    assert_eq!(origin.calls, 2);
}

#[test]
fn default_mode() {
    let url = format!("{}/", "http://127.0.0.1:8080");
    let mut origin = build_mock(CACHEABLE_PUBLIC, TEST_BODY, 200, &url);
    let mut cache = HttpCache {
        mode: CacheMode::Default,
        manager: MemoryStore::default(),
        options: defaults(),
    };

    // Cold pass to load cache
    send(&mut cache, &mut origin, &get_request(&url), NOW).unwrap();

    // Try to load cached object
    let data = cache.manager.get(&format!("{}:{}", GET, &Url::parse(&url).unwrap())).unwrap();
    assert!(data.is_some());

    // Hot pass to make sure the expect response was returned
    let res = send(&mut cache, &mut origin, &get_request(&url), NOW + 1).unwrap();
    assert_eq!(res.body, TEST_BODY);
    assert_eq!(origin.calls, 1);
}

#[test]
fn default_mode_with_options() {
    let url = format!("{}/", "http://127.0.0.1:8080");
    let mut origin = build_mock(CACHEABLE_PUBLIC, TEST_BODY, 200, &url);
    let mut cache = HttpCache {
        mode: CacheMode::Default,
        manager: MemoryStore::new(),
        options: HttpCacheOptions::<NoOverride> {
            cache_key: None,
            cache_options: Some(CacheOptions { shared: false }),
        },
    };

    // Cold pass to load cache
    send(&mut cache, &mut origin, &get_request(&url), NOW).unwrap();

    // Try to load cached object
    let data = cache.manager.get(&format!("{}:{}", GET, &Url::parse(&url).unwrap())).unwrap();
    assert!(data.is_some());
}

#[test]
fn no_cache_mode() {
    let url = format!("{}/", "http://127.0.0.1:8080");
    let mut origin = build_mock(CACHEABLE_PUBLIC, TEST_BODY, 200, &url);
    let mut cache = HttpCache {
        mode: CacheMode::NoCache,
        manager: MemoryStore::new(),
        options: defaults(),
    };

    // Remote request and should cache
    send(&mut cache, &mut origin, &get_request(&url), NOW).unwrap();

    // Try to load cached object
    let data = cache.manager.get(&format!("{}:{}", GET, &Url::parse(&url).unwrap())).unwrap();
    assert!(data.is_some());

    // To verify our endpoint receives the request rather than a cache hit
    send(&mut cache, &mut origin, &get_request(&url), NOW + 1).unwrap();
    assert_eq!(origin.calls, 2);
}

#[test]
fn custom_cache_key() {
    let url = format!("{}/", "http://127.0.0.1:8080");
    let mut origin = build_mock(CACHEABLE_PUBLIC, TEST_BODY, 200, &url);
    let mut cache = HttpCache {
        mode: CacheMode::Default,
        manager: MemoryStore::new(),
        options: HttpCacheOptions {
            cache_key: Some(|req: &RequestParts| {
                format!("{}:{}:{:?}:test", req.method, req.uri, http::Version::HTTP_11)
            }),
            cache_options: None,
        },
    };

    // Remote request and should cache
    send(&mut cache, &mut origin, &get_request(&url), NOW).unwrap();

    // Try to load cached object
    let data = cache
        .manager
        .get(&format!("{}:{}:{:?}:test", GET, &url, http::Version::HTTP_11))
        .unwrap();

    assert!(data.is_some());
    assert_eq!(cache.manager.len(), 1);
    assert!(cache.manager.get(&format!("{}:{}", GET, &url)).unwrap().is_none());
}

#[test]
fn response_that_may_not_be_stored_is_passed_through() {
    let url = "http://127.0.0.1:8080/";
    let mut origin = build_mock("no-store", TEST_BODY, 200, url);
    let mut cache = HttpCache {
        mode: CacheMode::Default,
        manager: MemoryStore::new(),
        options: defaults(),
    };
    let res = send(&mut cache, &mut origin, &get_request(url), NOW).unwrap();
    assert_eq!(res.body, TEST_BODY);
    assert_eq!(cache.manager.len(), 0);
    send(&mut cache, &mut origin, &get_request(url), NOW + 1).unwrap();
    assert_eq!(origin.calls, 2);
}

#[test]
fn no_store_mode_bypasses_the_store() {
    let url = "http://127.0.0.1:8080/";
    let mut origin = build_mock(CACHEABLE_PUBLIC, TEST_BODY, 200, url);
    let mut cache = HttpCache {
        mode: CacheMode::NoStore,
        manager: MemoryStore::new(),
        options: defaults(),
    };
    assert!(matches!(cache.begin(&get_request(url), NOW), Step::Bypass));
    send(&mut cache, &mut origin, &get_request(url), NOW).unwrap();
    send(&mut cache, &mut origin, &get_request(url), NOW).unwrap();
    assert_eq!(origin.calls, 2);
    assert_eq!(cache.manager.len(), 0);
}

#[test]
fn stale_entry_without_validator_is_fetched_again() {
    let url = "http://127.0.0.1:8080/";
    let mut origin = build_mock("max-age=10", TEST_BODY, 200, url);
    let mut cache = HttpCache {
        mode: CacheMode::Default,
        manager: MemoryStore::new(),
        options: defaults(),
    };
    send(&mut cache, &mut origin, &get_request(url), NOW).unwrap();
    send(&mut cache, &mut origin, &get_request(url), NOW + 9).unwrap();
    assert_eq!(origin.calls, 1);
    origin.body = b"newer".to_vec();
    let res = send(&mut cache, &mut origin, &get_request(url), NOW + 10).unwrap();
    assert_eq!(origin.calls, 2);
    assert_eq!(res.body, b"newer");
    assert!(origin.seen[1].headers.is_empty());
    let (stored, policy) = cache.manager.get(&format!("GET:{}", url)).unwrap().unwrap();
    assert_eq!(stored.body, b"newer");
    assert_eq!(policy.received, NOW + 10);
    assert_eq!(cache.manager.len(), 1);
}

#[test]
fn stale_entry_is_confirmed_by_not_modified() {
    let url = "http://127.0.0.1:8080/";
    let mut origin = build_mock("max-age=10", TEST_BODY, 200, url);
    origin.headers.push(("etag".to_string(), "\"v1\"".to_string()));
    let mut cache = HttpCache {
        mode: CacheMode::Default,
        manager: MemoryStore::new(),
        options: defaults(),
    };
    send(&mut cache, &mut origin, &get_request(url), NOW).unwrap();

    origin.status = 304;
    origin.body = Vec::new();
    origin.headers = vec![("cache-control".to_string(), "max-age=60".to_string())];
    let res = send(&mut cache, &mut origin, &get_request(url), NOW + 20).unwrap();
    assert_eq!(origin.calls, 2);
    assert_eq!(origin.seen[1].headers, vec![("if-none-match".to_string(), "\"v1\"".to_string())]);
    assert_eq!(res.status, 200);
    assert_eq!(res.body, TEST_BODY);
    assert_eq!(res.headers, vec![
        ("cache-control".to_string(), "max-age=60".to_string()),
        ("etag".to_string(), "\"v1\"".to_string()),
    ]);
    let (stored, policy) = cache.manager.get(&format!("GET:{}", url)).unwrap().unwrap();
    assert_eq!(stored, res);
    assert_eq!(policy.received, NOW + 20);
    assert_eq!(policy.lifetime, 60);

    // Fresh again: served without the origin.
    let res = send(&mut cache, &mut origin, &get_request(url), NOW + 79).unwrap();
    assert_eq!(res.body, TEST_BODY);
    assert_eq!(origin.calls, 2);
}

#[test]
fn stale_entry_is_replaced_by_a_new_response() {
    let url = "http://127.0.0.1:8080/";
    let mut origin = build_mock("max-age=10", TEST_BODY, 200, url);
    origin.headers.push(("etag".to_string(), "\"v1\"".to_string()));
    let mut cache = HttpCache {
        mode: CacheMode::Default,
        manager: MemoryStore::new(),
        options: defaults(),
    };
    send(&mut cache, &mut origin, &get_request(url), NOW).unwrap();

    origin.body = b"changed".to_vec();
    origin.headers = vec![
        ("cache-control".to_string(), "max-age=30".to_string()),
        ("etag".to_string(), "\"v2\"".to_string()),
    ];
    let res = send(&mut cache, &mut origin, &get_request(url), NOW + 20).unwrap();
    assert_eq!(res.body, b"changed");
    assert_eq!(origin.calls, 2);
    let (stored, policy) = cache.manager.get(&format!("GET:{}", url)).unwrap().unwrap();
    assert_eq!(stored.body, b"changed");
    assert_eq!(policy.etag, Some("\"v2\"".to_string()));
    assert_eq!(policy.lifetime, 30);
}

#[test]
fn revalidation_answer_that_may_not_be_stored_leaves_the_entry() {
    let url = "http://127.0.0.1:8080/";
    let mut origin = build_mock("max-age=10", TEST_BODY, 200, url);
    origin.headers.push(("etag".to_string(), "\"v1\"".to_string()));
    let mut cache = HttpCache {
        mode: CacheMode::Default,
        manager: MemoryStore::new(),
        options: defaults(),
    };
    send(&mut cache, &mut origin, &get_request(url), NOW).unwrap();
    origin.status = 500;
    origin.body = b"oops".to_vec();
    let res = send(&mut cache, &mut origin, &get_request(url), NOW + 20).unwrap();
    assert_eq!(res.status, 500);
    assert_eq!(res.body, b"oops");
    let (stored, _) = cache.manager.get(&format!("GET:{}", url)).unwrap().unwrap();
    assert_eq!(stored.body, TEST_BODY);
}

#[test]
fn force_cache_serves_stale_entries() {
    let url = "http://127.0.0.1:8080/";
    let mut origin = build_mock("max-age=10", TEST_BODY, 200, url);
    let mut cache = HttpCache {
        mode: CacheMode::ForceCache,
        manager: MemoryStore::new(),
        options: defaults(),
    };
    send(&mut cache, &mut origin, &get_request(url), NOW).unwrap();
    assert_eq!(origin.calls, 1);
    let res = send(&mut cache, &mut origin, &get_request(url), NOW + 1000).unwrap();
    assert_eq!(res.body, TEST_BODY);
    assert_eq!(origin.calls, 1);
}

#[test]
fn only_if_cached_never_asks_the_origin() {
    let url = "http://127.0.0.1:8080/";
    let mut origin = build_mock(CACHEABLE_PUBLIC, TEST_BODY, 200, url);
    let mut cache = HttpCache {
        mode: CacheMode::OnlyIfCached,
        manager: MemoryStore::new(),
        options: defaults(),
    };
    assert!(send(&mut cache, &mut origin, &get_request(url), NOW).is_none());
    assert_eq!(origin.calls, 0);
    cache.mode = CacheMode::Default;
    send(&mut cache, &mut origin, &get_request(url), NOW).unwrap();
    cache.mode = CacheMode::OnlyIfCached;
    let res = send(&mut cache, &mut origin, &get_request(url), NOW + 100_000).unwrap();
    assert_eq!(res.body, TEST_BODY);
    assert_eq!(origin.calls, 1);
}

#[test]
fn delete_request_removes_the_entry() {
    let url = "http://127.0.0.1:8080/";
    let mut origin = build_mock(CACHEABLE_PUBLIC, TEST_BODY, 200, url);
    let mut cache = HttpCache {
        mode: CacheMode::Default,
        manager: IndexedStore::new(),
        options: defaults(),
    };
    send(&mut cache, &mut origin, &get_request(url), NOW).unwrap();
    assert!(cache.manager.get(&format!("GET:{}", url)).unwrap().is_some());
    cache.delete(&get_request(url)).unwrap();
    assert!(cache.manager.get(&format!("GET:{}", url)).unwrap().is_none());
    assert!(cache.manager.lookup_by_tag(&url.to_string()).is_empty());
    send(&mut cache, &mut origin, &get_request(url), NOW + 1).unwrap();
    assert_eq!(origin.calls, 2);
}

#[test]
fn failed_lookup_counts_as_a_miss() {
    let failed: Result<Option<(HttpResponse, FreshnessPolicy)>, StorageError> =
        Err(StorageError { reason: "timeout".to_string() });
    assert_eq!(lookup_or_miss(failed), None);
    let step = decide(CacheMode::Default, "k".to_string(), None, &get_request("http://a.test/"), NOW);
    assert!(matches!(step, Step::Forward { key } if key == "k"));
    let step = decide(CacheMode::OnlyIfCached, "k".to_string(), None, &get_request("http://a.test/"), NOW);
    assert!(matches!(step, Step::Unavailable));
}

#[test]
fn decide_follows_mode_and_freshness() {
    let request = get_request("http://a.test/");
    let stored = HttpResponse {
        body: TEST_BODY.to_vec(),
        headers: Vec::new(),
        status: 200,
        url: "http://a.test/".to_string(),
        version: HttpVersion::Http11,
    };
    let policy = FreshnessPolicy {
        received: NOW,
        initial_age: 0,
        lifetime: 10,
        etag: Some("\"v1\"".to_string()),
        last_modified: None,
        shared: true,
    };
    let hit = || Some((stored.clone(), policy.clone()));
    assert!(matches!(decide(CacheMode::Default, "k".to_string(), hit(), &request, NOW + 9), Step::Serve(r) if r == stored));
    match decide(CacheMode::Default, "k".to_string(), hit(), &request, NOW + 10) {
        Step::Revalidate { key, request: conditional, stored: s, policy: p } => {
            assert_eq!(key, "k");
            assert_eq!(conditional.headers, vec![("if-none-match".to_string(), "\"v1\"".to_string())]);
            assert_eq!(s, stored);
            assert_eq!(p, policy);
        },
        other => panic!("unexpected step {:?}", other),
    }
    assert!(matches!(decide(CacheMode::NoCache, "k".to_string(), hit(), &request, NOW), Step::Forward { .. }));
    assert!(matches!(decide(CacheMode::NoStore, "k".to_string(), hit(), &request, NOW), Step::Bypass));
    assert!(matches!(decide(CacheMode::ForceCache, "k".to_string(), hit(), &request, NOW + 99), Step::Serve(_)));
    assert!(matches!(decide(CacheMode::ForceCache, "k".to_string(), None, &request, NOW), Step::Forward { .. }));
    assert!(matches!(decide(CacheMode::OnlyIfCached, "k".to_string(), hit(), &request, NOW + 99), Step::Serve(_)));
}

#[test]
fn storage_failures_degrade_to_origin_traffic() {
    let url = "http://127.0.0.1:8080/";
    let mut origin = build_mock(CACHEABLE_PUBLIC, TEST_BODY, 200, url);
    let mut cache = HttpCache {
        mode: CacheMode::Default,
        manager: Faulty { inner: MemoryStore::new(), down: true },
        options: defaults(),
    };
    let res = send(&mut cache, &mut origin, &get_request(url), NOW).unwrap();
    assert_eq!(res.body, TEST_BODY);
    let res = send(&mut cache, &mut origin, &get_request(url), NOW + 1).unwrap();
    assert_eq!(res.body, TEST_BODY);
    assert_eq!(origin.calls, 2);
    assert_eq!(cache.manager.inner.len(), 0);
    let error = cache.delete(&get_request(url)).unwrap_err();
    assert_eq!(error.message(), "backend is down");

    // Back in reach: the next answer is stored and then served.
    cache.manager.down = false;
    send(&mut cache, &mut origin, &get_request(url), NOW + 2).unwrap();
    assert_eq!(origin.calls, 3);
    send(&mut cache, &mut origin, &get_request(url), NOW + 3).unwrap();
    assert_eq!(origin.calls, 3);

    // Out of reach again: the stored entry cannot be read, so the origin
    // answers, and the entry is as it was.
    cache.manager.down = true;
    send(&mut cache, &mut origin, &get_request(url), NOW + 4).unwrap();
    assert_eq!(origin.calls, 4);
    assert!(cache.manager.get(&format!("GET:{}", url)).is_err());
    let (_, policy) = cache.manager.inner.get(&format!("GET:{}", url)).unwrap().unwrap();
    assert_eq!(policy.received, NOW + 2);
}
