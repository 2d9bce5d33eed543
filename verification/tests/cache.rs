use std::time::Duration;

use bytes::Bytes;
use http::HeaderMap;
use stateform::cache::entry::CachedResponse;
use stateform::cache::error::CacheError;
use stateform::cache::key::{storable_headers, storable_lines, CacheKey};
use stateform::cache::l1_local::L1Cache;
use stateform::cache::layer::{CacheLookup, CacheRequest, LookupState, ResponseCache};
use stateform::config::schema::CacheMiddlewareConfig;

fn middleware(ttl_secs: u64, read_only: bool) -> CacheMiddlewareConfig {
    CacheMiddlewareConfig { ttl: Duration::from_secs(ttl_secs), read_only }
}

fn make_entry(ttl_secs: u64) -> CachedResponse {
    CachedResponse::new(200, vec![], Bytes::from("body"), Duration::from_secs(ttl_secs), vec![])
}

fn key(s: &str) -> CacheKey {
    CacheKey::new("GET", "route", s, None)
}

fn headers(list: &[(&'static str, &str)]) -> HeaderMap {
    let mut map = HeaderMap::new();
    for (name, value) in list {
        map.append(*name, value.parse().unwrap());
    }
    map
}

fn get<'a>(path: &'a str, headers: &'a HeaderMap) -> CacheRequest<'a> {
    CacheRequest { route_id: "api", method: "GET", path, query: None, headers }
}

// ── Keys ────────────────────────────────────────────────────────────────────

#[test]
fn basic_key_structure() {
    let key = CacheKey::new("GET", "api", "/users", Some("page=2"));
    assert_eq!(key.as_str(), "stateform:cache:GET:api:/users?page=2");
}

#[test]
fn no_query_omits_question_mark() {
    let key = CacheKey::new("GET", "api", "/status", None);
    assert_eq!(key.as_str(), "stateform:cache:GET:api:/status");
}

#[test]
fn empty_query_omits_question_mark() {
    let key = CacheKey::new("get", "api", "/status", Some(""));
    assert_eq!(key.as_str(), "stateform:cache:GET:api:/status");
}

#[test]
fn vary_extends_key_sorted() {
    let base = CacheKey::new("GET", "api", "/data", None);
    let mut req_headers = HeaderMap::new();
    req_headers.insert("accept-encoding", "gzip".parse().unwrap());
    req_headers.insert("accept", "application/json".parse().unwrap());

    let vary_names = vec!["accept-encoding".to_string(), "accept".to_string()];
    let keyed = base.with_vary(&vary_names, &req_headers);

    assert!(keyed.as_str().contains(":accept=application/json"));
    assert!(keyed.as_str().contains(":accept-encoding=gzip"));
    assert_eq!(
        keyed.as_str(),
        "stateform:cache:GET:api:/data:accept=application/json:accept-encoding=gzip"
    );
}

#[test]
fn vary_missing_header_uses_empty_string() {
    let base = CacheKey::new("GET", "api", "/data", None);
    let vary_names = vec!["x-custom".to_string()];
    let keyed = base.with_vary(&vary_names, &HeaderMap::new());
    assert!(keyed.as_str().contains(":x-custom="));
}

#[test]
fn the_order_of_vary_names_does_not_matter() {
    let base = key("/v");
    let sent = headers(&[("b", "2"), ("a", "1")]);
    let one = base.with_vary(&["a".to_string(), "b".to_string()], &sent);
    let other = base.with_vary(&["b".to_string(), "a".to_string()], &sent);
    assert_eq!(one.as_str(), other.as_str());
    assert_eq!(base.with_vary(&[], &sent).as_str(), base.as_str());
}

#[test]
fn variants_are_kept_apart() {
    let base = key("/v");
    let names = ["accept".to_string(), "accept-encoding".to_string()];
    let gzip = headers(&[("accept", "*/*"), ("accept-encoding", "gzip")]);
    let plain = headers(&[("accept", "*/*")]);
    assert_ne!(base.with_vary(&names, &gzip), base.with_vary(&names, &plain));
}

#[test]
fn storable_headers_strips_hop_by_hop() {
    let mut headers = HeaderMap::new();
    headers.insert("content-type", "application/json".parse().unwrap());
    headers.insert("transfer-encoding", "chunked".parse().unwrap());
    headers.insert("connection", "keep-alive".parse().unwrap());

    let stored = storable_headers(&headers);
    assert!(stored.iter().any(|(k, _)| k == "content-type"));
    assert!(!stored.iter().any(|(k, _)| k == "transfer-encoding"));
    assert!(!stored.iter().any(|(k, _)| k == "connection"));
}

#[test]
fn lines_that_are_no_text_are_not_stored() {
    let lines = vec![
        ("x-a".to_string(), b"1".to_vec()),
        ("x-b".to_string(), vec![0xe9]),
        ("Keep-Alive".to_string(), b"5".to_vec()),
        ("x-a".to_string(), b"2".to_vec()),
    ];
    assert_eq!(
        storable_lines(&lines),
        vec![("x-a".to_string(), "1".to_string()), ("x-a".to_string(), "2".to_string())]
    );
}

// ── Entries ─────────────────────────────────────────────────────────────────

#[test]
fn entries_age_and_expire() {
    let entry = CachedResponse::new_at(
        200,
        vec![("a".into(), "b".into())],
        Bytes::from("body"),
        Duration::from_millis(2500),
        vec!["accept".into()],
        100,
    );
    assert_eq!(entry.body, b"body".to_vec());
    assert_eq!(entry.ttl_secs, 2);
    assert_eq!(entry.age_header_at(101), "1");
    assert_eq!(entry.age_header_at(99), "0");
    assert!(!entry.is_expired_at(101));
    assert!(entry.is_expired_at(102));

    let copy = entry.duplicate();
    assert_eq!(copy.headers, entry.headers);
    assert_eq!(copy.vary_headers, entry.vary_headers);
    assert_eq!(copy.stored_at_secs, 100);
}

#[test]
fn entries_are_stored_now() {
    let entry = make_entry(60);
    assert!(entry.stored_at_secs > 1_500_000_000);
    assert!(!entry.is_expired());
    assert!(entry.age_header().parse::<u64>().unwrap() < 60);
    assert!(make_entry(0).is_expired());
}

// ── In this process ─────────────────────────────────────────────────────────

#[test]
fn put_and_get() {
    let mut cache = L1Cache::new(100);
    cache.put(&key("/a"), make_entry(60));
    assert!(cache.get(&key("/a")).is_some());
}

#[test]
fn miss_returns_none() {
    let mut cache = L1Cache::new(100);
    assert!(cache.get(&key("/missing")).is_none());
}

#[test]
fn expired_entry_returns_none() {
    let mut cache = L1Cache::new(100);
    cache.put(&key("/b"), make_entry(0));
    assert!(cache.get(&key("/b")).is_none());
}

#[test]
fn expired_entries_are_dropped() {
    let mut cache = L1Cache::new(100);
    cache.put(&key("/b"), make_entry(0));
    assert_eq!(cache.len(), 1);
    assert!(cache.get(&key("/b")).is_none());
    assert!(cache.is_empty());
}

#[test]
fn invalidate_removes_entry() {
    let mut cache = L1Cache::new(100);
    cache.put(&key("/c"), make_entry(60));
    cache.invalidate(&key("/c"));
    assert!(cache.get(&key("/c")).is_none());
}

#[test]
fn evicts_at_capacity() {
    let mut cache = L1Cache::new(3);
    for i in 0..5 {
        cache.put(&key(&format!("/{i}")), make_entry(60));
    }
    assert!(cache.len() <= 3);
}

#[test]
fn the_last_put_survives_eviction() {
    let mut cache = L1Cache::new(2);
    for i in 0..20 {
        let k = key(&format!("/{i}"));
        cache.put(&k, make_entry(60));
        assert!(cache.get(&k).is_some());
        assert!(cache.len() <= 2);
    }
}

// ── Both tiers ──────────────────────────────────────────────────────────────

#[test]
fn read_only_skips_store() {
    let cfg = middleware(30, true);
    assert!(cfg.read_only);

    let mut cache = ResponseCache::new(10);
    let none = HeaderMap::new();
    let writes = cache.store(Some(&cfg), &get("/a", &none), 200, &none, Bytes::from("x"), 100);
    assert!(writes.is_empty());
    assert!(matches!(
        cache.lookup(Some(&cfg), &get("/a", &none), 100),
        LookupState::AskShared { .. }
    ));
}

#[test]
fn non_2xx_should_not_be_stored() {
    let status: u16 = 404;
    assert!(!(200..300).contains(&status));

    let cfg = middleware(30, false);
    let none = HeaderMap::new();
    for status in [199, 300, 404, 500] {
        let mut cache = ResponseCache::new(10);
        cache.store(Some(&cfg), &get("/a", &none), status, &none, Bytes::from("x"), 100);
        assert!(matches!(
            cache.lookup(Some(&cfg), &get("/a", &none), 100),
            LookupState::AskShared { .. }
        ));
    }
}

#[test]
fn stored_responses_are_served() {
    let cfg = middleware(30, false);
    let none = HeaderMap::new();
    let answer = headers(&[("content-type", "text/plain"), ("connection", "close")]);
    let mut cache = ResponseCache::new(10);
    let writes = cache.store(Some(&cfg), &get("/a", &none), 201, &answer, Bytes::from("x"), 100);
    assert_eq!(writes.len(), 1);
    let write = &writes[0];
    assert_eq!(write.key.as_str(), "stateform:cache:GET:api:/a");
    assert_eq!(write.ttl_secs, 30);
    assert_eq!(write.entry.body, b"x".to_vec());

    match cache.lookup(Some(&cfg), &get("/a", &none), 129) {
        LookupState::Finished(CacheLookup::Hit(entry)) => {
            assert_eq!(entry.status, 201);
            assert_eq!(entry.body, b"x".to_vec());
            assert_eq!(entry.headers, vec![("content-type".to_string(), "text/plain".to_string())]);
        }
        _ => panic!("the response was not stored"),
    }
    assert!(matches!(
        cache.lookup(Some(&cfg), &get("/a", &none), 130),
        LookupState::AskShared { .. }
    ));
}

#[test]
fn private_responses_stay_in_this_process() {
    let cfg = middleware(30, false);
    let none = HeaderMap::new();
    let mut cache = ResponseCache::new(10);
    let answer = headers(&[("cache-control", "private")]);
    let writes = cache.store(Some(&cfg), &get("/a", &none), 200, &answer, Bytes::from("x"), 100);
    assert!(writes.is_empty());
    assert!(matches!(
        cache.lookup(Some(&cfg), &get("/a", &none), 100),
        LookupState::Finished(CacheLookup::Hit(_))
    ));
}

#[test]
fn forbidden_responses_are_not_stored() {
    let cfg = middleware(30, false);
    let none = HeaderMap::new();
    for (name, value) in [("cache-control", "no-store"), ("vary", "*")] {
        let mut cache = ResponseCache::new(10);
        let answer = headers(&[(name, value)]);
        let writes =
            cache.store(Some(&cfg), &get("/a", &none), 200, &answer, Bytes::from("x"), 100);
        assert!(writes.is_empty());
        assert!(matches!(
            cache.lookup(Some(&cfg), &get("/a", &none), 100),
            LookupState::AskShared { .. }
        ));
    }
}

#[test]
fn responses_that_expire_at_once_are_not_shared() {
    let cfg = middleware(30, false);
    let none = HeaderMap::new();
    let mut cache = ResponseCache::new(10);
    let answer = headers(&[("cache-control", "max-age=0")]);
    let writes = cache.store(Some(&cfg), &get("/a", &none), 200, &answer, Bytes::from("x"), 100);
    assert!(writes.is_empty());
}

#[test]
fn requests_without_a_part_in_the_cache_bypass_it() {
    let cfg = middleware(30, false);
    let none = HeaderMap::new();
    let mut cache = ResponseCache::new(10);
    assert!(matches!(
        cache.lookup(None, &get("/a", &none), 100),
        LookupState::Finished(CacheLookup::Bypass)
    ));
    for value in ["no-cache", "no-store"] {
        let sent = headers(&[("cache-control", value)]);
        assert!(matches!(
            cache.lookup(Some(&cfg), &get("/a", &sent), 100),
            LookupState::Finished(CacheLookup::Bypass)
        ));
    }
    let post = CacheRequest {
        route_id: "api",
        method: "POST",
        path: "/a",
        query: None,
        headers: &none,
    };
    assert!(matches!(
        cache.lookup(Some(&cfg), &post, 100),
        LookupState::Finished(CacheLookup::Bypass)
    ));
    let head = CacheRequest {
        route_id: "api",
        method: "head",
        path: "/a",
        query: None,
        headers: &none,
    };
    assert!(matches!(
        cache.lookup(Some(&cfg), &head, 100),
        LookupState::AskShared { .. }
    ));
}

#[test]
fn what_the_shared_tier_holds_is_served_and_kept() {
    let cfg = middleware(30, false);
    let none = HeaderMap::new();
    let mut cache = ResponseCache::new(10);
    let base = match cache.lookup(Some(&cfg), &get("/a", &none), 100) {
        LookupState::AskShared { base } => base,
        _ => panic!("the shared tier was not asked"),
    };
    assert_eq!(base.as_str(), "stateform:cache:GET:api:/a");
    let found = CachedResponse::new_at(
        200,
        vec![],
        Bytes::from("shared"),
        Duration::from_secs(30),
        vec![],
        100,
    );
    match cache.shared_answered(base, Some(found), &none) {
        LookupState::Finished(CacheLookup::SharedHit(entry)) => {
            assert_eq!(entry.body, b"shared".to_vec())
        }
        _ => panic!("what was found was not served"),
    }
    assert!(matches!(
        cache.lookup(Some(&cfg), &get("/a", &none), 100),
        LookupState::Finished(CacheLookup::Hit(_))
    ));
}

#[test]
fn a_miss_in_both_tiers_is_a_miss() {
    let none = HeaderMap::new();
    let mut cache = ResponseCache::new(10);
    assert!(matches!(
        cache.shared_answered(key("/a"), None, &none),
        LookupState::Finished(CacheLookup::Miss)
    ));
}

/// A response that varies with `Accept`, or the marker for such responses.
fn varying(text: &'static str, stored_at: u64) -> CachedResponse {
    CachedResponse::new_at(
        200,
        vec![],
        Bytes::from(text),
        Duration::from_secs(30),
        vec!["accept".into()],
        stored_at,
    )
}

#[test]
fn varying_responses_are_asked_for_by_their_full_name() {
    let sent = headers(&[("accept", "text/html")]);
    let mut cache = ResponseCache::new(10);
    let (full, since) = match cache.shared_answered(key("/a"), Some(varying("", 100)), &sent) {
        LookupState::AskSharedVaried { full, since } => (full, since),
        _ => panic!("the variant was not asked for"),
    };
    assert_eq!(full.as_str(), "stateform:cache:GET:route:/a:accept=text/html");
    assert_eq!(since, 100);
    match cache.shared_varied_answered(full, since, Some(varying("variant", 100))) {
        CacheLookup::SharedHit(entry) => assert_eq!(entry.body, b"variant".to_vec()),
        _ => panic!("the variant was not served"),
    }
    // A variant that is absent, or older than the marker, is no response.
    assert!(matches!(
        cache.shared_varied_answered(key("/b"), 100, None),
        CacheLookup::Miss
    ));
    assert!(matches!(
        cache.shared_varied_answered(key("/b"), 100, Some(varying("old", 99))),
        CacheLookup::Miss
    ));
}

fn body_served(cache: &mut ResponseCache, path: &str, sent: &HeaderMap, now: u64) -> Option<Vec<u8>> {
    match cache.lookup(Some(&middleware(30, false)), &get(path, sent), now) {
        LookupState::Finished(CacheLookup::Hit(entry)) => Some(entry.body),
        _ => None,
    }
}

#[test]
fn varying_responses_are_found_again() {
    let cfg = middleware(30, false);
    let vary = headers(&[("vary", "Accept, Accept-Language")]);
    let html = headers(&[("accept", "text/html"), ("accept-language", "en"), ("x-id", "1")]);
    let again = headers(&[("accept-language", "en"), ("accept", "text/html"), ("x-id", "2")]);
    let json = headers(&[("accept", "application/json"), ("accept-language", "en")]);
    // Even a cache of one response finds it.
    let mut cache = ResponseCache::new(1);
    let writes = cache.store(Some(&cfg), &get("/a", &html), 200, &vary, Bytes::from("html"), 100);
    assert_eq!(body_served(&mut cache, "/a", &html, 129), Some(b"html".to_vec()));
    assert_eq!(body_served(&mut cache, "/a", &again, 129), Some(b"html".to_vec()));
    assert_eq!(body_served(&mut cache, "/a", &json, 129), None);
    assert_eq!(body_served(&mut cache, "/a", &html, 130), None);

    assert_eq!(writes.len(), 2);
    assert_eq!(
        writes[0].key.as_str(),
        "stateform:cache:GET:api:/a:accept=text/html:accept-language=en"
    );
    assert_eq!(writes[0].ttl_secs, 30);
    assert_eq!(writes[1].key.as_str(), "stateform:cache:GET:api:/a");
    assert_eq!(writes[1].ttl_secs, 30);
    assert_eq!(writes[1].entry.vary_headers, ["accept", "accept-language"]);

    // Another gateway finds it in the shared tier.
    let mut other = ResponseCache::new(10);
    let base = CacheKey::new("GET", "api", "/a", None);
    let state = other.shared_answered(base, Some(writes[1].entry.duplicate()), &again);
    let (full, since) = match state {
        LookupState::AskSharedVaried { full, since } => (full, since),
        _ => panic!("the variant was not asked for"),
    };
    assert_eq!(full.as_str(), writes[0].key.as_str());
    match other.shared_varied_answered(full, since, Some(writes[0].entry.duplicate())) {
        CacheLookup::SharedHit(entry) => assert_eq!(entry.body, b"html".to_vec()),
        _ => panic!("the variant was not served"),
    }
    // From then on it has it itself.
    assert_eq!(body_served(&mut other, "/a", &html, 129), Some(b"html".to_vec()));
}

#[test]
fn variants_live_side_by_side() {
    let cfg = middleware(30, false);
    let vary = headers(&[("vary", "accept")]);
    let short = headers(&[("vary", "accept"), ("cache-control", "max-age=5")]);
    let html = headers(&[("accept", "text/html")]);
    let json = headers(&[("accept", "application/json")]);
    let mut cache = ResponseCache::new(10);
    cache.store(Some(&cfg), &get("/a", &html), 200, &vary, Bytes::from("html"), 100);
    cache.store(Some(&cfg), &get("/a", &json), 200, &short, Bytes::from("json"), 110);
    assert_eq!(body_served(&mut cache, "/a", &html, 114), Some(b"html".to_vec()));
    assert_eq!(body_served(&mut cache, "/a", &json, 114), Some(b"json".to_vec()));
    // The one that expires early does not take the other with it.
    assert_eq!(body_served(&mut cache, "/a", &json, 115), None);
    assert_eq!(body_served(&mut cache, "/a", &html, 129), Some(b"html".to_vec()));
}

#[test]
fn responses_may_begin_and_cease_to_vary() {
    let cfg = middleware(30, false);
    let none = HeaderMap::new();
    let vary = headers(&[("vary", "accept")]);
    let html = headers(&[("accept", "text/html")]);
    let json = headers(&[("accept", "application/json")]);
    let mut cache = ResponseCache::new(10);
    cache.store(Some(&cfg), &get("/a", &html), 200, &none, Bytes::from("all"), 100);
    assert_eq!(body_served(&mut cache, "/a", &json, 101), Some(b"all".to_vec()));
    cache.store(Some(&cfg), &get("/a", &html), 200, &vary, Bytes::from("html"), 102);
    assert_eq!(body_served(&mut cache, "/a", &json, 103), None);
    assert_eq!(body_served(&mut cache, "/a", &html, 103), Some(b"html".to_vec()));
    cache.store(Some(&cfg), &get("/a", &html), 200, &none, Bytes::from("all again"), 104);
    assert_eq!(body_served(&mut cache, "/a", &json, 105), Some(b"all again".to_vec()));
    assert_eq!(body_served(&mut cache, "/a", &html, 105), Some(b"all again".to_vec()));
}

#[test]
fn invalidated_variants_stay_gone() {
    let cfg = middleware(30, false);
    let vary = headers(&[("vary", "accept")]);
    let html = headers(&[("accept", "text/html")]);
    let json = headers(&[("accept", "application/json")]);
    let mut cache = ResponseCache::new(10);
    cache.store(Some(&cfg), &get("/a", &html), 200, &vary, Bytes::from("html"), 100);
    cache.invalidate("api", "GET", "/a", None);
    assert_eq!(body_served(&mut cache, "/a", &html, 101), None);
    // Another variant that is stored later does not bring it back.
    cache.store(Some(&cfg), &get("/a", &json), 200, &vary, Bytes::from("json"), 102);
    assert_eq!(body_served(&mut cache, "/a", &json, 103), Some(b"json".to_vec()));
    assert_eq!(body_served(&mut cache, "/a", &html, 103), None);
}

#[test]
fn a_cache_of_nothing_keeps_nothing() {
    let mut cache = L1Cache::new(0);
    cache.put(&key("/a"), make_entry(60));
    assert_eq!(cache.len(), 0);
    assert!(cache.get(&key("/a")).is_none());

    let cfg = middleware(30, false);
    let none = HeaderMap::new();
    let mut layer = ResponseCache::new(0);
    let writes = layer.store(Some(&cfg), &get("/a", &none), 200, &none, Bytes::from("x"), 100);
    assert_eq!(writes.len(), 1);
    assert_eq!(body_served(&mut layer, "/a", &none, 100), None);
}

#[test]
fn invalidated_responses_are_not_served() {
    let cfg = middleware(30, false);
    let none = HeaderMap::new();
    let mut cache = ResponseCache::new(10);
    cache.store(Some(&cfg), &get("/a", &none), 200, &none, Bytes::from("x"), 100);
    let gone = cache.invalidate("api", "GET", "/a", None);
    assert_eq!(gone.as_str(), "stateform:cache:GET:api:/a");
    assert!(matches!(
        cache.lookup(Some(&cfg), &get("/a", &none), 100),
        LookupState::AskShared { .. }
    ));
}

#[test]
fn cache_errors_have_their_message() {
    assert_eq!(CacheError::Redis("x".into()).message(), "redis error: x");
    assert_eq!(CacheError::Serialise("x".into()).message(), "serialisation error: x");
    assert_eq!(CacheError::Config("x".into()).message(), "config error: x");
}
