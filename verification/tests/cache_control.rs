use std::time::Duration;

use http::HeaderMap;
use stateform::cache::control::{from_headers, parse_vary, resolve_ttl, CacheControl};

#[test]
fn ttl_zero_means_no_cache() {
    let cc = CacheControl::parse("max-age=0");
    let result = resolve_ttl(Some(&cc), Duration::from_secs(30));
    assert_eq!(result, Some(Duration::from_secs(0)));
}

#[test]
fn parses_no_store() {
    let cc = CacheControl::parse("no-store");
    assert!(cc.no_store);
    assert!(cc.is_uncacheable());
}

#[test]
fn parses_max_age() {
    let cc = CacheControl::parse("public, max-age=300");
    assert_eq!(cc.max_age, Some(300));
    assert!(!cc.is_uncacheable());
}

#[test]
fn s_maxage_takes_precedence() {
    let cc = CacheControl::parse("max-age=300, s-maxage=60");
    assert_eq!(cc.shared_ttl(), Some(Duration::from_secs(60)));
}

#[test]
fn resolve_ttl_respects_no_store() {
    let cc = CacheControl::parse("no-store");
    let result = resolve_ttl(Some(&cc), Duration::from_secs(30));
    assert!(result.is_none());
}

#[test]
fn resolve_ttl_takes_min_of_upstream_and_route() {
    let cc = CacheControl::parse("max-age=10");
    let result = resolve_ttl(Some(&cc), Duration::from_secs(30));
    assert_eq!(result, Some(Duration::from_secs(10)));
}

#[test]
fn resolve_ttl_uses_route_when_no_directive() {
    let result = resolve_ttl(None, Duration::from_secs(30));
    assert_eq!(result, Some(Duration::from_secs(30)));
}

#[test]
fn vary_star_returns_none() {
    let mut headers = HeaderMap::new();
    headers.insert(http::header::VARY, "*".parse().unwrap());
    assert!(parse_vary(&headers).is_none());
}

#[test]
fn vary_parses_header_names() {
    let mut headers = HeaderMap::new();
    headers.insert(http::header::VARY, "Accept-Encoding, Accept".parse().unwrap());
    let vary = parse_vary(&headers).unwrap();
    assert_eq!(vary, vec!["accept-encoding", "accept"]);
}

#[test]
fn no_vary_header_means_one_entry_for_all() {
    assert_eq!(parse_vary(&HeaderMap::new()), Some(vec![]));
}

#[test]
fn empty_names_in_vary_are_dropped() {
    let mut headers = HeaderMap::new();
    headers.insert(http::header::VARY, "Accept,, ,Origin".parse().unwrap());
    assert_eq!(parse_vary(&headers).unwrap(), vec!["accept", "origin"]);
}

#[test]
fn directives_are_read_in_any_case_and_order() {
    let cc = CacheControl::parse(" Private , No-Cache,MAX-AGE=7, s-maxage=oops, other");
    assert!(cc.private && cc.no_cache && !cc.no_store);
    assert_eq!(cc.max_age, Some(7));
    assert_eq!(cc.s_maxage, None);
    assert_eq!(cc.shared_ttl(), Some(Duration::from_secs(7)));
    assert_eq!(cc.private_ttl(), Some(Duration::from_secs(7)));
    assert!(cc.is_uncacheable());
}

#[test]
fn the_header_is_read() {
    let mut headers = HeaderMap::new();
    assert!(from_headers(&headers).is_none());
    headers.insert(http::header::CACHE_CONTROL, "max-age=9".parse().unwrap());
    assert_eq!(from_headers(&headers).unwrap().max_age, Some(9));
}

#[test]
fn resolve_ttl_of_a_longer_directive_is_that_of_the_route() {
    let cc = CacheControl::parse("max-age=300");
    assert_eq!(
        resolve_ttl(Some(&cc), Duration::from_secs(30)),
        Some(Duration::from_secs(30))
    );
}
