use std::sync::Arc;
use std::time::Duration;

use http::{HeaderMap, Method};
use stateform::config::schema::{
    ApiKeyConfig, AuthConfig, CacheConfig, ControlPlaneConfig, EndpointConfig, GatewayConfig,
    HeaderMutations, JwtConfig, ListenerConfig, LoadBalancingConfig, MiddlewareConfig, MtlsConfig,
    ObservabilityConfig, PathMatch, RateLimitConfig, RouteConfig, RouteMatch, TimeoutConfig,
    UpstreamConfig,
};
use stateform::names::NameMap;
use stateform::router::path::normalise_path;
use stateform::router::predicate::{matches_predicates, value_matches};
use stateform::router::table::collect_params;
use stateform::router::trie::TrieNode;
use stateform::router::{MatchedRoute, Router, RouterError, RouterHandle};

fn upstream(endpoints: Vec<EndpointConfig>) -> Arc<UpstreamConfig> {
    Arc::new(UpstreamConfig {
        endpoints,
        load_balancing: LoadBalancingConfig::WeightedRoundRobin,
        health_check: None,
        timeouts: TimeoutConfig {
            connect: Duration::from_secs(2),
            request: Duration::from_secs(30),
            idle: Duration::from_secs(90),
        },
        retry: None,
    })
}

fn build_cfg(routes: Vec<RouteConfig>) -> GatewayConfig {
    GatewayConfig {
        listener: ListenerConfig {
            bind: "0.0.0.0:8080".into(),
            tls: None,
            max_body_bytes: 4 * 1024 * 1024,
            keepalive: Duration::from_secs(75),
            max_concurrent_requests: 10_000,
            concurrency_acquire_timeout_ms: 500,
        },
        upstreams: {
            let mut m = NameMap::new();
            m.insert(
                "backend".into(),
                upstream(vec![EndpointConfig {
                    address: "127.0.0.1:9000".into(),
                    weight: 1,
                    active: true,
                }]),
            );
            m
        },
        routes: routes.into_iter().map(Arc::new).collect(),
        rate_limiting: RateLimitConfig {
            redis_url: "redis://localhost".into(),
            policies: NameMap::new(),
        },
        cache: CacheConfig { redis_url: "redis://localhost".into(), l1_capacity: 1000 },
        auth: AuthConfig {
            jwt: JwtConfig {
                jwks_url: "https://example.com/.well-known/jwks.json".into(),
                audience: vec!["stateform".into()],
                issuers: vec!["https://example.com".into()],
                jwks_cache_ttl: Duration::from_secs(300),
            },
            api_keys: ApiKeyConfig {
                redis_key_prefix: "stateform:apikey:".into(),
                redis_url: "redis://localhost".into(),
            },
            mtls: MtlsConfig { client_ca_path: "/certs/ca.pem".into(), required: false },
        },
        observability: ObservabilityConfig { metrics_bind: "0.0.0.0:9090".into() },
        control_plane: ControlPlaneConfig {
            grpc_address: "http://localhost:50051".into(),
            reconnect_interval: Duration::from_secs(5),
        },
    }
}

fn route(id: &str, path: PathMatch) -> RouteConfig {
    RouteConfig {
        id: id.into(),
        match_: RouteMatch { path, method: None, headers: NameMap::new() },
        upstream: "backend".into(),
        load_balancing: None,
        middleware: MiddlewareConfig::default(),
        headers: HeaderMutations::default(),
        max_concurrent_requests: None,
    }
}

fn prefix(id: &str, value: &str) -> RouteConfig {
    route(id, PathMatch::Prefix { value: value.into() })
}

fn exact(id: &str, value: &str) -> RouteConfig {
    route(id, PathMatch::Exact { value: value.into() })
}

fn for_method(mut r: RouteConfig, method: &str) -> RouteConfig {
    r.match_.method = Some(method.into());
    r
}

fn matched(routes: Vec<RouteConfig>, path: &str) -> String {
    let router = Router::build(&build_cfg(routes)).unwrap();
    match router.match_request(path, &Method::GET, &HeaderMap::new()) {
        Ok(m) => m.route_id().to_string(),
        Err(_) => "none".to_string(),
    }
}

// ── Predicates ──────────────────────────────────────────────────────────────

#[test]
fn any_method_when_none() {
    let headers = NameMap::new();
    let req_headers = HeaderMap::new();
    assert!(matches_predicates(None, &headers, &Method::POST, &req_headers));
    assert!(matches_predicates(None, &headers, &Method::DELETE, &req_headers));
}

#[test]
fn method_mismatch_fails() {
    let headers = NameMap::new();
    let req_headers = HeaderMap::new();
    assert!(!matches_predicates(Some("GET"), &headers, &Method::POST, &req_headers));
}

#[test]
fn method_case_insensitive() {
    let headers = NameMap::new();
    let req_headers = HeaderMap::new();
    assert!(matches_predicates(Some("get"), &headers, &Method::GET, &req_headers));
}

#[test]
fn missing_required_header_fails() {
    let mut route_headers = NameMap::new();
    route_headers.insert("X-Service-Name".into(), ".*".into());
    let req_headers = HeaderMap::new();
    assert!(!matches_predicates(None, &route_headers, &Method::GET, &req_headers));
}

#[test]
fn matching_header_passes() {
    let mut route_headers = NameMap::new();
    route_headers.insert("X-Service-Name".into(), "billing".into());
    let mut req_headers = HeaderMap::new();
    req_headers.insert("x-service-name", "billing-service".parse().unwrap());
    assert!(matches_predicates(None, &route_headers, &Method::GET, &req_headers));
}

#[test]
fn every_required_header_has_to_match() {
    let mut route_headers = NameMap::new();
    route_headers.insert("x-a".into(), "1".into());
    route_headers.insert("x-b".into(), "^2$".into());
    let mut req_headers = HeaderMap::new();
    req_headers.insert("x-a", "1".parse().unwrap());
    req_headers.insert("x-b", "22".parse().unwrap());
    assert!(!matches_predicates(None, &route_headers, &Method::GET, &req_headers));
    req_headers.insert("x-b", "2".parse().unwrap());
    assert!(matches_predicates(None, &route_headers, &Method::GET, &req_headers));
}

#[test]
fn header_patterns_are_text_or_regular_expressions() {
    assert!(value_matches("billing-service", "service"));
    assert!(!value_matches("billing-service", "Service"));
    assert!(value_matches("v12", "^v[0-9]+$"));
    assert!(!value_matches("x-v12", "^v[0-9]+$"));
    assert!(!value_matches("[x", "[x"));
    assert!(value_matches("anything", ""));
}

// ── Paths ───────────────────────────────────────────────────────────────────

#[test]
fn paths_are_normalised() {
    assert_eq!(normalise_path("/"), "");
    assert_eq!(normalise_path("/API/Users/"), "api/users/");
    assert_eq!(normalise_path("//api///users"), "api/users");
    assert_eq!(normalise_path("api"), "api");
    let twice = normalise_path(&normalise_path("//a//b/"));
    assert_eq!(twice, normalise_path("//a//b/"));
}

// ── Tries ───────────────────────────────────────────────────────────────────

fn make_route(id: &str, path_prefix: &str) -> Arc<RouteConfig> {
    Arc::new(prefix(id, path_prefix))
}

#[test]
fn prefix_match_root() {
    let mut root = TrieNode::default();
    let route = make_route("catch-all", "/");
    root.insert_prefix("", route.clone());

    let mut candidates = Vec::new();
    root.collect_prefix_matches("v1/users", &mut candidates);
    assert_eq!(candidates.len(), 1);
    assert_eq!(candidates[0].id, "catch-all");
}

#[test]
fn longer_prefix_collected_last() {
    let mut root = TrieNode::default();
    let broad = make_route("broad", "/v1");
    let narrow = make_route("narrow", "/v1/users");
    root.insert_prefix("v1", broad.clone());
    root.insert_prefix("v1/users", narrow.clone());

    let mut candidates = Vec::new();
    root.collect_prefix_matches("v1/users/123", &mut candidates);

    assert_eq!(candidates.len(), 2);
    assert_eq!(candidates[0].id, "broad");
    assert_eq!(candidates[1].id, "narrow");
}

#[test]
fn no_match_returns_empty() {
    let mut root = TrieNode::default();
    root.insert_prefix("api", make_route("api", "/api"));

    let mut candidates = Vec::new();
    root.collect_prefix_matches("admin/users", &mut candidates);
    assert!(candidates.is_empty());
}

#[test]
fn exact_match() {
    let mut root = TrieNode::default();
    let route = make_route("health", "/healthz");
    root.insert_prefix("healthz", route.clone());

    assert!(root.find_exact("healthz").is_some());
    assert!(root.find_exact("healthz/extra").is_none());
}

#[test]
fn children_are_found_whatever_the_order_of_insertion() {
    let names = ["m", "c", "x", "a", "q", "ab", "é"];
    let mut root = TrieNode::new("".into());
    for name in names {
        root.insert_prefix(name, make_route(name, name));
    }
    for name in names {
        assert_eq!(root.find_exact(name).unwrap().id, name);
        assert_eq!(root.child(name).unwrap().segment, name);
        assert_eq!(root.exact_routes(name).len(), 1);
    }
    assert!(root.child("b").is_none());
}

// ── Routers ─────────────────────────────────────────────────────────────────

#[test]
fn exact_beats_prefix() {
    let cfg = build_cfg(vec![
        route("broad", PathMatch::Prefix { value: "/api".into() }),
        route("exact", PathMatch::Exact { value: "/api/status".into() }),
    ]);
    let router = Router::build(&cfg).unwrap();
    let m = router.match_request("/api/status", &Method::GET, &HeaderMap::new()).unwrap();
    assert_eq!(m.route_id(), "exact");
}

#[test]
fn longest_prefix_wins() {
    let cfg = build_cfg(vec![
        route("root", PathMatch::Prefix { value: "/".into() }),
        route("api", PathMatch::Prefix { value: "/api".into() }),
        route("users", PathMatch::Prefix { value: "/api/users".into() }),
    ]);
    let router = Router::build(&cfg).unwrap();
    let m = router.match_request("/api/users/123", &Method::GET, &HeaderMap::new()).unwrap();
    assert_eq!(m.route_id(), "users");
}

#[test]
fn catch_all_prefix() {
    let cfg = build_cfg(vec![route("catch-all", PathMatch::Prefix { value: "/".into() })]);
    let router = Router::build(&cfg).unwrap();
    assert!(router.match_request("/anything/at/all", &Method::GET, &HeaderMap::new()).is_ok());
}

#[test]
fn regex_with_named_captures() {
    let cfg = build_cfg(vec![route(
        "resource",
        PathMatch::Regex { pattern: r"^/resources/(?P<id>[0-9]+)$".into() },
    )]);
    let router = Router::build(&cfg).unwrap();
    let m = router.match_request("/resources/42", &Method::GET, &HeaderMap::new()).unwrap();
    assert_eq!(m.route_id(), "resource");
    assert_eq!(m.path_params[0], ("id".into(), "42".into()));
}

#[test]
fn no_match_returns_error() {
    let cfg = build_cfg(vec![route("api", PathMatch::Prefix { value: "/api".into() })]);
    let router = Router::build(&cfg).unwrap();
    assert!(matches!(
        router.match_request("/admin", &Method::GET, &HeaderMap::new()),
        Err(RouterError::NoMatch(_))
    ));
}

#[test]
fn method_predicate_filters_candidates() {
    let routes = vec![
        for_method(prefix("get-users", "/users"), "GET"),
        for_method(prefix("post-users", "/users"), "POST"),
    ];
    let cfg = build_cfg(routes);
    let router = Router::build(&cfg).unwrap();

    let get = router.match_request("/users", &Method::GET, &HeaderMap::new()).unwrap();
    assert_eq!(get.route_id(), "get-users");

    let post = router.match_request("/users", &Method::POST, &HeaderMap::new()).unwrap();
    assert_eq!(post.route_id(), "post-users");
}

#[test]
fn the_first_declared_of_two_equal_routes_wins() {
    assert_eq!(matched(vec![prefix("one", "/a"), prefix("two", "/a/")], "/a/b"), "one");
    assert_eq!(matched(vec![exact("one", "/a"), exact("two", "/a")], "/a"), "one");
    let first_refuses = vec![for_method(exact("one", "/a"), "PUT"), exact("two", "/a")];
    assert_eq!(matched(first_refuses, "/a"), "two");
}

#[test]
fn a_shorter_prefix_serves_what_the_longer_refuses() {
    let routes = vec![prefix("short", "/a"), for_method(prefix("long", "/a/b"), "PUT")];
    assert_eq!(matched(routes, "/a/b/c"), "short");
}

#[test]
fn prefixes_end_at_a_slash() {
    assert_eq!(matched(vec![prefix("api", "/api")], "/apix"), "none");
    assert_eq!(matched(vec![prefix("api", "/api")], "/api"), "api");
}

#[test]
fn regular_expressions_come_last() {
    let regex = route("regex", PathMatch::Regex { pattern: "^/a".into() });
    assert_eq!(matched(vec![regex, prefix("prefix", "/a")], "/a/b"), "prefix");
}

#[test]
fn bad_regular_expressions_are_reported() {
    let bad = route("r", PathMatch::Regex { pattern: "(".into() });
    match Router::build(&build_cfg(vec![bad])) {
        Err(e) => {
            assert!(e.message().starts_with("invalid regex pattern `(`: "));
            assert!(matches!(e, RouterError::InvalidRegex { .. }));
        }
        Ok(_) => panic!("the pattern was accepted"),
    }
}

#[test]
fn router_errors_have_their_message() {
    assert_eq!(RouterError::NoMatch("/x".into()).message(), "no route matched: /x");
    assert_eq!(RouterError::Config("x".into()).message(), "route config error: x");
}

#[test]
fn only_named_groups_that_took_part_are_parameters() {
    let names = vec![None, Some("a".to_string()), None, Some("b".to_string())];
    let texts = vec![Some("whole".to_string()), Some("1".to_string()), Some("x".to_string()), None];
    assert_eq!(collect_params(&names, &texts), vec![("a".to_string(), "1".to_string())]);

    let optional = route(
        "r",
        PathMatch::Regex { pattern: r"^/(?P<a>[a-z]+)(?:/(?P<b>[0-9]+))?$".into() },
    );
    let router = Router::build(&build_cfg(vec![optional])).unwrap();
    let m = router.match_request("/x", &Method::GET, &HeaderMap::new()).unwrap();
    assert_eq!(m.path_params, vec![("a".to_string(), "x".to_string())]);
    assert_eq!(m.upstream(), "backend");
}

#[test]
fn a_match_without_parameters_has_none() {
    let m = MatchedRoute::new(make_route("r", "/"));
    assert!(m.path_params.is_empty());
}

#[test]
fn a_rebuilt_handle_routes_anew() {
    let mut handle = RouterHandle::new(&build_cfg(vec![prefix("old", "/")])).unwrap();
    let before = handle.current();
    assert!(handle.rebuild(&build_cfg(vec![prefix("new", "/")])).is_ok());
    let get = |r: &Router| {
        r.match_request("/", &Method::GET, &HeaderMap::new()).unwrap().route_id().to_string()
    };
    assert_eq!(get(&handle.current()), "new");
    // Who holds the old one goes on with it.
    assert_eq!(get(&before), "old");

    let bad = route("r", PathMatch::Regex { pattern: "(".into() });
    assert!(handle.rebuild(&build_cfg(vec![bad])).is_err());
    assert_eq!(get(&handle.current()), "new");
}
