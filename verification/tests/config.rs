use std::sync::Arc;
use std::time::Duration;

use stateform::config::schema::{
    ApiKeyConfig, AuthConfig, CacheConfig, ControlPlaneConfig, EndpointConfig, GatewayConfig,
    HeaderMutations, JwtConfig, ListenerConfig, LoadBalancingConfig, MiddlewareConfig, MtlsConfig,
    ObservabilityConfig, PathMatch, RateLimitConfig, RateLimitMiddlewareRef, RouteConfig,
    RouteMatch, TimeoutConfig, UpstreamConfig,
};
use stateform::config::validation::validate;
use stateform::config::{defaults, ConfigError, ConfigWatcher};
use stateform::names::NameMap;

fn endpoint(weight: u32) -> EndpointConfig {
    EndpointConfig { address: "127.0.0.1:9000".into(), weight, active: true }
}

fn upstream(endpoints: Vec<EndpointConfig>, lb: LoadBalancingConfig) -> Arc<UpstreamConfig> {
    Arc::new(UpstreamConfig {
        endpoints,
        load_balancing: lb,
        health_check: None,
        timeouts: TimeoutConfig {
            connect: Duration::from_secs(2),
            request: Duration::from_secs(30),
            idle: Duration::from_secs(90),
        },
        retry: None,
    })
}

fn route(id: &str, path: PathMatch) -> RouteConfig {
    RouteConfig {
        id: id.into(),
        match_: RouteMatch { path, method: None, headers: NameMap::new() },
        upstream: "backend".into(),
        load_balancing: None,
        middleware: MiddlewareConfig::default(),
        headers: HeaderMutations::default(),
        max_concurrent_requests: None,
    }
}

fn root() -> RouteConfig {
    route("root", PathMatch::Prefix { value: "/".into() })
}

fn minimal_config() -> GatewayConfig {
    GatewayConfig {
        listener: ListenerConfig {
            bind: "0.0.0.0:8080".into(),
            tls: None,
            max_body_bytes: 4 * 1024 * 1024,
            keepalive: Duration::from_secs(75),
            max_concurrent_requests: 10_000,
            concurrency_acquire_timeout_ms: 500,
        },
        upstreams: {
            let mut m = NameMap::new();
            m.insert(
                "backend".into(),
                upstream(vec![endpoint(1)], LoadBalancingConfig::WeightedRoundRobin),
            );
            m
        },
        routes: vec![Arc::new(root())],
        rate_limiting: RateLimitConfig {
            redis_url: "redis://localhost".into(),
            policies: NameMap::new(),
        },
        cache: CacheConfig { redis_url: "redis://localhost".into(), l1_capacity: 10_000 },
        auth: AuthConfig {
            jwt: JwtConfig {
                jwks_url: "https://example.com/.well-known/jwks.json".into(),
                audience: vec!["stateform".into()],
                issuers: vec!["https://example.com".into()],
                jwks_cache_ttl: Duration::from_secs(300),
            },
            api_keys: ApiKeyConfig {
                redis_key_prefix: "stateform:apikey:".into(),
                redis_url: "redis://localhost".into(),
            },
            mtls: MtlsConfig { client_ca_path: "/certs/ca.pem".into(), required: true },
        },
        observability: ObservabilityConfig { metrics_bind: "0.0.0.0:9090".into() },
        control_plane: ControlPlaneConfig {
            grpc_address: "http://localhost:50051".into(),
            reconnect_interval: Duration::from_secs(5),
        },
    }
}

fn message(cfg: &GatewayConfig) -> String {
    match validate(cfg) {
        Err(ConfigError::Validation(m)) => m,
        _ => panic!("the configuration passed"),
    }
}

#[test]
fn valid_config_passes() {
    assert!(validate(&minimal_config()).is_ok());
}

#[test]
fn rejects_empty_endpoints() {
    let mut cfg = minimal_config();
    cfg.upstreams.insert(
        "backend".into(),
        upstream(vec![], LoadBalancingConfig::WeightedRoundRobin),
    );
    assert!(validate(&cfg).is_err());
    assert_eq!(message(&cfg), "upstream `backend` must have at least one endpoint");
}

#[test]
fn rejects_unknown_upstream_reference() {
    let mut cfg = minimal_config();
    let mut r = root();
    r.upstream = "does_not_exist".into();
    cfg.routes[0] = Arc::new(r);
    assert!(validate(&cfg).is_err());
    assert_eq!(message(&cfg), "route `root` references unknown upstream `does_not_exist`");
}

#[test]
fn rejects_duplicate_route_ids() {
    let mut cfg = minimal_config();
    cfg.routes.push(cfg.routes[0].clone());
    assert!(validate(&cfg).is_err());
    assert_eq!(message(&cfg), "duplicate route id `root` — each route must have a unique id");
}

#[test]
fn rejects_invalid_regex() {
    let mut cfg = minimal_config();
    let bad = PathMatch::Regex { pattern: "[invalid".into() };
    cfg.routes[0] = Arc::new(route("root", bad));
    assert!(validate(&cfg).is_err());
    assert!(message(&cfg).starts_with("route `root` has invalid path regex `[invalid`: "));
}

#[test]
fn accepts_a_valid_regex() {
    let mut cfg = minimal_config();
    cfg.routes[0] = Arc::new(route("root", PathMatch::Regex { pattern: "^/v[0-9]+$".into() }));
    assert!(validate(&cfg).is_ok());
}

#[test]
fn rejects_weightless_endpoints() {
    let mut cfg = minimal_config();
    cfg.upstreams.insert(
        "backend".into(),
        upstream(vec![endpoint(1), endpoint(0)], LoadBalancingConfig::WeightedRoundRobin),
    );
    assert_eq!(
        message(&cfg),
        "upstream `backend` endpoint `127.0.0.1:9000` has weight 0 — use `active: false` to disable"
    );
}

#[test]
fn rejects_hashing_without_a_header() {
    let mut cfg = minimal_config();
    cfg.upstreams.insert(
        "backend".into(),
        upstream(
            vec![endpoint(1)],
            LoadBalancingConfig::ConsistentHashing {
                hash_header: "  ".into(),
                virtual_nodes: 150,
            },
        ),
    );
    assert_eq!(
        message(&cfg),
        "upstream `backend`: consistent_hashing requires a non-empty `hash_header`"
    );
}

#[test]
fn rejects_nameless_routes() {
    let mut cfg = minimal_config();
    cfg.routes[0] = Arc::new(route(" ", PathMatch::Prefix { value: "/".into() }));
    assert_eq!(message(&cfg), "every route must have a non-empty `id`");
}

#[test]
fn rejects_unknown_policies() {
    let mut cfg = minimal_config();
    let mut r = root();
    r.middleware.rate_limit = Some(RateLimitMiddlewareRef { policy: "gold".into() });
    cfg.routes[0] = Arc::new(r);
    assert_eq!(message(&cfg), "route `root` references unknown rate-limit policy `gold`");
}

#[test]
fn the_watcher_keeps_the_last_good_configuration() {
    let mut watcher = ConfigWatcher::load("gateway.yaml".into(), Ok(minimal_config())).unwrap();
    assert_eq!(watcher.path(), "gateway.yaml");
    assert_eq!(watcher.current().routes.len(), 1);

    let mut better = minimal_config();
    better.routes.push(Arc::new(route("more", PathMatch::Exact { value: "/more".into() })));
    // What is returned is what those who subscribed get.
    assert_eq!(watcher.reload(Ok(better)).unwrap().routes.len(), 2);
    assert_eq!(watcher.current().routes.len(), 2);

    let mut bad = minimal_config();
    bad.routes.push(bad.routes[0].clone());
    assert!(matches!(watcher.reload(Ok(bad)), Err(ConfigError::Validation(_))));
    assert_eq!(watcher.current().routes.len(), 2);

    let unread = watcher.reload(Err(ConfigError::Parse("line 3".into())));
    assert!(matches!(unread, Err(ConfigError::Parse(_))));
    assert_eq!(watcher.current().routes.len(), 2);
}

#[test]
fn a_bad_first_configuration_is_refused() {
    let mut bad = minimal_config();
    bad.routes.push(bad.routes[0].clone());
    assert!(ConfigWatcher::load("a".into(), Ok(bad)).is_err());
    assert!(matches!(
        ConfigWatcher::load("a".into(), Err(ConfigError::Io("gone".into()))),
        Err(ConfigError::Io(_))
    ));
}

#[test]
fn config_errors_have_their_message() {
    assert_eq!(ConfigError::Io("x".into()).message(), "io error: x");
    assert_eq!(ConfigError::Parse("x".into()).message(), "yaml parse error: x");
    assert_eq!(ConfigError::Validation("x".into()).message(), "validation error: x");
}

#[test]
fn defaults_are_as_documented() {
    assert_eq!(defaults::max_body_bytes(), 4 * 1024 * 1024);
    assert_eq!(defaults::keepalive_secs(), Duration::from_secs(75));
    assert_eq!(defaults::max_concurrent_requests(), 10_000);
    assert_eq!(defaults::concurrency_acquire_timeout_ms(), 500);
    assert_eq!(defaults::weight(), 1);
    assert_eq!(defaults::vnodes(), 150);
    assert_eq!(defaults::ewma_alpha_milli(), 300);
    assert_eq!(defaults::retry_backoff(), Duration::from_millis(50));
}

#[test]
fn name_maps_replace_what_they_hold() {
    let mut m: NameMap<u32> = NameMap::new();
    m.insert("a".into(), 1);
    m.insert("b".into(), 2);
    m.insert("a".into(), 3);
    assert_eq!(m.len(), 2);
    assert_eq!(m.get("a"), Some(&3));
    assert_eq!(m.get("c"), None);
    assert!(m.contains_key("b"));
    assert_eq!(m.name_at(0), "a");
    assert_eq!(*m.value_at(1), 2);
}
