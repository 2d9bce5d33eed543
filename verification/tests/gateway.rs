use std::sync::Arc;
use std::time::Duration;

use bytes::Bytes;
use http::{HeaderMap, Method, Uri};
use stateform::auth::context::AuthContext;
use stateform::auth::error::AuthError;
use stateform::cache::entry::CachedResponse;
use stateform::cache::layer::{CacheLookup, CacheRequest, LookupState, ResponseCache};
use stateform::config::schema::{
    ApiKeyConfig, AuthConfig, CacheConfig, CacheMiddlewareConfig, ControlPlaneConfig, EndpointConfig, GatewayConfig,
    HeaderMutations, HealthCheckConfig, JwtConfig, ListenerConfig, LoadBalancingConfig,
    MiddlewareConfig, MtlsConfig, ObservabilityConfig, PathMatch, RateLimitConfig, RetryConfig,
    RouteConfig, RouteMatch, TimeoutConfig, UpstreamConfig,
};
use stateform::config::ConfigError;
use stateform::gateway::balance::{fnv1a_64, select_endpoint};
use stateform::gateway::concurrency::{Admission, ConcurrencyLimiter, PermitEvent, RefusedBy};
use stateform::gateway::endpoint::{
    smoothing_milli, update_ewma, EndpointState, Health, FLAP_COOLDOWN_MS,
};
use stateform::gateway::error::CoreError;
use stateform::gateway::pipeline::{
    begin, body_too_large, handle, is_benign_conn_error, rate_limit_outcome,
    refuse_announced_body, Forwarding, Handled, RequestLine, StageResults, UpstreamAnswer,
};
use stateform::gateway::response::{
    apply_request_mutations, apply_response_mutations, build_cached_response, error_response,
    service_unavailable, too_many_requests, GatewayResponse,
};
use stateform::gateway::retry::{
    backoff_ms, clock_noise, jitter, RetryPolicy, SendAction, SendEvent,
};
use stateform::gateway::shutdown::{DrainStep, ShutdownCoordinator};
use stateform::gateway::upstream::{
    apply_probe, hash_key, probe_url, rewrite_uri, ProbeOutcome, UpstreamPool, UpstreamRegistry,
};
use stateform::metrics::recorder::Sample;
use stateform::metrics::registry::Metric;
use stateform::names::NameMap;
use stateform::ratelimit::error::RateLimitError;
use stateform::ratelimit::limiter::{DeniedBy, RateLimitOutcome};
use stateform::router::Router;

fn upstream(endpoints: Vec<EndpointConfig>) -> Arc<UpstreamConfig> {
    Arc::new(UpstreamConfig {
        endpoints,
        load_balancing: LoadBalancingConfig::WeightedRoundRobin,
        health_check: None,
        timeouts: TimeoutConfig {
            connect: Duration::from_secs(2),
            request: Duration::from_secs(30),
            idle: Duration::from_secs(90),
        },
        retry: None,
    })
}

fn build_cfg(routes: Vec<RouteConfig>) -> GatewayConfig {
    GatewayConfig {
        listener: ListenerConfig {
            bind: "0.0.0.0:8080".into(),
            tls: None,
            max_body_bytes: 4 * 1024 * 1024,
            keepalive: Duration::from_secs(75),
            max_concurrent_requests: 10_000,
            concurrency_acquire_timeout_ms: 500,
        },
        upstreams: {
            let mut m = NameMap::new();
            m.insert(
                "backend".into(),
                upstream(vec![EndpointConfig {
                    address: "127.0.0.1:9000".into(),
                    weight: 1,
                    active: true,
                }]),
            );
            m
        },
        routes: routes.into_iter().map(Arc::new).collect(),
        rate_limiting: RateLimitConfig {
            redis_url: "redis://localhost".into(),
            policies: NameMap::new(),
        },
        cache: CacheConfig { redis_url: "redis://localhost".into(), l1_capacity: 1000 },
        auth: AuthConfig {
            jwt: JwtConfig {
                jwks_url: "https://example.com/.well-known/jwks.json".into(),
                audience: vec!["stateform".into()],
                issuers: vec!["https://example.com".into()],
                jwks_cache_ttl: Duration::from_secs(300),
            },
            api_keys: ApiKeyConfig {
                redis_key_prefix: "stateform:apikey:".into(),
                redis_url: "redis://localhost".into(),
            },
            mtls: MtlsConfig { client_ca_path: "/certs/ca.pem".into(), required: false },
        },
        observability: ObservabilityConfig { metrics_bind: "0.0.0.0:9090".into() },
        control_plane: ControlPlaneConfig {
            grpc_address: "http://localhost:50051".into(),
            reconnect_interval: Duration::from_secs(5),
        },
    }
}

fn route(id: &str, path: PathMatch) -> RouteConfig {
    RouteConfig {
        id: id.into(),
        match_: RouteMatch { path, method: None, headers: NameMap::new() },
        upstream: "backend".into(),
        load_balancing: None,
        middleware: MiddlewareConfig::default(),
        headers: HeaderMutations::default(),
        max_concurrent_requests: None,
    }
}

fn body(r: &GatewayResponse) -> &str {
    std::str::from_utf8(&r.body).unwrap()
}

fn header<'a>(r: &'a GatewayResponse, name: &str) -> Option<&'a str> {
    r.headers.iter().find(|(n, _)| n == name).map(|(_, v)| v.as_str())
}

// ── Endpoints ───────────────────────────────────────────────────────────────

fn checks(healthy: u32, unhealthy: u32) -> HealthCheckConfig {
    HealthCheckConfig {
        path: "/healthz".into(),
        interval: Duration::from_secs(10),
        timeout: Duration::from_secs(2),
        healthy_threshold: healthy,
        unhealthy_threshold: unhealthy,
    }
}

fn endpoint(address: &str, weight: u32) -> EndpointState {
    EndpointState::new(address.into(), weight)
}

#[test]
fn health_has_its_numbers() {
    assert_eq!(Health::from_u8(0), Health::Unhealthy);
    assert_eq!(Health::from_u8(1), Health::Healthy);
    assert_eq!(Health::from_u8(2), Health::Degraded);
    assert_eq!(Health::from_u8(9), Health::Unhealthy);
    assert_eq!(Health::Healthy.as_gauge_milli(), 1000);
    assert_eq!(Health::Degraded.as_gauge_milli(), 500);
    assert_eq!(Health::Unhealthy.as_gauge_milli(), 0);
}

#[test]
fn failures_degrade_and_take_out() {
    let cfg = checks(2, 3);
    let mut e = endpoint("a", 1);
    let mut now = FLAP_COOLDOWN_MS;
    assert_eq!(e.mark_failure_at(&cfg, now), Health::Degraded);
    // A change keeps its distance from the one before.
    assert_eq!(e.mark_failure_at(&cfg, now + 1), Health::Degraded);
    assert_eq!(e.mark_failure_at(&cfg, now + FLAP_COOLDOWN_MS - 1), Health::Degraded);
    now += FLAP_COOLDOWN_MS;
    assert_eq!(e.mark_failure_at(&cfg, now), Health::Unhealthy);
    assert!(!e.is_available());
    assert_eq!(e.consecutive_failures, 4);
}

#[test]
fn recovery_is_gradual() {
    let cfg = checks(2, 1);
    let mut e = endpoint("a", 1);
    let mut now = FLAP_COOLDOWN_MS;
    assert_eq!(e.mark_failure_at(&cfg, now), Health::Unhealthy);
    now += FLAP_COOLDOWN_MS;
    assert_eq!(e.mark_success_at(&cfg, now), Health::Degraded);
    assert!(e.is_available());
    now += FLAP_COOLDOWN_MS;
    assert_eq!(e.mark_success_at(&cfg, now), Health::Healthy);
    assert_eq!(e.health_state(), Health::Healthy);
    assert_eq!(e.consecutive_failures, 0);
}

#[test]
fn checks_read_the_clock() {
    let cfg = checks(1, 5);
    let mut e = endpoint("a", 1);
    assert_eq!(e.mark_failure(&cfg), Health::Degraded);
    // Too soon after the change.
    assert_eq!(e.mark_success(&cfg), Health::Degraded);
}

#[test]
fn latency_is_averaged() {
    assert_eq!(update_ewma(0, 120, 200), 120);
    assert_eq!(update_ewma(100, 200, 200), 120);
    assert_eq!(update_ewma(100, 200, 300), 130);
    assert_eq!(update_ewma(100, 200, 0), 100);
    assert_eq!(update_ewma(100, 200, 1000), 200);
    assert_eq!(update_ewma(u64::MAX, u64::MAX, 300), u64::MAX);

    let mut e = endpoint("a", 1);
    e.begin_request();
    assert_eq!(e.active_conns, 1);
    e.end_request(50, 300);
    assert_eq!((e.active_conns, e.ewma_latency), (0, 50));
}

// ── Balancing ───────────────────────────────────────────────────────────────

#[test]
fn round_robin_is_proportional() {
    let endpoints = vec![endpoint("a", 3), endpoint("b", 1)];
    let mut counter = 0usize;
    let mut hits = [0; 2];
    for _ in 0..40 {
        let i = select_endpoint(
            &endpoints,
            &LoadBalancingConfig::WeightedRoundRobin,
            None,
            &mut counter,
        );
        hits[i.unwrap()] += 1;
    }
    assert_eq!(hits, [30, 10]);
    assert_eq!(counter, 40);
}

#[test]
fn degraded_endpoints_take_half() {
    let mut endpoints = vec![endpoint("a", 4), endpoint("b", 4)];
    endpoints[1].health = Health::Degraded;
    let mut counter = 0usize;
    let mut hits = [0; 2];
    for _ in 0..60 {
        let lb = LoadBalancingConfig::WeightedRoundRobin;
        hits[select_endpoint(&endpoints, &lb, None, &mut counter).unwrap()] += 1;
    }
    assert_eq!(hits, [40, 20]);
}

#[test]
fn unhealthy_endpoints_take_nothing() {
    let mut endpoints = vec![endpoint("a", 4), endpoint("b", 1)];
    endpoints[0].health = Health::Unhealthy;
    let algorithms = [
        LoadBalancingConfig::WeightedRoundRobin,
        LoadBalancingConfig::LeastConnections { ewma_alpha_milli: 300 },
        LoadBalancingConfig::ConsistentHashing { hash_header: "x".into(), virtual_nodes: 5 },
    ];
    for lb in &algorithms {
        let mut counter = 0usize;
        for _ in 0..10 {
            assert_eq!(select_endpoint(&endpoints, lb, Some("k"), &mut counter), Some(1));
        }
    }
    endpoints[1].health = Health::Unhealthy;
    for lb in &algorithms {
        assert_eq!(select_endpoint(&endpoints, lb, Some("k"), &mut 0), None);
    }
}

#[test]
fn least_connections_is_least() {
    let lb = LoadBalancingConfig::LeastConnections { ewma_alpha_milli: 300 };
    let mut endpoints = vec![endpoint("a", 1), endpoint("b", 1), endpoint("c", 1)];
    endpoints[0].active_conns = 4;
    endpoints[1].active_conns = 2;
    endpoints[2].active_conns = 3;
    assert_eq!(select_endpoint(&endpoints, &lb, None, &mut 0), Some(1));
    // Slow answers weigh.
    endpoints[1].ewma_latency = 100;
    assert_eq!(select_endpoint(&endpoints, &lb, None, &mut 0), Some(2));
    // So does bad health.
    endpoints[2].health = Health::Degraded;
    assert_eq!(select_endpoint(&endpoints, &lb, None, &mut 0), Some(0));
}

#[test]
fn degraded_endpoints_come_last_among_equals() {
    let lb = LoadBalancingConfig::LeastConnections { ewma_alpha_milli: 300 };
    let mut endpoints = vec![endpoint("a", 1), endpoint("b", 1), endpoint("c", 1)];
    endpoints[0].health = Health::Degraded;
    assert_eq!(select_endpoint(&endpoints, &lb, None, &mut 0), Some(1));
    endpoints[1].health = Health::Degraded;
    assert_eq!(select_endpoint(&endpoints, &lb, None, &mut 0), Some(2));
    endpoints[2].health = Health::Degraded;
    assert_eq!(select_endpoint(&endpoints, &lb, None, &mut 0), Some(0));
}

#[test]
fn turns_are_shared_out_wherever_the_counter_stands() {
    let lb = LoadBalancingConfig::WeightedRoundRobin;
    let mut endpoints = vec![endpoint("a", 3), endpoint("b", 4), endpoint("c", 1)];
    endpoints[1].health = Health::Degraded;
    for start in [0, 1, 5, 1000] {
        let mut counter: usize = start;
        let mut turns = [0, 0, 0];
        for _ in 0..6 {
            turns[select_endpoint(&endpoints, &lb, None, &mut counter).unwrap()] += 1;
        }
        assert_eq!(turns, [3, 2, 1]);
        assert_eq!(counter, start + 6);
    }
}

#[test]
fn the_same_key_finds_the_same_endpoint() {
    let lb = LoadBalancingConfig::ConsistentHashing {
        hash_header: "x-user".into(),
        virtual_nodes: 150,
    };
    let mut endpoints = vec![endpoint("a:1", 1), endpoint("b:1", 1), endpoint("c:1", 1)];
    let keys: Vec<String> = (0..60).map(|i| format!("user-{i}")).collect();
    let place =
        |endpoints: &Vec<EndpointState>, k: &str| select_endpoint(endpoints, &lb, Some(k), &mut 7);
    let before: Vec<usize> = keys.iter().map(|k| place(&endpoints, k).unwrap()).collect();
    for (k, i) in keys.iter().zip(&before) {
        assert_eq!(place(&endpoints, k), Some(*i));
    }
    for i in 0..3 {
        assert!(before.contains(&i));
    }
    // A key falls on a ring on which each endpoint has its nodes side by side.
    for (k, i) in keys.iter().zip(&before) {
        assert_eq!(*i, fnv1a_64(k.as_bytes()) as usize % 450 / 150);
    }
    endpoints[0].health = Health::Unhealthy;
    for k in &keys {
        let slot = fnv1a_64(k.as_bytes()) as usize % 300 / 150;
        assert_eq!(place(&endpoints, k), Some(1 + slot));
    }
    let none = select_endpoint(&endpoints, &lb, None, &mut 0);
    assert_eq!(none, place(&endpoints, "default"));
}

#[test]
fn hashes_are_fnv1a() {
    assert_eq!(fnv1a_64(b""), 0xcbf29ce484222325);
    assert_eq!(fnv1a_64(b"a"), 0xaf63dc4c8601ec8c);
    assert_eq!(fnv1a_64(b"foobar"), 0x85944171f73967e8);
}

// ── Upstreams ───────────────────────────────────────────────────────────────

fn two_endpoints() -> UpstreamPool {
    let config = upstream(vec![
        EndpointConfig { address: "a:1".into(), weight: 1, active: true },
        EndpointConfig { address: "b:1".into(), weight: 1, active: true },
        EndpointConfig { address: "off:1".into(), weight: 1, active: false },
    ]);
    UpstreamPool::new("backend".into(), config)
}

#[test]
fn pools_hold_the_active_endpoints() {
    let pool = two_endpoints();
    let addresses: Vec<&str> = pool.endpoints.iter().map(|e| e.address.as_str()).collect();
    assert_eq!(addresses, ["a:1", "b:1"]);
}

#[test]
fn requests_are_counted_out_and_in() {
    let lb = LoadBalancingConfig::WeightedRoundRobin;
    let mut pool = two_endpoints();
    assert!(pool.can_select(&lb));
    let i = pool.begin_send(&lb, None).unwrap();
    assert_eq!(pool.endpoints[i].active_conns, 1);
    pool.end_send(i, &lb, 30);
    assert_eq!(pool.endpoints[i].active_conns, 0);
    assert_eq!(pool.endpoints[i].ewma_latency, 30);

    let smoothed = LoadBalancingConfig::LeastConnections { ewma_alpha_milli: 500 };
    assert_eq!(smoothing_milli(&smoothed), 500);
    assert_eq!(smoothing_milli(&lb), 200);
    let too_much = LoadBalancingConfig::LeastConnections { ewma_alpha_milli: 1500 };
    assert_eq!(smoothing_milli(&too_much), 1000);
    let j = pool.begin_send(&smoothed, None).unwrap();
    pool.endpoints[j].ewma_latency = 100;
    pool.end_send(j, &smoothed, 200);
    assert_eq!(pool.endpoints[j].ewma_latency, 150);

    for e in &mut pool.endpoints {
        e.health = Health::Unhealthy;
    }
    match pool.begin_send(&lb, None) {
        Err(CoreError::NoHealthyEndpoints(name)) => assert_eq!(name, "backend"),
        _ => panic!("an endpoint was found"),
    }
}

#[test]
fn rings_need_nodes() {
    let pool = two_endpoints();
    let empty =
        LoadBalancingConfig::ConsistentHashing { hash_header: "x".into(), virtual_nodes: 0 };
    assert!(!pool.can_select(&empty));
    let huge = LoadBalancingConfig::ConsistentHashing {
        hash_header: "x".into(),
        virtual_nodes: usize::MAX,
    };
    assert!(!pool.can_select(&huge));

    let config = upstream(vec![
        EndpointConfig { address: "a:1".into(), weight: u32::MAX, active: true },
        EndpointConfig { address: "b:1".into(), weight: 1, active: true },
    ]);
    let heavy = UpstreamPool::new("heavy".into(), config);
    assert!(!heavy.can_select(&LoadBalancingConfig::WeightedRoundRobin));
}

#[test]
fn traffic_tells_of_health() {
    let mut pool = two_endpoints();
    pool.observe(0, false, FLAP_COOLDOWN_MS);
    // Without checks nothing is concluded.
    assert_eq!(pool.endpoints[0].health, Health::Healthy);

    let mut config = Arc::try_unwrap(upstream(vec![EndpointConfig {
        address: "a:1".into(),
        weight: 1,
        active: true,
    }]))
    .unwrap();
    config.health_check = Some(checks(1, 3));
    let mut pool = UpstreamPool::new("checked".into(), Arc::new(config));
    pool.observe(0, false, FLAP_COOLDOWN_MS);
    assert_eq!(pool.endpoints[0].health, Health::Degraded);
    pool.observe(0, true, 2 * FLAP_COOLDOWN_MS);
    assert_eq!(pool.endpoints[0].health, Health::Healthy);
}

#[test]
fn probes_are_judged() {
    let cfg = checks(1, 2);
    assert_eq!(probe_url("10.0.0.1:80", &cfg), "http://10.0.0.1:80/healthz");
    for (outcome, health) in [
        (ProbeOutcome::Responded { status: 204 }, Health::Healthy),
        (ProbeOutcome::Responded { status: 301 }, Health::Degraded),
        (ProbeOutcome::Responded { status: 500 }, Health::Degraded),
        (ProbeOutcome::ConnectionError, Health::Degraded),
        (ProbeOutcome::TimedOut, Health::Degraded),
    ] {
        let mut e = endpoint("a", 1);
        assert_eq!(apply_probe(&mut e, &cfg, outcome, FLAP_COOLDOWN_MS), health);
    }
}

#[test]
fn keys_come_from_the_hash_header() {
    let lb = LoadBalancingConfig::ConsistentHashing {
        hash_header: "X-User".into(),
        virtual_nodes: 5,
    };
    let mut headers = HeaderMap::new();
    assert_eq!(hash_key(&lb, &headers), None);
    headers.insert("x-user", "u1".parse().unwrap());
    assert_eq!(hash_key(&lb, &headers).as_deref(), Some("u1"));
    assert_eq!(hash_key(&LoadBalancingConfig::WeightedRoundRobin, &headers), None);
}

#[test]
fn requests_are_sent_to_the_endpoint() {
    let original: Uri = "https://gateway.example/api/users?page=2".parse().unwrap();
    let sent = rewrite_uri("10.0.0.1:9000", &original).unwrap();
    assert_eq!(sent.to_string(), "http://10.0.0.1:9000/api/users?page=2");

    let bare: Uri = "gateway.example:80".parse().unwrap();
    assert_eq!(
        rewrite_uri("10.0.0.1:9000", &bare).unwrap().to_string(),
        "http://10.0.0.1:9000/"
    );
    assert!(rewrite_uri("not an address", &original).is_none());
}

#[test]
fn the_registry_holds_every_upstream() {
    let mut cfg = build_cfg(vec![]);
    cfg.upstreams.insert("other".into(), upstream(vec![]));
    let mut checked = Arc::try_unwrap(upstream(vec![
        EndpointConfig { address: "a:1".into(), weight: 1, active: true },
        EndpointConfig { address: "b:1".into(), weight: 1, active: true },
    ]))
    .unwrap();
    checked.health_check = Some(checks(1, 1));
    cfg.upstreams.insert("checked".into(), Arc::new(checked));

    let registry = UpstreamRegistry::build(&cfg);
    assert_eq!(registry.iter().len(), 3);
    assert_eq!(registry.get("other").unwrap().endpoints.len(), 0);
    assert!(registry.get("nowhere").is_none());
    assert_eq!(registry.health_targets(), vec![(2, 0), (2, 1)]);
    assert_eq!(registry.into_pools().len(), 3);
}

// ── Sending again ───────────────────────────────────────────────────────────

fn policy(max_attempts: u32) -> RetryPolicy {
    let retry = Some(RetryConfig {
        max_attempts,
        base_backoff: Duration::from_millis(100),
        on_statuses: vec![502, 503],
    });
    RetryPolicy::new(&retry, &Duration::from_secs(30))
}

#[test]
fn pauses_double_with_jitter() {
    assert_eq!(backoff_ms(100, 0), 100);
    assert_eq!(backoff_ms(100, 3), 800);
    assert_eq!(backoff_ms(1, 200), u64::MAX);
    assert_eq!(backoff_ms(0, 200), 0);

    // A quarter less up to a quarter more.
    assert_eq!(jitter(100, 0), 75);
    assert_eq!(jitter(100, 25), 100);
    assert_eq!(jitter(100, 49), 124);
    assert_eq!(jitter(100, 50), 75);
    assert_eq!(jitter(0, 0), 0);
    assert!(clock_noise() < 1_000_000_000);
}

#[test]
fn a_route_without_retries_tries_once() {
    let p = RetryPolicy::new(&None, &Duration::from_millis(1500));
    assert_eq!((p.max_attempts, p.base_backoff_ms, p.timeout_secs), (1, 50, 1));
    let (mut state, action) = p.start("backend");
    assert!(matches!(action, SendAction::Attempt { attempt: 0 }));
    let event = SendEvent::Responded { status: 503, noise: 0 };
    assert!(matches!(p.step(&mut state, event, "backend", "a:1"), SendAction::ReadBody));
    assert!(matches!(
        p.step(&mut state, SendEvent::BodyRead, "backend", "a:1"),
        SendAction::Deliver
    ));
}

#[test]
fn attempts_are_bounded() {
    let p = policy(3);
    let (mut state, mut action) = p.start("backend");
    let mut attempts = 0;
    let mut pauses = vec![];
    loop {
        let event = match action {
            SendAction::Attempt { attempt } => {
                assert_eq!(attempt, attempts);
                attempts += 1;
                SendEvent::Responded { status: 503, noise: 25 }
            }
            SendAction::Pause { millis } => {
                pauses.push(millis);
                SendEvent::Resumed
            }
            SendAction::ReadBody => SendEvent::BodyRead,
            SendAction::Deliver => break,
            SendAction::Fail(e) => panic!("{}", e.message()),
        };
        action = p.step(&mut state, event, "backend", "a:1");
    }
    assert_eq!(attempts, 3);
    // 100 ms and 200 ms, each moved by what the noise says.
    assert_eq!(pauses, vec![100, 175]);
}

#[test]
fn other_answers_are_delivered_at_once() {
    let p = policy(3);
    let (mut state, _) = p.start("backend");
    let event = SendEvent::Responded { status: 500, noise: 0 };
    assert!(matches!(p.step(&mut state, event, "backend", "a:1"), SendAction::ReadBody));
}

#[test]
fn failures_to_send_end_it() {
    let p = policy(3);
    let (mut state, _) = p.start("backend");
    match p.step(&mut state, SendEvent::TimedOut, "backend", "a:1") {
        SendAction::Fail(e) => assert_eq!(e.message(), "upstream timed out after 30s"),
        _ => panic!("a late answer was waited for"),
    }
    for event in [SendEvent::Failed("refused".into()), SendEvent::BodyFailed("refused".into())] {
        match p.step(&mut state, event, "backend", "a:1") {
            SendAction::Fail(e) => assert_eq!(e.message(), "upstream error at a:1: refused"),
            _ => panic!("a failed request was sent again"),
        }
    }
    let none = policy(0);
    match none.start("backend").1 {
        SendAction::Fail(e) => {
            assert_eq!(e.message(), "no healthy endpoints for upstream `backend`")
        }
        _ => panic!("a request was sent"),
    }
}

// ── Responses ───────────────────────────────────────────────────────────────

#[test]
fn errors_are_answered_in_json() {
    let r = error_response(404, "no \"route\"\n");
    assert_eq!(r.status, 404);
    assert_eq!(header(&r, "content-type"), Some("application/json"));
    assert_eq!(body(&r), r#"{"error":"no \"route\"\n"}"#);

    let r = error_response(500, "caf\u{e9} \u{1}");
    assert_eq!(body(&r), "{\"error\":\"caf\u{e9} \\u0001\"}");
}

#[test]
fn unavailable_says_when_to_come_back() {
    let r = service_unavailable("busy");
    assert_eq!(r.status, 503);
    assert_eq!(header(&r, "Retry-After"), Some("1"));
    assert_eq!(body(&r), r#"{"error":"busy"}"#);
}

fn denied() -> RateLimitOutcome {
    RateLimitOutcome {
        allowed: false,
        remaining: 0,
        limit: 10,
        retry_after_ms: 2500,
        denied_by: Some(DeniedBy::L1Local),
    }
}

#[test]
fn too_many_requests_says_where_the_client_stands() {
    let r = too_many_requests(&denied());
    assert_eq!(r.status, 429);
    assert_eq!(header(&r, "X-RateLimit-Limit"), Some("10"));
    assert_eq!(header(&r, "X-RateLimit-Remaining"), Some("0"));
    assert_eq!(header(&r, "Retry-After"), Some("2"));
    assert_eq!(body(&r), r#"{"error":"rate limit exceeded"}"#);
}

fn cached() -> CachedResponse {
    CachedResponse::new_at(
        203,
        vec![("content-type".into(), "text/plain".into()), ("bad name".into(), "x".into())],
        Bytes::from("hello"),
        Duration::from_secs(60),
        vec![],
        100,
    )
}

#[test]
fn cached_responses_are_marked() {
    let r = build_cached_response(cached(), 107);
    assert_eq!(r.status, 203);
    assert_eq!(header(&r, "X-Cache"), Some("HIT"));
    assert_eq!(header(&r, "Age"), Some("7"));
    assert_eq!(header(&r, "content-type"), Some("text/plain"));
    assert_eq!(header(&r, "bad name"), None);
    assert_eq!(body(&r), "hello");
}

fn mutations() -> HeaderMutations {
    let mut m = HeaderMutations::default();
    m.request_set.insert("X-Env".into(), "prod".into());
    m.request_set.insert("bad name".into(), "x".into());
    m.request_set.insert("x-bad".into(), "line\nbreak".into());
    m.request_remove.push("Cookie".into());
    m.response_set.insert("Server".into(), "gw".into());
    m
}

#[test]
fn request_headers_are_changed() {
    let mut headers = HeaderMap::new();
    headers.insert("cookie", "a=b".parse().unwrap());
    headers.append("x-env", "one".parse().unwrap());
    headers.append("x-env", "two".parse().unwrap());
    assert!(apply_request_mutations(&mut headers, &mutations()).is_ok());
    assert!(headers.get("cookie").is_none());
    let values: Vec<_> = headers.get_all("x-env").iter().collect();
    assert_eq!(values, ["prod"]);
    assert!(headers.get("x-bad").is_none());
    assert_eq!(headers.len(), 1);
}

#[test]
fn response_headers_are_changed() {
    let mut headers = HeaderMap::new();
    headers.insert("server", "nginx".parse().unwrap());
    assert!(apply_response_mutations(&mut headers, &mutations()).is_ok());
    assert_eq!(headers.get("server").unwrap(), "gw");
    assert_eq!(headers.get("x-cache").unwrap(), "MISS");
}

// ── Concurrency ─────────────────────────────────────────────────────────────

fn cfg_with_limits(global: usize, route_limit: Option<usize>) -> GatewayConfig {
    let mut r = route("test-route", PathMatch::Prefix { value: "/".into() });
    r.max_concurrent_requests = route_limit;
    let mut cfg = build_cfg(vec![r]);
    cfg.listener.max_concurrent_requests = global;
    cfg.listener.concurrency_acquire_timeout_ms = 100;
    cfg
}

#[test]
fn permit_acquired_and_released() {
    let limiter = ConcurrencyLimiter::build(&cfg_with_limits(10, None));
    assert_eq!(limiter.global_limit(), 10);
    assert_eq!(limiter.acquire_timeout(), Duration::from_millis(100));
    assert!(matches!(limiter.begin(), Admission::NeedsGlobal));
    assert!(matches!(
        limiter.global_answered("test-route", PermitEvent::Acquired),
        Admission::Admitted
    ));
}

#[test]
fn global_limit_returns_503() {
    let limiter = ConcurrencyLimiter::build(&cfg_with_limits(1, None));
    match limiter.global_answered("test-route", PermitEvent::TimedOut) {
        Admission::Refused { by, response } => {
            assert_eq!(by, RefusedBy::Global);
            assert_eq!(response.status, 503);
        }
        _ => panic!("the request was admitted"),
    }
}

#[test]
fn route_limit_returns_503_while_global_available() {
    let limiter = ConcurrencyLimiter::build(&cfg_with_limits(10, Some(1)));
    assert_eq!(limiter.routes_with_limits(), 1);
    assert_eq!(limiter.route_limit_at(0), ("test-route", 1));
    match limiter.global_answered("test-route", PermitEvent::Acquired) {
        Admission::NeedsRoute { limit } => assert_eq!(limit, 1),
        _ => panic!("the route is not limited"),
    }
    match limiter.route_answered(PermitEvent::TimedOut) {
        Admission::Refused { by, response } => {
            assert_eq!(by, RefusedBy::Route);
            assert_eq!(response.status, 503);
        }
        _ => panic!("the request was admitted"),
    }
    assert!(matches!(limiter.route_answered(PermitEvent::Acquired), Admission::Admitted));
}

#[test]
fn no_route_limit_uses_only_global() {
    let limiter = ConcurrencyLimiter::build(&cfg_with_limits(10, None));
    assert_eq!(limiter.route_limit("other"), None);
    assert!(matches!(
        limiter.global_answered("other", PermitEvent::Acquired),
        Admission::Admitted
    ));
}

#[test]
fn closed_limits_mean_shutdown() {
    let limiter = ConcurrencyLimiter::build(&cfg_with_limits(10, Some(1)));
    for admission in [
        limiter.global_answered("test-route", PermitEvent::Closed),
        limiter.route_answered(PermitEvent::Closed),
    ] {
        match admission {
            Admission::Refused { by, response } => {
                assert_eq!(by, RefusedBy::Shutdown);
                assert_eq!(body(&response), r#"{"error":"gateway shutting down"}"#);
            }
            _ => panic!("the request was admitted"),
        }
    }
}

// ── Shutdown ────────────────────────────────────────────────────────────────

#[test]
fn shutdown_waits_for_requests_in_flight() {
    let mut c = ShutdownCoordinator::new();
    assert!(!c.is_set());
    c.acquire();
    c.acquire();
    c.shutdown();
    assert!(c.is_set());
    assert_eq!(c.drain(Duration::from_secs(1)), DrainStep::Wait { millis: 50 });
    assert_eq!(c.drain(Duration::from_secs(30)), DrainStep::GaveUp { remaining: 2 });
    c.release();
    c.release();
    assert_eq!(c.drain(Duration::from_secs(31)), DrainStep::Drained);
    assert_eq!(ShutdownCoordinator::default(), ShutdownCoordinator::new());
}

// ── The pipeline ────────────────────────────────────────────────────────────

fn router() -> Router {
    let mut api = route("api", PathMatch::Prefix { value: "/api".into() });
    api.load_balancing = Some(LoadBalancingConfig::LeastConnections { ewma_alpha_milli: 300 });
    let plain = route("plain", PathMatch::Prefix { value: "/plain".into() });
    Router::build(&build_cfg(vec![api, plain])).unwrap()
}

fn allowed() -> RateLimitOutcome {
    RateLimitOutcome::failed_open()
}

fn forwarding(path: &str) -> Forwarding {
    begin(&router(), path, &Method::GET, &HeaderMap::new())
        .unwrap()
        .authenticated(Ok(None))
        .unwrap()
        .rate_checked(&allowed())
        .unwrap()
        .looked_up(CacheLookup::Miss, 0)
        .unwrap()
        .upstream_looked_for(true)
        .unwrap()
}

fn metrics_of(samples: &[Sample]) -> Vec<Metric> {
    samples
        .iter()
        .map(|s| match s {
            Sample::Increment { metric, .. }
            | Sample::Decrement { metric, .. }
            | Sample::Time { metric, .. }
            | Sample::Size { metric, .. }
            | Sample::Level { metric, .. } => *metric,
        })
        .collect()
}

#[test]
fn answers_are_stored_marked_and_recorded() {
    let mut cached = route("cached", PathMatch::Prefix { value: "/cached".into() });
    cached.middleware.cache =
        Some(CacheMiddlewareConfig { ttl: Duration::from_secs(30), read_only: false });
    cached.headers.response_set.insert("x-served-by".into(), "gateway".into());
    let router = Router::build(&build_cfg(vec![cached])).unwrap();
    let none = HeaderMap::new();
    let run = begin(&router, "/cached/a", &Method::GET, &none)
        .unwrap()
        .authenticated(Ok(None))
        .unwrap()
        .rate_checked(&allowed())
        .unwrap()
        .looked_up(CacheLookup::Miss, 100)
        .unwrap()
        .upstream_looked_for(true)
        .unwrap();

    let mut sent = HeaderMap::new();
    sent.insert("content-type", "text/plain".parse().unwrap());
    let mut cache = ResponseCache::new(10);
    let line = RequestLine { method: &Method::GET, path: "/cached/a", query: Some("q=1"), headers: &none };
    let answer = UpstreamAnswer {
        status: 200,
        headers: sent,
        body: Bytes::from("hello"),
        time: Duration::from_millis(3),
    };
    let (answered, writes, samples) = run.answered(&mut cache, &line, answer, 100);
    assert_eq!(writes.len(), 1);
    assert_eq!(writes[0].key.as_str(), "stateform:cache:GET:cached:/cached/a?q=1");
    assert_eq!(metrics_of(&samples), [Metric::UpstreamRequests, Metric::UpstreamDuration]);
    match &samples[0] {
        Sample::Increment { labels, .. } => assert_eq!(labels, &["cached", "backend", "2xx"]),
        _ => panic!("the upstream was not counted"),
    }
    let request = CacheRequest {
        route_id: "cached",
        method: "GET",
        path: "/cached/a",
        query: Some("q=1"),
        headers: &none,
    };
    let cfg = CacheMiddlewareConfig { ttl: Duration::from_secs(30), read_only: false };
    match cache.lookup(Some(&cfg), &request, 101) {
        LookupState::Finished(CacheLookup::Hit(entry)) => assert_eq!(entry.body, b"hello"),
        _ => panic!("the answer was not stored"),
    }

    let (delivered, samples) = answered.finish(&Method::GET, Duration::from_millis(5), 0);
    let delivered = delivered.unwrap();
    assert_eq!(delivered.status, 200);
    assert_eq!(delivered.body, Bytes::from("hello"));
    assert_eq!(delivered.headers["x-cache"], "MISS");
    assert_eq!(delivered.headers["x-served-by"], "gateway");
    assert_eq!(delivered.headers["content-type"], "text/plain");
    assert_eq!(
        metrics_of(&samples),
        [Metric::Requests, Metric::RequestDuration, Metric::ResponseSize]
    );
    match &samples[2] {
        Sample::Size { bytes, .. } => assert_eq!(*bytes, 5),
        _ => panic!("the response was not measured"),
    }
}

#[test]
fn requests_without_a_route_are_not_found() {
    let r = begin(&router(), "/nowhere", &Method::GET, &HeaderMap::new()).unwrap_err();
    assert_eq!(r.status, 404);
    assert_eq!(body(&r), r#"{"error":"no route matched"}"#);
}

#[test]
fn callers_that_are_not_known_are_refused() {
    let run = begin(&router(), "/api", &Method::GET, &HeaderMap::new()).unwrap();
    assert_eq!(run.matched().route_id(), "api");
    let r = run.authenticated(Err(AuthError::MissingToken)).unwrap_err();
    assert_eq!(r.status, 401);
    assert_eq!(body(&r), r#"{"error":"missing bearer token"}"#);
}

#[test]
fn callers_that_come_too_often_are_refused() {
    let ctx = AuthContext {
        subject: "u".into(),
        mechanisms: vec![],
        claims: None,
        peer_identity: None,
    };
    let run = begin(&router(), "/api", &Method::GET, &HeaderMap::new())
        .unwrap()
        .authenticated(Ok(Some(ctx)))
        .unwrap();
    assert_eq!(run.auth_context().unwrap().subject, "u");
    assert_eq!(run.rate_checked(&denied()).unwrap_err().status, 429);
}

#[test]
fn cached_answers_end_the_pipeline() {
    let admitted = || {
        begin(&router(), "/api", &Method::GET, &HeaderMap::new())
            .unwrap()
            .authenticated(Ok(None))
            .unwrap()
            .rate_checked(&allowed())
            .unwrap()
    };
    let r = admitted().looked_up(CacheLookup::Hit(cached()), 101).unwrap_err();
    assert_eq!(header(&r, "X-Cache"), Some("HIT"));
    let run = admitted().looked_up(CacheLookup::Bypass, 101).unwrap();
    assert_eq!(run.upstream(), "backend");
    assert_eq!(run.upstream_looked_for(false).unwrap_err().status, 502);
}

fn good_results() -> StageResults {
    StageResults {
        auth: Ok(None),
        rate: Ok(allowed()),
        lookup: CacheLookup::Miss,
        upstream: Ok(UpstreamAnswer {
            status: 200,
            headers: HeaderMap::new(),
            body: Bytes::from("hello"),
            time: Duration::from_millis(3),
        }),
    }
}

fn handled_by(path: &str, results: StageResults, upstreams: &mut UpstreamRegistry) -> Handled {
    let none = HeaderMap::new();
    let line = RequestLine { method: &Method::GET, path, query: None, headers: &none };
    let mut cache = ResponseCache::new(10);
    handle(&router(), &mut cache, upstreams, &line, results, Duration::from_millis(5), 0, 101)
}

fn handled_whole(path: &str, results: StageResults) -> Handled {
    handled_by(path, results, &mut UpstreamRegistry::build(&build_cfg(vec![])))
}

fn no_upstreams() -> UpstreamRegistry {
    let mut cfg = build_cfg(vec![]);
    cfg.upstreams = NameMap::new();
    UpstreamRegistry::build(&cfg)
}

fn handled(path: &str, results: StageResults) -> Result<u16, u16> {
    handled_whole(path, results).result.map(|d| d.status).map_err(|r| r.status)
}

#[test]
fn every_stage_is_recorded() {
    let whole = handled_whole("/api", good_results());
    assert_eq!(
        metrics_of(&whole.samples),
        [
            Metric::CacheLookups,
            Metric::UpstreamRequests,
            Metric::UpstreamDuration,
            Metric::Requests,
            Metric::RequestDuration,
            Metric::ResponseSize,
        ]
    );
    assert_eq!(whole.result.unwrap().headers["x-cache"], "MISS");
    // Its route has no cache.
    assert!(whole.writes.is_empty());

    let mut r = good_results();
    r.upstream = Err(CoreError::UpstreamTimeout { secs: 30 });
    assert_eq!(metrics_of(&handled_whole("/api", r).samples), [Metric::CacheLookups]);

    let mut r = good_results();
    r.rate = Ok(denied());
    assert_eq!(metrics_of(&handled_whole("/api", r).samples), [Metric::RateLimitDenied]);

    let mut r = good_results();
    r.auth = Err(AuthError::InvalidApiKey);
    assert_eq!(metrics_of(&handled_whole("/api", r).samples), [Metric::AuthFailures]);

    assert!(handled_whole("/nowhere", good_results()).samples.is_empty());
}

#[test]
fn the_first_refusal_answers() {
    assert_eq!(handled("/api", good_results()), Ok(200));
    // From the last stage to the first, each refusal comes before those after it.
    let mut r = good_results();
    r.upstream = Err(CoreError::UpstreamTimeout { secs: 1 });
    assert_eq!(handled("/api", r), Err(504));

    let mut r = good_results();
    r.upstream = Err(CoreError::UpstreamTimeout { secs: 1 });
    let lost = handled_by("/api", r, &mut no_upstreams());
    assert_eq!(lost.result.unwrap_err().status, 502);

    let mut r = good_results();
    r.lookup = CacheLookup::Hit(cached());
    let hit = handled_by("/api", r, &mut no_upstreams());
    assert_eq!(hit.result.unwrap_err().status, 203);

    let mut r = good_results();
    r.lookup = CacheLookup::Hit(cached());
    r.rate = Ok(denied());
    assert_eq!(handled("/api", r), Err(429));

    let mut r = good_results();
    r.rate = Ok(denied());
    r.auth = Err(AuthError::InvalidApiKey);
    assert_eq!(handled("/api", r), Err(403));

    let mut r = good_results();
    r.auth = Err(AuthError::InvalidApiKey);
    assert_eq!(handled("/nowhere", r), Err(404));

    let mut r = good_results();
    r.rate = Err(RateLimitError::Redis("down".into()));
    assert_eq!(handled("/api", r), Ok(200));
}

/// Upstreams with the endpoints `a`, which is busy, and `b`.
fn busy_and_idle() -> UpstreamRegistry {
    let mut cfg = build_cfg(vec![]);
    cfg.upstreams.insert(
        "backend".into(),
        upstream(vec![
            EndpointConfig { address: "a:1".into(), weight: 1, active: true },
            EndpointConfig { address: "b:1".into(), weight: 1, active: true },
        ]),
    );
    let mut upstreams = UpstreamRegistry::build(&cfg);
    upstreams.pool_at(0).endpoints[0].active_conns = 5;
    upstreams
}

#[test]
fn the_algorithm_of_the_route_selects_the_endpoint() {
    // The route has least connections, its upstream a weighted round robin.
    let mut upstreams = busy_and_idle();
    for n in 1..3 {
        assert_eq!(handled_by("/api", good_results(), &mut upstreams).endpoint, Some(1));
        let pool = upstreams.get("backend").unwrap();
        assert_eq!(pool.endpoints[1].active_conns, n);
        assert_eq!(pool.rr_counter, 0);
    }
    // Without an algorithm of its own, that of the upstream counts.
    let mut upstreams = busy_and_idle();
    for endpoint in [0, 1, 0] {
        let whole = handled_by("/plain", good_results(), &mut upstreams);
        assert_eq!(whole.endpoint, Some(endpoint));
    }
    assert_eq!(upstreams.get("backend").unwrap().rr_counter, 3);

    // A request that is refused before goes to none.
    let mut upstreams = busy_and_idle();
    let mut r = good_results();
    r.rate = Ok(denied());
    assert_eq!(handled_by("/api", r, &mut upstreams).endpoint, None);
    assert_eq!(upstreams.get("backend").unwrap().endpoints[1].active_conns, 0);

    // Nor does one that finds no endpoint.
    for e in &mut upstreams.pool_at(0).endpoints {
        e.health = Health::Unhealthy;
    }
    let whole = handled_by("/api", good_results(), &mut upstreams);
    assert_eq!(whole.endpoint, None);
    let response = whole.result.unwrap_err();
    assert_eq!(response.status, 502);
    assert_eq!(body(&response), r#"{"error":"no healthy endpoints for upstream `backend`"}"#);
    assert_eq!(metrics_of(&whole.samples), [Metric::CacheLookups]);
}

#[test]
fn keys_are_taken_from_the_header_that_the_route_names() {
    let mut sticky = route("sticky", PathMatch::Prefix { value: "/sticky".into() });
    sticky.load_balancing = Some(LoadBalancingConfig::ConsistentHashing {
        hash_header: "x-user".into(),
        virtual_nodes: 150,
    });
    let router = Router::build(&build_cfg(vec![sticky])).unwrap();
    for user in ["u-1", "u-2", "u-3", "u-4"] {
        let mut headers = HeaderMap::new();
        headers.insert("x-user", user.parse().unwrap());
        let run = begin(&router, "/sticky", &Method::GET, &headers)
            .unwrap()
            .authenticated(Ok(None))
            .unwrap()
            .rate_checked(&allowed())
            .unwrap()
            .looked_up(CacheLookup::Miss, 0)
            .unwrap()
            .upstream_looked_for(true)
            .unwrap();
        let mut upstreams = busy_and_idle();
        let pool = upstreams.pool_at(0);
        let expected =
            select_endpoint(&pool.endpoints, run.algorithm(&pool.config), Some(user), &mut 0);
        assert_eq!(run.select(pool, &headers).ok(), expected);
    }
}

#[test]
fn requests_are_prepared_as_their_route_says() {
    let mut changed = route("changed", PathMatch::Prefix { value: "/".into() });
    changed.headers.request_remove.push("cookie".into());
    changed.headers.request_set.insert("x-gateway".into(), "yes".into());
    let router = Router::build(&build_cfg(vec![changed])).unwrap();
    let mut headers = HeaderMap::new();
    headers.insert("cookie", "c".parse().unwrap());
    let run = begin(&router, "/a", &Method::GET, &headers)
        .unwrap()
        .authenticated(Ok(None))
        .unwrap()
        .rate_checked(&allowed())
        .unwrap()
        .looked_up(CacheLookup::Bypass, 0)
        .unwrap()
        .upstream_looked_for(true)
        .unwrap();
    run.prepare(&mut headers).unwrap();
    assert!(headers.get("cookie").is_none());
    assert_eq!(headers["x-gateway"], "yes");
}

#[test]
fn permits_are_taken_in_order() {
    let limiter = ConcurrencyLimiter::build(&cfg_with_limits(10, Some(1)));
    let got = PermitEvent::Acquired;
    assert!(limiter.acquire("test-route", got, got).is_ok());
    // A route without a limit asks for no permit of its own.
    assert!(limiter.acquire("other", got, PermitEvent::TimedOut).is_ok());
    for (global, route, by) in [
        (got, PermitEvent::TimedOut, RefusedBy::Route),
        (PermitEvent::TimedOut, got, RefusedBy::Global),
        (PermitEvent::Closed, got, RefusedBy::Shutdown),
    ] {
        let (refused_by, response) = limiter.acquire("test-route", global, route).unwrap_err();
        assert_eq!(refused_by, by);
        assert_eq!(response.status, 503);
        assert!(response.headers.contains(&("Retry-After".to_string(), "1".to_string())));
    }
}

#[test]
fn a_route_can_choose_its_algorithm() {
    let config = upstream(vec![]);
    assert!(matches!(
        forwarding("/api").algorithm(&config),
        LoadBalancingConfig::LeastConnections { .. }
    ));
    assert!(matches!(
        forwarding("/plain").algorithm(&config),
        LoadBalancingConfig::WeightedRoundRobin
    ));
    assert_eq!(forwarding("/plain").matched().route_id(), "plain");
}

#[test]
fn failures_of_an_upstream_have_their_status() {
    let late = forwarding("/api").failed(&CoreError::UpstreamTimeout { secs: 30 });
    assert_eq!(late.status, 504);
    let none = forwarding("/api").failed(&CoreError::NoHealthyEndpoints("backend".into()));
    assert_eq!(none.status, 502);
    assert_eq!(body(&none), r#"{"error":"no healthy endpoints for upstream `backend`"}"#);
}

#[test]
fn limits_that_fail_let_requests_through() {
    assert!(rate_limit_outcome(Err(RateLimitError::Redis("down".into()))).allowed);
    assert!(!rate_limit_outcome(Ok(denied())).allowed);
}

#[test]
fn announced_bodies_are_bounded() {
    let mut headers = HeaderMap::new();
    assert!(refuse_announced_body(&headers, 10).is_none());
    headers.insert("content-length", "10".parse().unwrap());
    assert!(refuse_announced_body(&headers, 10).is_none());
    headers.insert("content-length", "11".parse().unwrap());
    assert_eq!(refuse_announced_body(&headers, 10).unwrap().status, 413);
    assert_eq!(body(&body_too_large()), r#"{"error":"request body too large"}"#);
}

#[test]
fn clients_that_went_away_are_no_news() {
    for m in ["Connection reset by peer", "broken pipe", "connection closed", "unexpected EOF"] {
        assert!(is_benign_conn_error(m));
    }
    assert!(!is_benign_conn_error("invalid method"));
}

#[test]
fn core_errors_have_their_message() {
    for (e, m) in [
        (CoreError::Io("x".into()), "io error: x"),
        (CoreError::Tls("x".into()), "tls error: x"),
        (
            CoreError::Bind { addr: "0.0.0.0:1".into(), source: "denied".into() },
            "failed to bind listener on 0.0.0.0:1: denied",
        ),
        (CoreError::Hyper("x".into()), "hyper error: x"),
        (CoreError::Http("x".into()), "http error: x"),
        (CoreError::Metrics("x".into()), "metrics error: x"),
        (CoreError::Config(ConfigError::Io("x".into())), "config error: io error: x"),
        (
            CoreError::DrainTimeout,
            "shutdown timeout: in-flight requests did not drain in time",
        ),
    ] {
        assert_eq!(e.message(), m);
    }
}
