use std::sync::Arc;
use std::time::Duration;

use http::HeaderMap;
use stateform::auth::context::AuthContext;
use stateform::config::schema::{
    ApiKeyConfig, AuthConfig, CacheConfig, ControlPlaneConfig, DistributedRateLimitConfig,
    EndpointConfig, GatewayConfig, JwtConfig, ListenerConfig, LoadBalancingConfig, MtlsConfig,
    ObservabilityConfig, RateLimitConfig, RateLimitMiddlewareRef, RateLimitPolicy, RouteConfig,
    TimeoutConfig, TokenBucketConfig, UpstreamConfig,
};
use stateform::names::NameMap;
use stateform::ratelimit::bucket::Bucket;
use stateform::ratelimit::error::RateLimitError;
use stateform::ratelimit::key::derive_key;
use stateform::ratelimit::l1_local::L1LocalLimiter;
use stateform::ratelimit::l2_shared::{shared_script, L2Outcome, SharedScript};
use stateform::ratelimit::limiter::{DeniedBy, LimitState, RateLimitOutcome, RateLimiter};

fn upstream(endpoints: Vec<EndpointConfig>) -> Arc<UpstreamConfig> {
    Arc::new(UpstreamConfig {
        endpoints,
        load_balancing: LoadBalancingConfig::WeightedRoundRobin,
        health_check: None,
        timeouts: TimeoutConfig {
            connect: Duration::from_secs(2),
            request: Duration::from_secs(30),
            idle: Duration::from_secs(90),
        },
        retry: None,
    })
}

fn build_cfg(routes: Vec<RouteConfig>) -> GatewayConfig {
    GatewayConfig {
        listener: ListenerConfig {
            bind: "0.0.0.0:8080".into(),
            tls: None,
            max_body_bytes: 4 * 1024 * 1024,
            keepalive: Duration::from_secs(75),
            max_concurrent_requests: 10_000,
            concurrency_acquire_timeout_ms: 500,
        },
        upstreams: {
            let mut m = NameMap::new();
            m.insert(
                "backend".into(),
                upstream(vec![EndpointConfig {
                    address: "127.0.0.1:9000".into(),
                    weight: 1,
                    active: true,
                }]),
            );
            m
        },
        routes: routes.into_iter().map(Arc::new).collect(),
        rate_limiting: RateLimitConfig {
            redis_url: "redis://localhost".into(),
            policies: NameMap::new(),
        },
        cache: CacheConfig { redis_url: "redis://localhost".into(), l1_capacity: 1000 },
        auth: AuthConfig {
            jwt: JwtConfig {
                jwks_url: "https://example.com/.well-known/jwks.json".into(),
                audience: vec!["stateform".into()],
                issuers: vec!["https://example.com".into()],
                jwks_cache_ttl: Duration::from_secs(300),
            },
            api_keys: ApiKeyConfig {
                redis_key_prefix: "stateform:apikey:".into(),
                redis_url: "redis://localhost".into(),
            },
            mtls: MtlsConfig { client_ca_path: "/certs/ca.pem".into(), required: false },
        },
        observability: ObservabilityConfig { metrics_bind: "0.0.0.0:9090".into() },
        control_plane: ControlPlaneConfig {
            grpc_address: "http://localhost:50051".into(),
            reconnect_interval: Duration::from_secs(5),
        },
    }
}

const SECOND: u64 = 1_000_000_000;

fn cfg(capacity: u64, refill_rate: u64) -> TokenBucketConfig {
    TokenBucketConfig { capacity, refill_rate }
}

fn ctx(subject: &str) -> AuthContext {
    AuthContext {
        subject: subject.into(),
        mechanisms: vec![],
        claims: None,
        peer_identity: None,
    }
}

// ── Keys ────────────────────────────────────────────────────────────────────

#[test]
fn uses_subject_when_authed() {
    let ctx = ctx("user-42");
    let key = derive_key("api", Some(&ctx), &HeaderMap::new());
    assert_eq!(key, "stateform:rl:api:user-42");
}

#[test]
fn falls_back_to_xff() {
    let mut headers = HeaderMap::new();
    headers.insert("x-forwarded-for", "1.2.3.4, 10.0.0.1".parse().unwrap());
    let key = derive_key("api", None, &headers);
    assert_eq!(key, "stateform:rl:api:1.2.3.4");
}

#[test]
fn falls_back_to_real_ip() {
    let mut headers = HeaderMap::new();
    headers.insert("x-real-ip", "5.6.7.8".parse().unwrap());
    let key = derive_key("api", None, &headers);
    assert_eq!(key, "stateform:rl:api:5.6.7.8");
}

#[test]
fn anonymous_when_no_identity() {
    let key = derive_key("chat", None, &HeaderMap::new());
    assert_eq!(key, "stateform:rl:chat:anonymous");
}

#[test]
fn route_id_namespaces_key() {
    let ctx = ctx("user-1");
    let k1 = derive_key("search", Some(&ctx), &HeaderMap::new());
    let k2 = derive_key("upload", Some(&ctx), &HeaderMap::new());
    assert_ne!(k1, k2);
}

#[test]
fn a_subject_counts_before_addresses() {
    let mut headers = HeaderMap::new();
    headers.insert("x-forwarded-for", " 1.2.3.4 ,5.5.5.5".parse().unwrap());
    headers.insert("x-real-ip", " 5.6.7.8 ".parse().unwrap());
    assert_eq!(derive_key("r", Some(&ctx("u")), &headers), "stateform:rl:r:u");
    assert_eq!(derive_key("r", None, &headers), "stateform:rl:r:1.2.3.4");
    headers.remove("x-forwarded-for");
    assert_eq!(derive_key("r", None, &headers), "stateform:rl:r:5.6.7.8");
}

// ── Buckets ─────────────────────────────────────────────────────────────────

#[test]
fn allows_up_to_capacity() {
    let mut limiter = L1LocalLimiter::new(cfg(5, 1));
    for _ in 0..5 {
        assert!(limiter.check("key"));
    }
}

#[test]
fn denies_when_empty() {
    let mut limiter = L1LocalLimiter::new(cfg(2, 0));
    assert!(limiter.check("k"));
    assert!(limiter.check("k"));
    assert!(!limiter.check("k"));
}

#[test]
fn refills_over_time() {
    let mut limiter = L1LocalLimiter::new(cfg(1, 100));
    assert!(limiter.check_at("k", 0));
    assert!(!limiter.check_at("k", 0));
    // 20 ms later two tokens have come in, of which one fits.
    assert!(limiter.check_at("k", 20_000_000));
}

#[test]
fn keys_are_independent() {
    let mut limiter = L1LocalLimiter::new(cfg(1, 0));
    assert!(limiter.check("a"));
    assert!(!limiter.check("a"));
    assert!(limiter.check("b"));
}

#[test]
fn remaining_starts_at_capacity() {
    let limiter = L1LocalLimiter::new(cfg(100, 10));
    assert_eq!(limiter.remaining("new-key"), 100);
    assert_eq!(limiter.capacity(), 100);
}

#[test]
fn remaining_decrements_after_check() {
    let mut limiter = L1LocalLimiter::new(cfg(10, 0));
    limiter.check("k");
    assert_eq!(limiter.remaining("k"), 9);
}

#[test]
fn buckets_refill_by_the_nanosecond() {
    let mut b = Bucket::new(&cfg(2, 4), 0);
    assert!(b.consume(0));
    assert!(b.consume(0));
    assert!(!b.consume(0));
    // A quarter of a second makes one token, not a nanosecond earlier.
    assert!(!b.consume(SECOND / 4 - 1));
    assert!(b.consume(SECOND / 4));
    assert_eq!(b.available(SECOND / 4), 0);
    assert_eq!(b.available(SECOND / 2), 1);
    // And never more than fit.
    assert_eq!(b.available(100 * SECOND), 2);
}

#[test]
fn a_clock_that_stands_back_refills_nothing() {
    let mut b = Bucket::new(&cfg(1, 1000), 10 * SECOND);
    assert!(b.consume(10 * SECOND));
    assert!(!b.consume(5 * SECOND));
}

#[test]
fn the_rate_is_bounded() {
    // Over any span no more passes than the bucket holds and what comes in.
    let mut b = Bucket::new(&cfg(5, 10), 0);
    let mut passed = 0;
    for ms in 0..1000u64 {
        if b.consume(ms * 1_000_000) {
            passed += 1;
        }
    }
    assert!(passed <= 5 + 10);
    assert!(passed >= 14);
}

// ── The shared limit ────────────────────────────────────────────────────────

#[test]
fn l2_outcome_parses_allowed() {
    let raw: Vec<i64> = vec![1, 99, 0];
    let outcome = L2Outcome::from_reply(&raw);
    assert!(outcome.allowed);
    assert_eq!(outcome.remaining, 99);
    assert_eq!(outcome.retry_after_ms, 0);
}

#[test]
fn l2_outcome_parses_denied() {
    let raw: Vec<i64> = vec![0, 0, 350];
    let outcome = L2Outcome::from_reply(&raw);
    assert!(!outcome.allowed);
    assert_eq!(outcome.retry_after_ms, 350);
}

#[test]
fn odd_replies_are_read_kindly() {
    let short = L2Outcome::from_reply(&vec![]);
    assert!(short.allowed);
    let negative = L2Outcome::from_reply(&vec![0, -5, -7]);
    assert_eq!((negative.remaining, negative.retry_after_ms), (0, 0));
}

#[test]
fn a_shared_tier_that_is_down_allows() {
    let outcome = L2Outcome::from_result(Err(RateLimitError::Redis("down".into())));
    assert!(outcome.allowed);
    assert!(!L2Outcome::from_result(Ok(vec![0, 0, 1])).allowed);
}

#[test]
fn each_policy_has_its_script() {
    assert_eq!(
        shared_script(&DistributedRateLimitConfig::TokenBucket { capacity: 3, refill_rate: 4 }),
        SharedScript::TokenBucket { capacity: 3, refill_rate: 4 }
    );
    assert_eq!(
        shared_script(&DistributedRateLimitConfig::SlidingWindow {
            max_requests: 9,
            window: Duration::from_millis(61_500),
        }),
        SharedScript::SlidingWindow { max_requests: 9, window_secs: 61 }
    );
}

// ── The limiter ─────────────────────────────────────────────────────────────

#[test]
fn outcome_headers_when_allowed() {
    let outcome = RateLimitOutcome {
        allowed: true,
        remaining: 42,
        limit: 100,
        retry_after_ms: 0,
        denied_by: None,
    };
    let headers = outcome.to_headers();
    assert!(headers.iter().any(|(k, v)| k == "X-RateLimit-Limit" && v == "100"));
    assert!(headers.iter().any(|(k, v)| k == "X-RateLimit-Remaining" && v == "42"));
    assert!(!headers.iter().any(|(k, _)| k == "Retry-After"));
}

#[test]
fn outcome_headers_when_denied() {
    let outcome = RateLimitOutcome {
        allowed: false,
        remaining: 0,
        limit: 100,
        retry_after_ms: 3500,
        denied_by: Some(DeniedBy::L2Distributed),
    };
    let headers = outcome.to_headers();
    assert!(headers.iter().any(|(k, v)| k == "Retry-After" && v == "3"));
}

fn limited(capacity: u64) -> GatewayConfig {
    let routes: Vec<RouteConfig> = vec![];
    let mut cfg = build_cfg(routes);
    cfg.rate_limiting.policies.insert(
        "gold".into(),
        RateLimitPolicy {
            local: TokenBucketConfig { capacity, refill_rate: 0 },
            distributed: DistributedRateLimitConfig::TokenBucket { capacity: 50, refill_rate: 5 },
        },
    );
    cfg
}

fn gold() -> RateLimitMiddlewareRef {
    RateLimitMiddlewareRef { policy: "gold".into() }
}

#[test]
fn no_middleware_ref_always_allows() {
    let ref_: Option<&RateLimitMiddlewareRef> = None;
    assert!(ref_.is_none());

    let mut limiter = RateLimiter::new(&limited(0));
    let now = limiter.now();
    match limiter.check(ref_, "api", None, &HeaderMap::new(), now) {
        Ok(LimitState::Finished(outcome)) => {
            assert!(outcome.allowed);
            assert_eq!(outcome.limit, u64::MAX);
        }
        _ => panic!("the route was limited"),
    }
}

#[test]
fn an_empty_bucket_denies_before_the_shared_limit_is_asked() {
    let mut limiter = RateLimiter::new(&limited(1));
    let none = HeaderMap::new();
    let pending = match limiter.check(Some(&gold()), "api", Some(&ctx("u")), &none, 0) {
        Ok(LimitState::AskShared(p)) => p,
        _ => panic!("the first request was denied"),
    };
    assert_eq!(pending.key, "stateform:rl:api:u");
    assert_eq!(pending.script, SharedScript::TokenBucket { capacity: 50, refill_rate: 5 });
    assert_eq!((pending.remaining, pending.limit), (0, 1));

    match limiter.check(Some(&gold()), "api", Some(&ctx("u")), &none, 0) {
        Ok(LimitState::Finished(outcome)) => {
            assert!(!outcome.allowed);
            assert_eq!(outcome.retry_after_ms, 1000);
            assert_eq!(outcome.denied_by, Some(DeniedBy::L1Local));
        }
        _ => panic!("the second request was not denied"),
    }
    // Another route is counted apart.
    assert!(matches!(
        limiter.check(Some(&gold()), "other", Some(&ctx("u")), &none, 0),
        Ok(LimitState::AskShared(_))
    ));
}

#[test]
fn both_limits_count() {
    let mut limiter = RateLimiter::new(&limited(10));
    let none = HeaderMap::new();
    let mut pending = || match limiter.check(Some(&gold()), "api", None, &none, 0) {
        Ok(LimitState::AskShared(p)) => p,
        _ => panic!("the request was denied"),
    };
    let open = pending().finish(L2Outcome { allowed: true, remaining: 4, retry_after_ms: 0 });
    assert!(open.allowed);
    assert_eq!((open.remaining, open.limit), (4, 10));

    let tight = pending().finish(L2Outcome { allowed: true, remaining: 40, retry_after_ms: 0 });
    assert_eq!(tight.remaining, 8);

    let denied = pending().finish(L2Outcome { allowed: false, remaining: 3, retry_after_ms: 250 });
    assert!(!denied.allowed);
    assert_eq!((denied.remaining, denied.retry_after_ms), (0, 250));
    assert_eq!(denied.denied_by, Some(DeniedBy::L2Distributed));
}

#[test]
fn unknown_policies_are_reported() {
    let mut limiter = RateLimiter::new(&limited(1));
    let silver = RateLimitMiddlewareRef { policy: "silver".into() };
    match limiter.check(Some(&silver), "api", None, &HeaderMap::new(), 0) {
        Err(RateLimitError::UnknownPolicy(name)) => assert_eq!(name, "silver"),
        _ => panic!("the policy was found"),
    }
}

#[test]
fn a_limiter_that_failed_lets_requests_through() {
    assert!(RateLimitOutcome::failed_open().allowed);
}

#[test]
fn rate_limit_errors_have_their_message() {
    assert_eq!(RateLimitError::Exceeded.message(), "rate limit exceeded");
    assert_eq!(RateLimitError::Redis("x".into()).message(), "redis error: x");
    assert_eq!(RateLimitError::Script("x".into()).message(), "lua script error: x");
    assert_eq!(
        RateLimitError::UnknownPolicy("x".into()).message(),
        "unknown rate-limit policy: x"
    );
    assert_eq!(RateLimitError::Config("x".into()).message(), "config error: x");
}

#[test]
fn without_refill_the_capacity_is_all() {
    let mut limiter = L1LocalLimiter::new(TokenBucketConfig { capacity: 3, refill_rate: 0 });
    for i in 0..6u64 {
        let now: u64 = i * 1_000_000_000;
        assert_eq!(limiter.remaining_at("a", now), 3u64.saturating_sub(i));
        assert_eq!(limiter.check_at("a", now), i < 3);
        // Others have their own.
        assert_eq!(limiter.check_at("b", now), i < 3);
    }
    assert_eq!(limiter.remaining("a"), 0);
    assert!(!limiter.check("a"));
    assert_eq!(limiter.remaining("c"), 3);
}
