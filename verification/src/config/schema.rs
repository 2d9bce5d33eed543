//! The shape of a gateway configuration.

use std::sync::Arc;
use std::time::Duration;

use vstd::prelude::*;

use crate::names::NameMap;
use crate::text::{clone_texts, views};

verus! {

// ── Top level ───────────────────────────────────────────────────────────────

/// The whole configuration.
///
/// Upstreams and routes are shared by `Arc`: the routing table and the upstream
/// pools hold them for as long as a request needs them, also after a reload.
#[derive(Debug)]
pub struct GatewayConfig {
    pub listener: ListenerConfig,
    pub upstreams: NameMap<Arc<UpstreamConfig>>,
    pub routes: Vec<Arc<RouteConfig>>,
    pub rate_limiting: RateLimitConfig,
    pub cache: CacheConfig,
    pub auth: AuthConfig,
    pub observability: ObservabilityConfig,
    pub control_plane: ControlPlaneConfig,
}

// ── Listener ────────────────────────────────────────────────────────────────

#[derive(Debug)]
pub struct ListenerConfig {
    /// Address of the HTTP or HTTPS listener, such as `0.0.0.0:8080`.
    pub bind: String,
    /// Without it the listener speaks plain HTTP.
    pub tls: Option<TlsConfig>,
    /// The largest request body, in bytes.
    pub max_body_bytes: usize,
    /// How long an idle connection is kept.
    pub keepalive: Duration,
    /// Ceiling on the requests in flight over all routes.
    pub max_concurrent_requests: usize,
    /// How long to wait for a concurrency permit, in milliseconds.
    pub concurrency_acquire_timeout_ms: u64,
}

#[derive(Debug)]
pub struct TlsConfig {
    pub cert_path: String,
    pub key_path: String,
    /// The CA that client certificates are checked against, where they are asked for.
    pub client_ca_path: Option<String>,
}

// ── Upstream ────────────────────────────────────────────────────────────────

/// A named cluster of endpoints that routes refer to.
#[derive(Debug)]
pub struct UpstreamConfig {
    pub endpoints: Vec<EndpointConfig>,
    pub load_balancing: LoadBalancingConfig,
    pub health_check: Option<HealthCheckConfig>,
    pub timeouts: TimeoutConfig,
    pub retry: Option<RetryConfig>,
}

#[derive(Debug)]
pub struct EndpointConfig {
    pub address: String,
    /// Relative weight in the weighted round robin.
    pub weight: u32,
    /// Whether the endpoint takes part at all.
    pub active: bool,
}

#[derive(Debug)]
pub enum LoadBalancingConfig {
    /// Endpoints in turn, in proportion to their weights.
    WeightedRoundRobin,
    /// The endpoint with the least load.
    LeastConnections {
        /// Decay factor of the latency average, in thousandths.
        ewma_alpha_milli: u32,
    },
    /// The same key always to the same endpoint.
    ConsistentHashing {
        /// Request header whose value is the key.
        hash_header: String,
        /// Number of virtual nodes per endpoint.
        virtual_nodes: usize,
    },
}

#[derive(Debug)]
pub struct HealthCheckConfig {
    pub path: String,
    pub interval: Duration,
    pub timeout: Duration,
    /// Consecutive successes that make an endpoint healthy.
    pub healthy_threshold: u32,
    /// Consecutive failures that make an endpoint unhealthy.
    pub unhealthy_threshold: u32,
}

#[derive(Debug)]
pub struct TimeoutConfig {
    pub connect: Duration,
    pub request: Duration,
    pub idle: Duration,
}

#[derive(Debug)]
pub struct RetryConfig {
    pub max_attempts: u32,
    pub base_backoff: Duration,
    /// The response statuses that are retried.
    pub on_statuses: Vec<u16>,
}

// ── Route ───────────────────────────────────────────────────────────────────

/// One routing rule. Rules are tried in the order in which they stand.
#[derive(Debug)]
pub struct RouteConfig {
    /// Identifier for metrics and logs.
    pub id: String,
    pub match_: RouteMatch,
    /// Name of the upstream.
    pub upstream: String,
    /// Load balancing of this route; without it, that of the upstream.
    pub load_balancing: Option<LoadBalancingConfig>,
    pub middleware: MiddlewareConfig,
    pub headers: HeaderMutations,
    /// Ceiling on the requests in flight on this route.
    pub max_concurrent_requests: Option<usize>,
}

#[derive(Debug)]
pub struct RouteMatch {
    pub path: PathMatch,
    /// The method, or any method.
    pub method: Option<String>,
    /// Headers that the request has to have, each with a pattern for its value.
    pub headers: NameMap<String>,
}

#[derive(Debug)]
pub enum PathMatch {
    Prefix { value: String },
    Exact { value: String },
    Regex { pattern: String },
}

// ── Middleware ──────────────────────────────────────────────────────────────

/// What a route asks for before a request is forwarded.
#[derive(Debug)]
pub struct MiddlewareConfig {
    pub auth: Option<AuthMiddlewareConfig>,
    pub rate_limit: Option<RateLimitMiddlewareRef>,
    pub cache: Option<CacheMiddlewareConfig>,
}

impl Default for MiddlewareConfig {
    fn default() -> (r: Self)
        ensures
            r.auth is None,
            r.rate_limit is None,
            r.cache is None,
    {
        MiddlewareConfig { auth: None, rate_limit: None, cache: None }
    }
}

/// The mechanisms that a route enforces.
#[derive(Debug, Clone, Copy, PartialEq, Eq, Structural)]
pub struct AuthMiddlewareConfig {
    pub jwt: bool,
    pub api_key: bool,
    pub mtls: bool,
}

/// The name of a rate-limit policy.
#[derive(Debug)]
pub struct RateLimitMiddlewareRef {
    pub policy: String,
}

#[derive(Debug, Clone, Copy)]
pub struct CacheMiddlewareConfig {
    pub ttl: Duration,
    /// Whether responses are only served from the cache, never put there.
    pub read_only: bool,
}

#[derive(Debug)]
pub struct HeaderMutations {
    /// Headers to set on the request.
    pub request_set: NameMap<String>,
    /// Headers to remove from the request.
    pub request_remove: Vec<String>,
    /// Headers to set on the response.
    pub response_set: NameMap<String>,
}

impl Default for HeaderMutations {
    fn default() -> (r: Self)
        ensures
            r.request_set.pairs().len() == 0,
            r.request_remove@.len() == 0,
            r.response_set.pairs().len() == 0,
    {
        HeaderMutations {
            request_set: NameMap::new(),
            request_remove: Vec::new(),
            response_set: NameMap::new(),
        }
    }
}

// ── Rate limiting ───────────────────────────────────────────────────────────

#[derive(Debug)]
pub struct RateLimitConfig {
    pub redis_url: String,
    /// The policies that routes refer to.
    pub policies: NameMap<RateLimitPolicy>,
}

#[derive(Debug, Clone, Copy)]
pub struct RateLimitPolicy {
    /// The bucket inside this process.
    pub local: TokenBucketConfig,
    /// The limit shared by all gateways.
    pub distributed: DistributedRateLimitConfig,
}

#[derive(Debug, Clone, Copy, PartialEq, Eq, Structural)]
pub struct TokenBucketConfig {
    /// The most tokens that a bucket holds.
    pub capacity: u64,
    /// Tokens added per second.
    pub refill_rate: u64,
}

#[derive(Debug, Clone, Copy)]
pub enum DistributedRateLimitConfig {
    TokenBucket { capacity: u64, refill_rate: u64 },
    SlidingWindow {
        /// The most requests in a window.
        max_requests: u64,
        window: Duration,
    },
}

// ── Cache ───────────────────────────────────────────────────────────────────

#[derive(Debug)]
pub struct CacheConfig {
    pub redis_url: String,
    /// The number of entries of the in-process cache.
    pub l1_capacity: usize,
}

// ── Auth ────────────────────────────────────────────────────────────────────

#[derive(Debug)]
pub struct AuthConfig {
    pub jwt: JwtConfig,
    pub api_keys: ApiKeyConfig,
    pub mtls: MtlsConfig,
}

#[derive(Debug)]
pub struct JwtConfig {
    /// Where the signing keys are published.
    pub jwks_url: String,
    /// The audiences that are accepted.
    pub audience: Vec<String>,
    /// The issuers that are accepted.
    pub issuers: Vec<String>,
    /// How long fetched keys are kept.
    pub jwks_cache_ttl: Duration,
}

impl Clone for JwtConfig {
    fn clone(&self) -> (r: Self)
        ensures
            r.jwks_url == self.jwks_url,
            views(r.audience@) == views(self.audience@),
            views(r.issuers@) == views(self.issuers@),
            r.jwks_cache_ttl == self.jwks_cache_ttl,
    {
        JwtConfig {
            jwks_url: self.jwks_url.clone(),
            audience: clone_texts(&self.audience),
            issuers: clone_texts(&self.issuers),
            jwks_cache_ttl: self.jwks_cache_ttl,
        }
    }
}

#[derive(Debug)]
pub struct ApiKeyConfig {
    /// What stands before an API key in the name of its Redis entry.
    pub redis_key_prefix: String,
    pub redis_url: String,
}

#[derive(Debug)]
pub struct MtlsConfig {
    /// The CA that client certificates are checked against.
    pub client_ca_path: String,
    /// Whether every connection needs a client certificate.
    pub required: bool,
}

// ── Observability and control plane ─────────────────────────────────────────

#[derive(Debug)]
pub struct ObservabilityConfig {
    /// Address that metrics are served on.
    pub metrics_bind: String,
}

#[derive(Debug)]
pub struct ControlPlaneConfig {
    pub grpc_address: String,
    pub reconnect_interval: Duration,
}

} // verus!
