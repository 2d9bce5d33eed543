//! The values that a configuration takes where it leaves something out.

use std::time::Duration;

use vstd::prelude::*;

verus! {

/// The largest request body, in bytes: 4 MiB.
pub fn max_body_bytes() -> (r: usize)
    ensures
        r == 4 * 1024 * 1024,
{
    4 * 1024 * 1024
}

/// How long an idle connection is kept: 75 s.
pub fn keepalive_secs() -> (r: Duration)
    ensures
        crate::clock::duration_nanos(r) == 75 * 1_000_000_000,
{
    Duration::from_secs(75)
}

/// The ceiling on requests in flight.
pub fn max_concurrent_requests() -> (r: usize)
    ensures
        r == 10_000,
{
    10_000
}

/// How long to wait for a concurrency permit, in milliseconds.
pub fn concurrency_acquire_timeout_ms() -> (r: u64)
    ensures
        r == 500,
{
    500
}

/// The weight of an endpoint.
pub fn weight() -> (r: u32)
    ensures
        r == 1,
{
    1
}

/// Switches that are on unless the configuration turns them off.
pub fn enabled() -> (r: bool)
    ensures
        r,
{
    true
}

/// The decay factor of the latency average, in thousandths.
pub fn ewma_alpha_milli() -> (r: u32)
    ensures
        r == 300,
{
    300
}

/// The number of virtual nodes per endpoint.
pub fn vnodes() -> (r: usize)
    ensures
        r == 150,
{
    150
}

/// The time between two health checks: 10 s.
pub fn health_interval() -> (r: Duration)
    ensures
        crate::clock::duration_nanos(r) == 10 * 1_000_000_000,
{
    Duration::from_secs(10)
}

/// How long a health check may take: 2 s.
pub fn health_timeout() -> (r: Duration)
    ensures
        crate::clock::duration_nanos(r) == 2 * 1_000_000_000,
{
    Duration::from_secs(2)
}

/// Consecutive successes that make an endpoint healthy.
pub fn healthy_threshold() -> (r: u32)
    ensures
        r == 2,
{
    2
}

/// Consecutive failures that make an endpoint unhealthy.
pub fn unhealthy_threshold() -> (r: u32)
    ensures
        r == 3,
{
    3
}

/// How long connecting to an upstream may take: 2 s.
pub fn connect_timeout() -> (r: Duration)
    ensures
        crate::clock::duration_nanos(r) == 2 * 1_000_000_000,
{
    Duration::from_secs(2)
}

/// How long an upstream request may take: 30 s.
pub fn request_timeout() -> (r: Duration)
    ensures
        crate::clock::duration_nanos(r) == 30 * 1_000_000_000,
{
    Duration::from_secs(30)
}

/// How long an idle upstream connection is kept: 90 s.
pub fn idle_timeout() -> (r: Duration)
    ensures
        crate::clock::duration_nanos(r) == 90 * 1_000_000_000,
{
    Duration::from_secs(90)
}

/// The wait before the first retry: 50 ms.
pub fn retry_backoff() -> (r: Duration)
    ensures
        crate::clock::duration_nanos(r) == 50 * 1_000_000,
{
    Duration::from_millis(50)
}

/// The number of entries of the in-process cache.
pub fn l1_cache_capacity() -> (r: usize)
    ensures
        r == 10_000,
{
    10_000
}

/// How long fetched signing keys are kept: 300 s.
pub fn jwks_cache_ttl() -> (r: Duration)
    ensures
        crate::clock::duration_nanos(r) == 300 * 1_000_000_000,
{
    Duration::from_secs(300)
}

/// The wait before reconnecting to the control plane: 5 s.
pub fn cp_reconnect() -> (r: Duration)
    ensures
        crate::clock::duration_nanos(r) == 5 * 1_000_000_000,
{
    Duration::from_secs(5)
}

/// The response statuses that are retried: 502, 503 and 504.
pub fn retry_statuses() -> (r: Vec<u16>)
    ensures
        r@ == seq![502u16, 503u16, 504u16],
{
    let r: Vec<u16> = vec![502, 503, 504];
    r
}

} // verus!
