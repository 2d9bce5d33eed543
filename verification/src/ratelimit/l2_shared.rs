//! The limit that all gateways share, kept by a Redis server.

use vstd::prelude::*;

use crate::clock::duration_secs;
use crate::config::schema::DistributedRateLimitConfig;
use crate::ratelimit::error::RateLimitError;

verus! {

/// What the shared limit says of a request.
#[derive(Debug, Clone, Copy, PartialEq, Eq, Structural)]
pub struct L2Outcome {
    pub allowed: bool,
    pub remaining: u64,
    /// When the request may be tried again, in milliseconds, if it was denied.
    pub retry_after_ms: u64,
}

/// The script that a shared limit runs, with its numbers.
#[derive(Debug, Clone, Copy, PartialEq, Eq, Structural)]
pub enum SharedScript {
    TokenBucket { capacity: u64, refill_rate: u64 },
    SlidingWindow { max_requests: u64, window_secs: u64 },
}

/// `n`, or 0 if it is negative.
pub open spec fn at_least_zero(n: i64) -> u64 {
    if n < 0 {
        0
    } else {
        n as u64
    }
}

/// The number at position `i` of a reply, or `default` if it is too short.
pub open spec fn reply_at(reply: Seq<i64>, i: int, default: i64) -> i64 {
    if i < reply.len() {
        reply[i]
    } else {
        default
    }
}

/// What a reply says: whether the request is allowed, what is left, and when to try again.
/// A reply that says nothing allows.
pub open spec fn outcome_of(reply: Seq<i64>) -> L2Outcome {
    L2Outcome {
        allowed: reply_at(reply, 0, 1) == 1,
        remaining: at_least_zero(reply_at(reply, 1, 0)),
        retry_after_ms: at_least_zero(reply_at(reply, 2, 0)),
    }
}

/// What counts when the server cannot be asked: the request is allowed.
pub open spec fn open_outcome() -> L2Outcome {
    L2Outcome { allowed: true, remaining: 0, retry_after_ms: 0 }
}

fn number_at(reply: &Vec<i64>, i: usize, default: i64) -> (r: i64)
    ensures
        r == reply_at(reply@, i as int, default),
{
    if i < reply.len() {
        reply[i]
    } else {
        default
    }
}

fn not_negative(n: i64) -> (r: u64)
    ensures
        r == at_least_zero(n),
{
    if n < 0 {
        0
    } else {
        n as u64
    }
}

impl L2Outcome {
    /// Read the reply of the server.
    pub fn from_reply(reply: &Vec<i64>) -> (r: Self)
        ensures
            r == outcome_of(reply@),
    {
        L2Outcome {
            allowed: number_at(reply, 0, 1) == 1,
            remaining: not_negative(number_at(reply, 1, 0)),
            retry_after_ms: not_negative(number_at(reply, 2, 0)),
        }
    }

    /// Read what came of asking the server. A failure allows the request: the bucket in
    /// this process still protects the upstream.
    pub fn from_result(result: Result<Vec<i64>, RateLimitError>) -> (r: Self)
        ensures
            r == match result {
                Ok(reply) => outcome_of(reply@),
                Err(_) => open_outcome(),
            },
    {
        match result {
            Ok(reply) => L2Outcome::from_reply(&reply),
            Err(_) => L2Outcome { allowed: true, remaining: 0, retry_after_ms: 0 },
        }
    }
}

/// The script that a shared limit runs.
pub open spec fn script_for(config: DistributedRateLimitConfig) -> SharedScript {
    match config {
        DistributedRateLimitConfig::TokenBucket { capacity, refill_rate } =>
            SharedScript::TokenBucket { capacity, refill_rate },
        DistributedRateLimitConfig::SlidingWindow { max_requests, window } =>
            SharedScript::SlidingWindow { max_requests, window_secs: duration_secs(window) as u64 },
    }
}

/// Choose the script that a shared limit runs.
pub fn shared_script(config: &DistributedRateLimitConfig) -> (r: SharedScript)
    ensures
        r == script_for(*config),
{
    match config {
        DistributedRateLimitConfig::TokenBucket { capacity, refill_rate } =>
            SharedScript::TokenBucket { capacity: *capacity, refill_rate: *refill_rate },
        DistributedRateLimitConfig::SlidingWindow { max_requests, window } =>
            SharedScript::SlidingWindow {
                max_requests: *max_requests,
                window_secs: window.as_secs(),
            },
    }
}

// ── Laws ────────────────────────────────────────────────────────────────────

/// The server replies with three numbers: 1 if the request is allowed, what is left, and the
/// milliseconds to wait. A number below 0 counts as 0, and so does one that is missing; an
/// empty reply allows, and so does a server that cannot be asked.
pub proof fn law_replies_are_read_in_order(reply: Seq<i64>)
    ensures
        reply.len() >= 1 ==> (outcome_of(reply).allowed <==> reply[0] == 1),
        reply.len() == 0 ==> outcome_of(reply).allowed,
        reply.len() >= 2 && reply[1] >= 0 ==> outcome_of(reply).remaining == reply[1],
        reply.len() >= 2 && reply[1] < 0 ==> outcome_of(reply).remaining == 0,
        reply.len() < 2 ==> outcome_of(reply).remaining == 0,
        reply.len() >= 3 && reply[2] >= 0 ==> outcome_of(reply).retry_after_ms == reply[2],
        reply.len() >= 3 && reply[2] < 0 ==> outcome_of(reply).retry_after_ms == 0,
        reply.len() < 3 ==> outcome_of(reply).retry_after_ms == 0,
        open_outcome().allowed && open_outcome().remaining == 0 && open_outcome().retry_after_ms
            == 0,
{
}

/// The script of a shared limit works with the numbers of its configuration; a window counts
/// in whole seconds.
pub proof fn law_scripts_take_their_numbers(config: DistributedRateLimitConfig)
    ensures
        config matches DistributedRateLimitConfig::TokenBucket { capacity, refill_rate }
            ==> script_for(config) == (SharedScript::TokenBucket { capacity, refill_rate }),
        config matches DistributedRateLimitConfig::SlidingWindow { max_requests, window } ==> (
        script_for(config) matches SharedScript::SlidingWindow { max_requests: m, window_secs: s }
            && m == max_requests && s == duration_secs(window) as u64),
{
}

} // verus!
