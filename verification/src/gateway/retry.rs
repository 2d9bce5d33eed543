//! Sending a request to an endpoint, with retries.

use std::time::{Duration, SystemTime};

use vstd::arithmetic::power2::{lemma_pow2_pos, lemma_pow2_unfold, pow2};
use vstd::prelude::*;

use crate::clock::{duration_millis, duration_secs, millis_u64, unix_nanos, unix_time};
use crate::config::schema::RetryConfig;
use crate::gateway::error::CoreError;

verus! {

/// The rules for sending one request.
#[derive(Debug)]
pub struct RetryPolicy {
    pub max_attempts: u32,
    /// The response statuses that are retried.
    pub statuses: Vec<u16>,
    pub base_backoff_ms: u64,
    /// How long one attempt may take, in seconds.
    pub timeout_secs: u64,
}

/// `n`, or the largest number of 64 bits if it is larger.
pub open spec fn capped(n: int) -> u64 {
    if n > u64::MAX {
        u64::MAX
    } else {
        n as u64
    }
}

/// The pause after attempt number `attempt` before jitter: it doubles with each attempt.
pub open spec fn backoff_base(base_ms: u64, attempt: u32) -> u64 {
    capped(base_ms * pow2(attempt as nat))
}

/// How far jitter may move a pause: a quarter of it, but no less than a millisecond.
pub open spec fn jitter_span(base: u64) -> u64 {
    if base / 4 >= 1 {
        base / 4
    } else {
        1
    }
}

/// The pause with jitter: moved by less than the span down or up, as `noise` falls.
pub open spec fn jittered(base: u64, noise: u64) -> u64 {
    let span = jitter_span(base);
    let moved = base + noise % ((2 * span) as u64) - span;
    if moved < 0 {
        0
    } else {
        capped(moved)
    }
}

/// What the sender of a request does next.
#[derive(Debug)]
pub enum SendAction {
    /// Send the request, as attempt number `attempt`.
    Attempt { attempt: u32 },
    /// Wait, then go on.
    Pause { millis: u64 },
    /// Read the body of the response, then go on.
    ReadBody,
    /// Hand the response on.
    Deliver,
    /// Give up.
    Fail(CoreError),
}

/// What the sender has seen happen.
#[derive(Debug)]
pub enum SendEvent {
    /// The attempt took too long.
    TimedOut,
    /// The request could not be sent, or no response came.
    Failed(String),
    /// A response with this status came.
    Responded { status: u16, noise: u64 },
    /// The pause is over.
    Resumed,
    /// The body has been read.
    BodyRead,
    /// The body could not be read.
    BodyFailed(String),
}

/// The number of the attempt that is under way.
#[derive(Debug, Clone, Copy, PartialEq, Eq, Structural)]
pub struct SendState {
    pub attempt: u32,
}

/// Whether a response with `status` is retried after attempt number `attempt`.
pub open spec fn is_retried(policy: RetryPolicy, attempt: u32, status: u16) -> bool {
    policy.statuses@.contains(status) && attempt + 1 < policy.max_attempts
}

/// Whether `action` is what follows when attempt number `attempt` begins.
pub open spec fn begins(policy: RetryPolicy, pool: Seq<char>, attempt: int, action: SendAction) -> bool {
    if attempt < policy.max_attempts {
        action == (SendAction::Attempt { attempt: attempt as u32 })
    } else {
        action matches SendAction::Fail(CoreError::NoHealthyEndpoints(name)) && name@ == pool
    }
}

/// Whether `action` gives up because `address` failed with `message`.
pub open spec fn gives_up(action: SendAction, address: Seq<char>, message: Seq<char>) -> bool {
    action matches SendAction::Fail(CoreError::Upstream { upstream, message: m }) && upstream@
        == address && m@ == message
}

impl RetryPolicy {
    /// The rules of a route: one attempt where it does not speak of retries.
    pub fn new(retry: &Option<RetryConfig>, request_timeout: &Duration) -> (r: Self)
        ensures
            r.timeout_secs == duration_secs(*request_timeout),
            match retry {
                Some(cfg) => {
                    &&& r.max_attempts == cfg.max_attempts
                    &&& r.statuses@ == cfg.on_statuses@
                    &&& r.base_backoff_ms == capped(duration_millis(cfg.base_backoff) as int)
                },
                None => {
                    &&& r.max_attempts == 1
                    &&& r.statuses@.len() == 0
                    &&& r.base_backoff_ms == 50
                },
            },
    {
        match retry {
            Some(cfg) => {
                let mut statuses: Vec<u16> = Vec::new();
                for i in 0..cfg.on_statuses.len()
                    invariant
                        statuses@ == cfg.on_statuses@.take(i as int),
                {
                    statuses.push(cfg.on_statuses[i]);
                    proof {
                        assert(cfg.on_statuses@.take(i + 1) == cfg.on_statuses@.take(i as int).push(
                            cfg.on_statuses@[i as int],
                        ));
                    }
                }
                proof {
                    assert(cfg.on_statuses@.take(cfg.on_statuses@.len() as int)
                        == cfg.on_statuses@);
                }
                RetryPolicy {
                    max_attempts: cfg.max_attempts,
                    statuses,
                    base_backoff_ms: millis_u64(&cfg.base_backoff),
                    timeout_secs: request_timeout.as_secs(),
                }
            },
            None => RetryPolicy {
                max_attempts: 1,
                statuses: Vec::new(),
                base_backoff_ms: 50,
                timeout_secs: request_timeout.as_secs(),
            },
        }
    }

    fn retries(&self, status: u16) -> (r: bool)
        ensures
            r == self.statuses@.contains(status),
    {
        for i in 0..self.statuses.len()
            invariant
                forall|j: int| 0 <= j < i ==> self.statuses@[j] != status,
        {
            if self.statuses[i] == status {
                return true;
            }
        }
        false
    }

    /// The first thing to do for a request of the upstream `pool`.
    pub fn start(&self, pool: &str) -> (r: (SendState, SendAction))
        ensures
            r.0.attempt == 0,
            begins(*self, pool@, 0, r.1),
    {
        (SendState { attempt: 0 }, self.begin(0, pool))
    }

    fn begin(&self, attempt: u32, pool: &str) -> (r: SendAction)
        ensures
            begins(*self, pool@, attempt as int, r),
    {
        if attempt < self.max_attempts {
            SendAction::Attempt { attempt }
        } else {
            SendAction::Fail(CoreError::NoHealthyEndpoints(pool.to_owned()))
        }
    }

    /// What to do after `event`, for a request of the upstream `pool` that goes to the
    /// endpoint at `address`.
    pub fn step(&self, state: &mut SendState, event: SendEvent, pool: &str, address: &str) -> (r:
        SendAction)
        ensures
            match event {
                SendEvent::TimedOut => {
                    &&& *final(state) == *old(state)
                    &&& r == SendAction::Fail(
                        CoreError::UpstreamTimeout { secs: self.timeout_secs },
                    )
                },
                SendEvent::Failed(message) => *final(state) == *old(state) && gives_up(
                    r,
                    address@,
                    message@,
                ),
                SendEvent::Responded { status, noise } => {
                    &&& *final(state) == *old(state)
                    &&& r == if is_retried(*self, old(state).attempt, status) {
                        SendAction::Pause {
                            millis: jittered(
                                backoff_base(self.base_backoff_ms, old(state).attempt),
                                noise,
                            ),
                        }
                    } else {
                        SendAction::ReadBody
                    }
                },
                SendEvent::Resumed => {
                    &&& final(state).attempt == if old(state).attempt == u32::MAX {
                        u32::MAX
                    } else {
                        (old(state).attempt + 1) as u32
                    }
                    &&& begins(*self, pool@, final(state).attempt as int, r)
                },
                SendEvent::BodyRead => *final(state) == *old(state) && r == SendAction::Deliver,
                SendEvent::BodyFailed(message) => *final(state) == *old(state) && gives_up(
                    r,
                    address@,
                    message@,
                ),
            },
    {
        match event {
            SendEvent::TimedOut => SendAction::Fail(
                CoreError::UpstreamTimeout { secs: self.timeout_secs },
            ),
            SendEvent::Failed(message) => SendAction::Fail(
                CoreError::Upstream { upstream: address.to_owned(), message },
            ),
            SendEvent::Responded { status, noise } => {
                if self.retries(status) && state.attempt < self.max_attempts && state.attempt + 1
                    < self.max_attempts {
                    let base: u64 = backoff_ms(self.base_backoff_ms, state.attempt);
                    SendAction::Pause { millis: jitter(base, noise) }
                } else {
                    SendAction::ReadBody
                }
            },
            SendEvent::Resumed => {
                state.attempt = state.attempt.saturating_add(1);
                self.begin(state.attempt, pool)
            },
            SendEvent::BodyRead => SendAction::Deliver,
            SendEvent::BodyFailed(message) => SendAction::Fail(
                CoreError::Upstream { upstream: address.to_owned(), message },
            ),
        }
    }
}

/// The pause after attempt number `attempt`, before jitter.
pub fn backoff_ms(base_ms: u64, attempt: u32) -> (r: u64)
    ensures
        r == backoff_base(base_ms, attempt),
{
    let mut pause: u64 = base_ms;
    proof {
        lemma_pow2_at_zero();
    }
    for i in 0..attempt
        invariant
            pause == backoff_base(base_ms, i),
    {
        proof {
            lemma_backoff_doubles(base_ms, i);
        }
        pause = if pause > u64::MAX / 2 {
            u64::MAX
        } else {
            2 * pause
        };
    }
    pause
}

proof fn lemma_pow2_at_zero()
    ensures
        pow2(0) == 1,
{
    vstd::arithmetic::power2::lemma2_to64();
}

proof fn lemma_backoff_doubles(base_ms: u64, attempt: u32)
    requires
        attempt < u32::MAX,
    ensures
        backoff_base(base_ms, (attempt + 1) as u32) == capped(
            2 * backoff_base(base_ms, attempt) as int,
        ),
{
    let n = attempt as nat;
    lemma_pow2_unfold(n + 1);
    lemma_pow2_pos(n);
    assert(base_ms * pow2(n + 1) == 2 * (base_ms * pow2(n))) by (nonlinear_arith)
        requires
            pow2(n + 1) == 2 * pow2(n),
    ;
    assert(base_ms * pow2(n) >= 0) by (nonlinear_arith)
        requires
            pow2(n) > 0,
    ;
}

/// A pause with jitter, as `noise` falls.
pub fn jitter(base: u64, noise: u64) -> (r: u64)
    ensures
        r == jittered(base, noise),
{
    let span: u64 = if base / 4 >= 1 {
        base / 4
    } else {
        1
    };
    let moved: u128 = base as u128 + (noise % (2 * span)) as u128;
    if moved < span as u128 {
        0
    } else if moved - span as u128 > u64::MAX as u128 {
        u64::MAX
    } else {
        (moved - span as u128) as u64
    }
}

/// Noise for jitter: the nanoseconds past the last whole second, by a reading of the clock.
pub fn clock_noise() -> (r: u64)
    ensures
        r < 1_000_000_000,
        exists|t: SystemTime| r == #[trigger] unix_nanos(t) % 1_000_000_000,
{
    unix_time().subsec_nanos() as u64
}

// ── Laws ────────────────────────────────────────────────────────────────────

/// Jitter moves a pause by a quarter of it at most, or by a millisecond where a quarter
/// is less.
pub proof fn law_jitter_stays_near(base: u64, noise: u64)
    ensures
        base - jitter_span(base) <= jittered(base, noise) <= base + jitter_span(base),
        base >= 4 ==> 3 * base <= 4 * jittered(base, noise) <= 5 * base,
{
    let span = jitter_span(base);
    assert(0 <= noise % ((2 * span) as u64) && noise % ((2 * span) as u64) < 2 * span);
}

/// Each pause is twice as long as the one before, until the numbers end.
pub proof fn law_backoff_doubles(base_ms: u64, attempt: u32)
    requires
        attempt < u32::MAX,
    ensures
        backoff_base(base_ms, 0) == base_ms,
        backoff_base(base_ms, (attempt + 1) as u32) == capped(
            2 * backoff_base(base_ms, attempt) as int,
        ),
{
    lemma_pow2_at_zero();
    lemma_backoff_doubles(base_ms, attempt);
}

/// The response to the last attempt is never retried, so that no more attempts are made
/// than the policy allows.
pub proof fn law_attempts_are_bounded(policy: RetryPolicy, attempt: u32, status: u16)
    ensures
        attempt + 1 >= policy.max_attempts ==> !is_retried(policy, attempt, status),
        is_retried(policy, attempt, status) ==> attempt + 1 < policy.max_attempts,
{
}

/// A response is retried exactly if its status is one of those that the policy names and an
/// attempt is left.
pub proof fn law_named_statuses_are_retried(policy: RetryPolicy, attempt: u32, status: u16)
    ensures
        is_retried(policy, attempt, status) <==> attempt + 1 < policy.max_attempts && exists|i: int|
            0 <= i < policy.statuses@.len() && #[trigger] policy.statuses@[i] == status,
{
}

/// An attempt is made exactly as long as fewer were made than the policy allows, under its own
/// number; after that the request fails in the name of its upstream.
pub proof fn law_attempts_are_numbered(
    policy: RetryPolicy,
    pool: Seq<char>,
    attempt: u32,
    action: SendAction,
)
    requires
        begins(policy, pool, attempt as int, action),
    ensures
        action is Attempt <==> attempt < policy.max_attempts,
        action matches SendAction::Attempt { attempt: n } ==> n == attempt,
        attempt >= policy.max_attempts ==> (action matches SendAction::Fail(
            CoreError::NoHealthyEndpoints(name),
        ) && name@ == pool),
{
}

/// A pause is twice the one before, or the largest number where that is too large.
pub proof fn law_backoff_stops_at_the_largest(base_ms: u64, attempt: u32)
    requires
        attempt < u32::MAX,
    ensures
        2 * backoff_base(base_ms, attempt) <= u64::MAX ==> backoff_base(
            base_ms,
            (attempt + 1) as u32,
        ) == 2 * backoff_base(base_ms, attempt),
        2 * backoff_base(base_ms, attempt) > u64::MAX ==> backoff_base(base_ms, (attempt + 1) as u32)
            == u64::MAX,
{
    lemma_backoff_doubles(base_ms, attempt);
}

/// Jitter spreads pauses evenly over the quarter below and the quarter above: as the noise
/// goes up by one the pause does, from a quarter below on, and it starts over after half the
/// pause. A pause under four milliseconds is kept or made one shorter.
pub proof fn law_jitter_follows_the_noise(base: u64, noise: u64)
    requires
        base <= u64::MAX / 2,
    ensures
        base >= 4 ==> jittered(base, noise) == base - base / 4 + noise as int % (2 * (base / 4)),
        1 <= base < 4 ==> jittered(base, noise) == base - 1 + noise as int % 2,
        base == 0 ==> jittered(base, noise) == 0,
{
    let span = jitter_span(base);
    assert(0 <= noise % ((2 * span) as u64) && noise % ((2 * span) as u64) < 2 * span);
}

/// A request that is given up fails in the name of the endpoint that it was sent to, with what
/// went wrong there.
pub proof fn law_failures_name_their_endpoint(
    action: SendAction,
    address: Seq<char>,
    message: Seq<char>,
)
    requires
        gives_up(action, address, message),
    ensures
        action matches SendAction::Fail(error) && error.text() == "upstream error at "@ + address
            + ": "@ + message,
{
}

} // verus!
