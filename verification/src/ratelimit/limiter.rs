//! The rate limiter.

use std::time::Instant;

use http::HeaderMap;
use vstd::prelude::*;

use crate::auth::context::AuthContext;
use crate::cache::key::pair_texts;
use crate::clock::{nanos_between, nanos_since};
use crate::config::schema::{
    GatewayConfig, RateLimitMiddlewareRef, RateLimitPolicy, TokenBucketConfig,
};
use crate::http_types::header_contents;
use crate::names::{has_name, lemma_position, lookup, position};
use crate::ratelimit::bucket::{law_requests_take_one_token, passed, Bucket};
use crate::ratelimit::error::RateLimitError;
use crate::ratelimit::key::{derive_key, limit_key, subject_of};
use crate::ratelimit::l1_local::{bucket_for, no_buckets, remaining_for, L1LocalLimiter};
use crate::ratelimit::l2_shared::{script_for, shared_script, L2Outcome, SharedScript};
use crate::text::{decimal, decimal_text, same};

verus! {

// ── Outcome ─────────────────────────────────────────────────────────────────

/// What rate limiting says of a request.
#[derive(Debug, Clone, Copy, PartialEq, Eq, Structural)]
pub struct RateLimitOutcome {
    pub allowed: bool,
    /// What is left in the tighter of the two limits.
    pub remaining: u64,
    /// The capacity of the policy.
    pub limit: u64,
    /// When a request that was denied may be tried again, in milliseconds.
    pub retry_after_ms: u64,
    /// Which limit denied the request.
    pub denied_by: Option<DeniedBy>,
}

#[derive(Debug, Clone, Copy, PartialEq, Eq, Structural)]
pub enum DeniedBy {
    L1Local,
    L2Distributed,
}

/// What counts on a route without a limit.
pub open spec fn unlimited() -> RateLimitOutcome {
    RateLimitOutcome {
        allowed: true,
        remaining: u64::MAX,
        limit: u64::MAX,
        retry_after_ms: 0,
        denied_by: None,
    }
}

/// What counts when the bucket in this process is empty. A token is taken to be there again
/// after a second.
pub open spec fn denied_locally(limit: u64) -> RateLimitOutcome {
    RateLimitOutcome {
        allowed: false,
        remaining: 0,
        limit,
        retry_after_ms: 1000,
        denied_by: Some(DeniedBy::L1Local),
    }
}

/// What counts once the shared limit was asked.
pub open spec fn with_shared(remaining: u64, limit: u64, l2: L2Outcome) -> RateLimitOutcome {
    if l2.allowed {
        RateLimitOutcome {
            allowed: true,
            remaining: if remaining < l2.remaining {
                remaining
            } else {
                l2.remaining
            },
            limit,
            retry_after_ms: 0,
            denied_by: None,
        }
    } else {
        RateLimitOutcome {
            allowed: false,
            remaining: 0,
            limit,
            retry_after_ms: l2.retry_after_ms,
            denied_by: Some(DeniedBy::L2Distributed),
        }
    }
}

/// The headers that tell a client where it stands.
pub open spec fn limit_headers(o: RateLimitOutcome) -> Seq<(Seq<char>, Seq<char>)> {
    let always = seq![
        ("X-RateLimit-Limit"@, decimal_text(o.limit as nat)),
        ("X-RateLimit-Remaining"@, decimal_text(o.remaining as nat)),
    ];
    if o.allowed {
        always
    } else {
        always.push(("Retry-After"@, decimal_text((o.retry_after_ms / 1000) as nat)))
    }
}

impl RateLimitOutcome {
    /// The headers that tell a client where it stands.
    pub fn to_headers(&self) -> (r: Vec<(String, String)>)
        ensures
            pair_texts(r@) == limit_headers(*self),
    {
        let mut h: Vec<(String, String)> = Vec::new();
        h.push(("X-RateLimit-Limit".to_owned(), decimal(self.limit)));
        h.push(("X-RateLimit-Remaining".to_owned(), decimal(self.remaining)));
        if !self.allowed {
            h.push(("Retry-After".to_owned(), decimal(self.retry_after_ms / 1000)));
        }
        proof {
            assert(pair_texts(h@) =~= limit_headers(*self));
        }
        h
    }

    /// What counts when a request cannot be limited: it is allowed.
    pub fn failed_open() -> (r: Self)
        ensures
            r == (RateLimitOutcome {
                allowed: true,
                remaining: 0,
                limit: 0,
                retry_after_ms: 0,
                denied_by: None,
            }),
    {
        RateLimitOutcome {
            allowed: true,
            remaining: 0,
            limit: 0,
            retry_after_ms: 0,
            denied_by: None,
        }
    }
}

// ── Limiter ─────────────────────────────────────────────────────────────────

struct Policy {
    name: String,
    l1: L1LocalLimiter,
    l2: SharedScript,
}

/// A policy as it stands: its buckets, how they are made, and its shared limit.
pub struct PolicyView {
    pub buckets: Map<Seq<char>, Bucket>,
    pub bucket_config: TokenBucketConfig,
    pub script: SharedScript,
}

impl Policy {
    spec fn view(&self) -> PolicyView {
        PolicyView {
            buckets: self.l1.buckets(),
            bucket_config: self.l1.bucket_config(),
            script: self.l2,
        }
    }
}

/// What a check needs next.
pub enum LimitState {
    Finished(RateLimitOutcome),
    /// The shared limit has to be asked about `key`.
    AskShared(PendingCheck),
}

/// A check that waits for the shared limit.
pub struct PendingCheck {
    pub key: String,
    pub script: SharedScript,
    pub remaining: u64,
    pub limit: u64,
}

impl PendingCheck {
    /// Finish a check with what the shared limit says.
    pub fn finish(self, l2: L2Outcome) -> (r: RateLimitOutcome)
        ensures
            r == with_shared(self.remaining, self.limit, l2),
    {
        if l2.allowed {
            RateLimitOutcome {
                allowed: true,
                remaining: if self.remaining < l2.remaining {
                    self.remaining
                } else {
                    l2.remaining
                },
                limit: self.limit,
                retry_after_ms: 0,
                denied_by: None,
            }
        } else {
            RateLimitOutcome {
                allowed: false,
                remaining: 0,
                limit: self.limit,
                retry_after_ms: l2.retry_after_ms,
                denied_by: Some(DeniedBy::L2Distributed),
            }
        }
    }
}

/// Checks requests against the policies of a configuration.
///
/// A new configuration comes with a new limiter, whose buckets start full; the shared
/// limits go on as they were.
pub struct RateLimiter {
    policies: Vec<Policy>,
    started: Instant,
}

/// The policy after a request of `key` at `now`.
pub open spec fn counted(p: PolicyView, key: Seq<char>, now: u64) -> PolicyView {
    PolicyView {
        buckets: p.buckets.insert(key, bucket_for(p.buckets, p.bucket_config, key, now).after(now)),
        ..p
    }
}

/// Whether `state` is what a request of `key` at `now` comes to under a policy.
pub open spec fn is_limit_state(state: LimitState, p: PolicyView, key: Seq<char>, now: u64) -> bool {
    if bucket_for(p.buckets, p.bucket_config, key, now).allows(now) {
        state matches LimitState::AskShared(pending) && {
            &&& pending.key@ == key
            &&& pending.script == p.script
            &&& pending.limit == p.bucket_config.capacity
            &&& pending.remaining == remaining_for(
                counted(p, key, now).buckets,
                p.bucket_config,
                key,
                now,
            )
        }
    } else {
        state == LimitState::Finished(denied_locally(p.bucket_config.capacity))
    }
}

/// Whether this is a policy of a configuration at its start.
pub open spec fn is_fresh_policy(p: PolicyView, cfg: RateLimitPolicy) -> bool {
    &&& p.buckets == no_buckets()
    &&& p.bucket_config == cfg.local
    &&& p.script == script_for(cfg.distributed)
}

impl RateLimiter {
    /// The instant that the clock of the limiter counts from.
    pub closed spec fn started_at(&self) -> Instant {
        self.started
    }

    /// The policies in order, each with its name.
    pub closed spec fn policies(&self) -> Seq<(Seq<char>, PolicyView)> {
        self.policies@.map_values(|p: Policy| (p.name@, p.view()))
    }

    /// A limiter for the policies of a configuration.
    pub fn new(cfg: &GatewayConfig) -> (r: Self)
        ensures
            ({
                let given = cfg.rate_limiting.policies.pairs();
                &&& r.policies().len() == given.len()
                &&& forall|i: int|
                    0 <= i < given.len() ==> {
                        &&& (#[trigger] r.policies()[i]).0 == given[i].0
                        &&& is_fresh_policy(r.policies()[i].1, given[i].1)
                    }
            }),
    {
        let given = &cfg.rate_limiting.policies;
        let n: usize = given.len();
        let mut policies: Vec<Policy> = Vec::new();
        for i in 0..n
            invariant
                n == given.pairs().len(),
                policies@.len() == i,
                forall|k: int|
                    0 <= k < i ==> {
                        &&& (#[trigger] policies@[k]).name@ == given.pairs()[k].0
                        &&& is_fresh_policy(policies@[k].view(), given.pairs()[k].1)
                    },
        {
            let policy = given.value_at(i);
            policies.push(
                Policy {
                    name: given.name_at(i).to_owned(),
                    l1: L1LocalLimiter::new(policy.local),
                    l2: shared_script(&policy.distributed),
                },
            );
        }
        RateLimiter { policies, started: Instant::now() }
    }

    /// The time on the clock of the limiter: the nanoseconds since it started.
    pub fn now(&self) -> (n: u64)
        ensures
            exists|t: Instant| n == #[trigger] nanos_between(self.started_at(), t),
    {
        assert(self.started_at() == self.started);
        nanos_since(&self.started)
    }

    /// Begin to check a request at `now`: against the bucket in this process first.
    pub fn check(
        &mut self,
        middleware_ref: Option<&RateLimitMiddlewareRef>,
        route_id: &str,
        auth_ctx: Option<&AuthContext>,
        headers: &HeaderMap,
        now: u64,
    ) -> (r: Result<LimitState, RateLimitError>)
        ensures
            final(self).started_at() == old(self).started_at(),
            match middleware_ref {
                None => {
                    &&& r == Ok::<LimitState, RateLimitError>(LimitState::Finished(unlimited()))
                    &&& *final(self) == *old(self)
                },
                Some(rl) => {
                    let before = old(self).policies();
                    let p = position(before, rl.policy@);
                    let key = limit_key(route_id@, subject_of(auth_ctx), header_contents(*headers));
                    if has_name(before, rl.policy@) {
                        &&& r matches Ok(state) && is_limit_state(state, before[p].1, key, now)
                        &&& final(self).policies() == before.update(
                            p,
                            (before[p].0, counted(before[p].1, key, now)),
                        )
                    } else {
                        &&& r matches Err(RateLimitError::UnknownPolicy(name)) && name@ == rl.policy@
                        &&& *final(self) == *old(self)
                    }
                },
            },
    {
        let rl = match middleware_ref {
            Some(rl) => rl,
            None => {
                return Ok(
                    LimitState::Finished(
                        RateLimitOutcome {
                            allowed: true,
                            remaining: u64::MAX,
                            limit: u64::MAX,
                            retry_after_ms: 0,
                            denied_by: None,
                        },
                    ),
                );
            },
        };
        let n: usize = self.policies.len();
        let mut p: usize = 0;
        while p < n && !same(self.policies[p].name.as_str(), rl.policy.as_str())
            invariant
                n == self.policies@.len(),
                p <= n,
                forall|k: int| 0 <= k < p ==> (#[trigger] self.policies()[k]).0 != rl.policy@,
            decreases n - p,
        {
            p = p + 1;
        }
        proof {
            lemma_position(self.policies(), rl.policy@, p as int);
        }
        if p == n {
            return Err(RateLimitError::UnknownPolicy(rl.policy.clone()));
        }
        let key = derive_key(route_id, auth_ctx, headers);
        let ghost before = self.policies();
        let allowed = self.policies[p].l1.check_at(key.as_str(), now);
        proof {
            assert(self.policies() == before.update(
                p as int,
                (before[p as int].0, counted(before[p as int].1, key@, now)),
            ));
        }
        let remaining: u64 = self.policies[p].l1.remaining_at(key.as_str(), now);
        let limit: u64 = self.policies[p].l1.capacity();
        if !allowed {
            return Ok(
                LimitState::Finished(
                    RateLimitOutcome {
                        allowed: false,
                        remaining: 0,
                        limit,
                        retry_after_ms: 1000,
                        denied_by: Some(DeniedBy::L1Local),
                    },
                ),
            );
        }
        Ok(
            LimitState::AskShared(
                PendingCheck { key, script: self.policies[p].l2, remaining, limit },
            ),
        )
    }
}

// ── Laws ────────────────────────────────────────────────────────────────────

/// A request is allowed only if both limits allow it, and what is left is never more than
/// either of them has.
pub proof fn law_both_limits_count(remaining: u64, limit: u64, l2: L2Outcome)
    ensures
        with_shared(remaining, limit, l2).allowed == l2.allowed,
        with_shared(remaining, limit, l2).remaining <= remaining,
        with_shared(remaining, limit, l2).remaining <= l2.remaining || !l2.allowed,
        !denied_locally(limit).allowed,
{
}

/// A refusal names the limit that denied, and says when to try again; what is allowed
/// names none.
pub proof fn law_refusals_are_explained(remaining: u64, limit: u64, l2: L2Outcome)
    ensures
        ({
            let o = with_shared(remaining, limit, l2);
            &&& o.allowed <==> o.denied_by is None
            &&& limit_headers(o).len() == if o.allowed {
                2nat
            } else {
                3nat
            }
            &&& !o.allowed ==> limit_headers(o)[2] == (
                "Retry-After"@,
                decimal_text((l2.retry_after_ms / 1000) as nat),
            )
        }),
{
}

/// What the shared limit says decides: if it allows, what is left is the smaller of the two
/// counts and nothing is said of trying again; if it denies, nothing is left, and the client
/// is told to wait as long as the shared limit says.
pub proof fn law_shared_limit_decides(remaining: u64, limit: u64, l2: L2Outcome)
    ensures
        ({
            let o = with_shared(remaining, limit, l2);
            &&& o.limit == limit
            &&& l2.allowed ==> o.allowed && o.denied_by is None && o.retry_after_ms == 0 && (
            o.remaining == remaining || o.remaining == l2.remaining) && o.remaining <= remaining
                && o.remaining <= l2.remaining
            &&& !l2.allowed ==> !o.allowed && o.remaining == 0 && o.retry_after_ms
                == l2.retry_after_ms && o.denied_by == Some(DeniedBy::L2Distributed)
        }),
{
}

/// A request that the bucket in this process refuses is refused for a second, with nothing
/// left, in the name of that bucket; a route without a limit allows everything.
pub proof fn law_local_refusals(limit: u64)
    ensures
        !denied_locally(limit).allowed,
        denied_locally(limit).remaining == 0,
        denied_locally(limit).limit == limit,
        denied_locally(limit).retry_after_ms == 1000,
        denied_locally(limit).denied_by == Some(DeniedBy::L1Local),
        unlimited().allowed,
        unlimited().denied_by is None,
        unlimited().retry_after_ms == 0,
        unlimited().remaining == u64::MAX,
        unlimited().limit == u64::MAX,
{
}

/// The shared limit is asked exactly about the requests that the bucket in this process has a
/// token for, with what is left there once the token is taken; the others are refused at once.
pub proof fn law_local_bucket_comes_first(
    state: LimitState,
    p: PolicyView,
    key: Seq<char>,
    now: u64,
)
    requires
        is_limit_state(state, p, key, now),
        bucket_for(p.buckets, p.bucket_config, key, now).wf(),
    ensures
        state is AskShared <==> bucket_for(p.buckets, p.bucket_config, key, now).level(now)
            >= 1_000_000_000,
        state matches LimitState::Finished(o) ==> !o.allowed && o.remaining == 0 && o.limit
            == p.bucket_config.capacity && o.retry_after_ms == 1000 && o.denied_by == Some(
            DeniedBy::L1Local,
        ),
        state matches LimitState::AskShared(pending) ==> {
            &&& pending.key@ == key
            &&& pending.script == p.script
            &&& pending.limit == p.bucket_config.capacity
            &&& pending.remaining == bucket_for(p.buckets, p.bucket_config, key, now).level(now)
                / 1_000_000_000 - 1
        },
{
    let b = bucket_for(p.buckets, p.bucket_config, key, now);
    law_requests_take_one_token(b, now);
    if b.allows(now) {
        let next = b.after(now);
        lemma_level_now(next, now);
        assert(next.level(now) == b.level(now) - 1_000_000_000);
    }
}

proof fn lemma_level_now(b: Bucket, now: u64)
    requires
        b.last_refill == now,
        b.wf(),
    ensures
        b.level(now) == b.tokens,
{
    assert(passed(b.last_refill, now) * b.refill_rate == 0) by (nonlinear_arith)
        requires
            passed(b.last_refill, now) == 0,
    ;
}

/// A check leaves the buckets of all other callers as they are, and the policy too.
pub proof fn law_checks_touch_one_bucket(
    p: PolicyView,
    key: Seq<char>,
    other: Seq<char>,
    now: u64,
)
    requires
        other != key,
    ensures
        counted(p, key, now).buckets.contains_key(other) <==> p.buckets.contains_key(other),
        p.buckets.contains_key(other) ==> counted(p, key, now).buckets[other] == p.buckets[other],
        counted(p, key, now).bucket_config == p.bucket_config,
        counted(p, key, now).script == p.script,
{
}

/// A client is told the limit and what is left of it, and if it was refused the whole seconds
/// after which to try again.
pub proof fn law_clients_are_told(o: RateLimitOutcome)
    ensures
        limit_headers(o).len() == if o.allowed { 2nat } else { 3nat },
        limit_headers(o)[0] == ("X-RateLimit-Limit"@, decimal_text(o.limit as nat)),
        limit_headers(o)[1] == ("X-RateLimit-Remaining"@, decimal_text(o.remaining as nat)),
        !o.allowed ==> limit_headers(o)[2].0 == "Retry-After"@ && exists|secs: nat|
            limit_headers(o)[2].1 == #[trigger] decimal_text(secs) && 1000 * secs
                <= o.retry_after_ms < 1000 * secs + 1000,
{
    let secs = (o.retry_after_ms / 1000) as nat;
    assert(1000 * secs <= o.retry_after_ms < 1000 * secs + 1000);
}

/// A new policy has seen no client yet, and keeps the limits of its configuration.
pub proof fn law_policies_start_without_clients(
    p: PolicyView,
    cfg: RateLimitPolicy,
    client: Seq<char>,
)
    requires
        is_fresh_policy(p, cfg),
    ensures
        !p.buckets.contains_key(client),
        p.bucket_config == cfg.local,
        p.script == script_for(cfg.distributed),
{
}

} // verus!
