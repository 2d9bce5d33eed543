//! Token buckets.

use vstd::prelude::*;

use crate::config::schema::TokenBucketConfig;

verus! {

/// A billionth of a token is the unit in which buckets count: at a rate of so many tokens
/// per second, so many units come in per nanosecond.
pub const TOKEN: u64 = 1_000_000_000;

/// The bucket of one caller on one route.
///
/// Tokens come in at a steady rate, up to the capacity. Each request takes one; a request
/// that finds less than one is denied. The bucket is filled up when it is looked at.
#[derive(Debug, Clone, Copy, PartialEq, Eq, Structural)]
pub struct Bucket {
    /// What is in the bucket, in billionths of a token.
    pub tokens: u128,
    /// The most tokens that it holds.
    pub capacity: u64,
    /// Tokens that come in per second.
    pub refill_rate: u64,
    /// When it was last filled up, in nanoseconds.
    pub last_refill: u64,
}

/// The smaller of two numbers.
pub open spec fn smaller(a: int, b: int) -> int {
    if a < b {
        a
    } else {
        b
    }
}

/// The nanoseconds from `from` to `to`; none if `to` comes first.
pub open spec fn passed(from: u64, to: u64) -> int {
    if to > from {
        to - from
    } else {
        0
    }
}

/// A bucket that starts at `now`. It starts full.
pub open spec fn fresh_bucket(cfg: TokenBucketConfig, now: u64) -> Bucket {
    Bucket {
        tokens: (cfg.capacity * TOKEN) as u128,
        capacity: cfg.capacity,
        refill_rate: cfg.refill_rate,
        last_refill: now,
    }
}

impl Bucket {
    /// The bucket holds no more than its capacity.
    pub open spec fn wf(self) -> bool {
        self.tokens <= self.capacity * TOKEN
    }

    /// What is in the bucket at `now`.
    pub open spec fn level(self, now: u64) -> int {
        smaller(
            self.tokens + passed(self.last_refill, now) * self.refill_rate,
            self.capacity * TOKEN,
        )
    }

    /// Whether a request at `now` is allowed.
    pub open spec fn allows(self, now: u64) -> bool {
        self.level(now) >= TOKEN
    }

    /// The bucket after a request at `now`.
    pub open spec fn after(self, now: u64) -> Bucket {
        Bucket {
            tokens: (if self.allows(now) {
                self.level(now) - TOKEN
            } else {
                self.level(now)
            }) as u128,
            last_refill: now,
            ..self
        }
    }

    pub fn new(cfg: &TokenBucketConfig, now: u64) -> (r: Self)
        ensures
            r == fresh_bucket(*cfg, now),
            r.wf(),
    {
        Bucket {
            tokens: cfg.capacity as u128 * TOKEN as u128,
            capacity: cfg.capacity,
            refill_rate: cfg.refill_rate,
            last_refill: now,
        }
    }

    fn refilled(&self, now: u64) -> (r: u128)
        requires
            self.wf(),
        ensures
            r == self.level(now),
            r <= self.capacity * TOKEN,
    {
        let elapsed: u64 = now.saturating_sub(self.last_refill);
        proof {
            assert(elapsed * self.refill_rate <= 0xffff_ffff_ffff_ffff * 0xffff_ffff_ffff_ffff)
                by (nonlinear_arith)
                requires
                    elapsed <= 0xffff_ffff_ffff_ffff,
                    self.refill_rate <= 0xffff_ffff_ffff_ffff,
            ;
            assert(elapsed * self.refill_rate >= 0) by (nonlinear_arith)
                requires
                    elapsed >= 0,
                    self.refill_rate >= 0,
            ;
        }
        let inflow: u128 = elapsed as u128 * self.refill_rate as u128;
        let full: u128 = self.capacity as u128 * TOKEN as u128;
        let room: u128 = full - self.tokens;
        if inflow < room {
            self.tokens + inflow
        } else {
            full
        }
    }

    /// Take a token at `now`, if there is one. Returns whether there was.
    pub fn consume(&mut self, now: u64) -> (r: bool)
        requires
            old(self).wf(),
        ensures
            r == old(self).allows(now),
            *final(self) == old(self).after(now),
            final(self).wf(),
    {
        let level: u128 = self.refilled(now);
        self.last_refill = now;
        if level >= TOKEN as u128 {
            self.tokens = level - TOKEN as u128;
            true
        } else {
            self.tokens = level;
            false
        }
    }

    /// The whole tokens in the bucket at `now`.
    pub fn available(&self, now: u64) -> (r: u64)
        requires
            self.wf(),
        ensures
            r == self.level(now) / (TOKEN as int),
            r <= self.capacity,
    {
        let level: u128 = self.refilled(now);
        proof {
            assert(level / 1_000_000_000 <= self.capacity) by (nonlinear_arith)
                requires
                    level <= self.capacity * 1_000_000_000,
            ;
        }
        (level / TOKEN as u128) as u64
    }
}

// ── Laws ────────────────────────────────────────────────────────────────────

/// How many of the requests at `times` a bucket allows.
pub open spec fn allowed_count(b: Bucket, times: Seq<u64>) -> nat
    decreases times.len(),
{
    if times.len() == 0 {
        0
    } else {
        (if b.allows(times[0]) {
            1nat
        } else {
            0
        }) + allowed_count(b.after(times[0]), times.skip(1))
    }
}

/// No time comes before `from` or before an earlier one.
pub open spec fn in_order(from: u64, times: Seq<u64>) -> bool
    decreases times.len(),
{
    times.len() > 0 ==> from <= times[0] && in_order(times[0], times.skip(1))
}

/// Over any stretch of time a bucket allows no more requests than it held tokens at the
/// start and tokens came in.
pub proof fn law_rate_is_bounded(b: Bucket, times: Seq<u64>, end: u64)
    requires
        b.wf(),
        in_order(b.last_refill, times),
        times.len() > 0 ==> times.last() <= end,
        b.last_refill <= end,
    ensures
        allowed_count(b, times) * TOKEN <= b.tokens + (end - b.last_refill) * b.refill_rate,
    decreases times.len(),
{
    if times.len() == 0 {
        assert((end - b.last_refill) * b.refill_rate >= 0) by (nonlinear_arith)
            requires
                end >= b.last_refill,
        ;
    } else {
        let t = times[0];
        let next = b.after(t);
        lemma_after_wf(b, t);
        if times.len() > 1 {
            assert(times.skip(1).last() == times.last());
            lemma_in_order_last(t, times.skip(1));
        }
        law_rate_is_bounded(next, times.skip(1), end);
        assert((t - b.last_refill) * b.refill_rate + (end - t) * b.refill_rate == (end
            - b.last_refill) * b.refill_rate) by (nonlinear_arith);
        let rest = allowed_count(next, times.skip(1));
        if b.allows(t) {
            assert((1 + rest) * TOKEN == TOKEN + rest * TOKEN) by (nonlinear_arith);
        }
    }
}

proof fn lemma_in_order_last(from: u64, times: Seq<u64>)
    requires
        in_order(from, times),
        times.len() > 0,
    ensures
        from <= times.last(),
    decreases times.len(),
{
    if times.len() > 1 {
        lemma_in_order_last(times[0], times.skip(1));
        assert(times.skip(1).last() == times.last());
    }
}

proof fn lemma_after_wf(b: Bucket, now: u64)
    requires
        b.wf(),
    ensures
        b.after(now).wf(),
        b.after(now).tokens == if b.allows(now) {
            b.level(now) - TOKEN
        } else {
            b.level(now)
        },
        b.level(now) <= b.tokens + passed(b.last_refill, now) * b.refill_rate,
        b.level(now) >= 0,
{
    assert(passed(b.last_refill, now) * b.refill_rate >= 0) by (nonlinear_arith)
        requires
            passed(b.last_refill, now) >= 0,
    ;
    assert(b.capacity * TOKEN <= u128::MAX);
}

/// A bucket that starts full allows as many requests at once as it holds tokens, and no
/// more.
pub proof fn law_burst_is_the_capacity(cfg: TokenBucketConfig, now: u64, n: nat)
    ensures
        n <= cfg.capacity ==> after_burst(fresh_bucket(cfg, now), now, n).tokens == (cfg.capacity
            - n) * TOKEN,
        n < cfg.capacity ==> after_burst(fresh_bucket(cfg, now), now, n).allows(now),
        n == cfg.capacity ==> !after_burst(fresh_bucket(cfg, now), now, n).allows(now),
{
    lemma_burst(cfg, now, n);
    let b = after_burst(fresh_bucket(cfg, now), now, n);
    if n <= cfg.capacity {
        assert(passed(b.last_refill, now) * b.refill_rate == 0) by (nonlinear_arith)
            requires
                passed(b.last_refill, now) == 0,
        ;
        assert((cfg.capacity - n) * TOKEN <= cfg.capacity * TOKEN) by (nonlinear_arith)
            requires
                n >= 0,
        ;
        if n < cfg.capacity {
            assert((cfg.capacity - n) * TOKEN >= TOKEN) by (nonlinear_arith)
                requires
                    cfg.capacity - n >= 1,
            ;
        }
    }
}

/// A bucket after `n` requests at `now`.
pub open spec fn after_burst(b: Bucket, now: u64, n: nat) -> Bucket
    decreases n,
{
    if n == 0 {
        b
    } else {
        after_burst(b, now, (n - 1) as nat).after(now)
    }
}

proof fn lemma_burst(cfg: TokenBucketConfig, now: u64, n: nat)
    ensures
        n <= cfg.capacity ==> {
            let b = after_burst(fresh_bucket(cfg, now), now, n);
            &&& b.tokens == (cfg.capacity - n) * TOKEN
            &&& b.last_refill == now
            &&& b.capacity == cfg.capacity
            &&& b.refill_rate == cfg.refill_rate
        },
    decreases n,
{
    if n > 0 && n <= cfg.capacity {
        lemma_burst(cfg, now, (n - 1) as nat);
        let b = after_burst(fresh_bucket(cfg, now), now, (n - 1) as nat);
        assert(passed(b.last_refill, now) * b.refill_rate == 0) by (nonlinear_arith)
            requires
                passed(b.last_refill, now) == 0,
        ;
        assert((cfg.capacity - (n - 1)) * TOKEN == (cfg.capacity - n) * TOKEN + TOKEN)
            by (nonlinear_arith);
        assert((cfg.capacity - n) * TOKEN >= 0) by (nonlinear_arith)
            requires
                cfg.capacity >= n,
        ;
        assert((cfg.capacity - (n - 1)) * TOKEN <= cfg.capacity * TOKEN) by (nonlinear_arith)
            requires
                n >= 1,
        ;
    }
}

/// A bucket is full again once as much time has passed as its capacity takes to come in.
pub proof fn law_bucket_fills_up(b: Bucket, now: u64)
    requires
        b.wf(),
        passed(b.last_refill, now) * b.refill_rate >= b.capacity * TOKEN,
    ensures
        b.level(now) == b.capacity * TOKEN,
{
}

/// A request is allowed exactly if a whole token is there: what was in the bucket and what came
/// in since at the rate of the bucket make at least one, and the bucket can hold one. A clock
/// that goes back brings nothing in.
pub proof fn law_a_request_takes_a_whole_token(b: Bucket, now: u64)
    requires
        b.wf(),
    ensures
        now >= b.last_refill ==> (b.allows(now) <==> b.capacity >= 1 && b.tokens + (now
            - b.last_refill) * b.refill_rate >= 1_000_000_000),
        now < b.last_refill ==> (b.allows(now) <==> b.tokens >= 1_000_000_000),
{
    assert(b.capacity >= 1 ==> b.capacity * TOKEN >= TOKEN) by (nonlinear_arith);
    assert(passed(b.last_refill, now) * b.refill_rate >= 0) by (nonlinear_arith)
        requires
            passed(b.last_refill, now) >= 0,
    ;
    if now < b.last_refill {
        assert(passed(b.last_refill, now) * b.refill_rate == 0) by (nonlinear_arith)
            requires
                passed(b.last_refill, now) == 0,
        ;
    }
}

/// A request that is allowed takes one token of what is there, one that is not takes none;
/// the bucket is then filled up to its time, and its size and rate stay.
pub proof fn law_requests_take_one_token(b: Bucket, now: u64)
    requires
        b.wf(),
    ensures
        b.allows(now) ==> b.after(now).tokens == b.level(now) - 1_000_000_000,
        !b.allows(now) ==> b.after(now).tokens == b.level(now),
        b.after(now).last_refill == now,
        b.after(now).capacity == b.capacity,
        b.after(now).refill_rate == b.refill_rate,
        now >= b.last_refill ==> b.level(now) == if b.tokens + (now - b.last_refill) * b.refill_rate
            <= b.capacity * 1_000_000_000 {
            b.tokens + (now - b.last_refill) * b.refill_rate
        } else {
            b.capacity * 1_000_000_000
        },
        now < b.last_refill ==> b.level(now) == b.tokens,
{
    lemma_after_wf(b, now);
    if now <= b.last_refill {
        assert(passed(b.last_refill, now) * b.refill_rate == 0) by (nonlinear_arith)
            requires
                passed(b.last_refill, now) == 0,
        ;
    }
}

/// A request that was refused costs nothing: at any later time the bucket holds what it would
/// hold if the request had not been made.
pub proof fn law_refused_requests_cost_nothing(b: Bucket, refused: u64, later: u64)
    requires
        b.wf(),
        b.last_refill <= refused <= later,
        !b.allows(refused),
    ensures
        b.after(refused).level(later) == b.level(later),
        b.after(refused).allows(later) == b.allows(later),
{
    lemma_after_wf(b, refused);
    assert((refused - b.last_refill) * b.refill_rate + (later - refused) * b.refill_rate == (later
        - b.last_refill) * b.refill_rate) by (nonlinear_arith);
    assert((later - refused) * b.refill_rate >= 0) by (nonlinear_arith)
        requires
            later >= refused,
    ;
}

/// A bucket that starts is full, has the size and the rate that it is given, and starts at the
/// time that it is given.
pub proof fn law_buckets_start_full(cfg: TokenBucketConfig, now: u64)
    ensures
        fresh_bucket(cfg, now).tokens == cfg.capacity * 1_000_000_000,
        fresh_bucket(cfg, now).capacity == cfg.capacity,
        fresh_bucket(cfg, now).refill_rate == cfg.refill_rate,
        fresh_bucket(cfg, now).last_refill == now,
{
}

} // verus!
