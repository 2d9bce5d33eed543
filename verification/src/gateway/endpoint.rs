//! The health of upstream endpoints.

use std::time::SystemTime;

use vstd::prelude::*;

use crate::clock::{now_ms, unix_millis};
use crate::config::schema::{HealthCheckConfig, LoadBalancingConfig};

verus! {

/// The least time between two changes of health, in milliseconds. It keeps an endpoint
/// that wavers from changing back and forth.
pub const FLAP_COOLDOWN_MS: u64 = 10_000;

/// How an endpoint fares.
///
/// A healthy endpoint takes its full share of the traffic, a degraded one half of it,
/// an unhealthy one none.
#[derive(Debug, Clone, Copy, PartialEq, Eq, Structural)]
pub enum Health {
    Unhealthy,
    Healthy,
    Degraded,
}

impl Health {
    /// The state with number `v`; numbers that no state has stand for `Unhealthy`.
    pub fn from_u8(v: u8) -> (r: Self)
        ensures
            r == if v == 1 {
                Health::Healthy
            } else if v == 2 {
                Health::Degraded
            } else {
                Health::Unhealthy
            },
    {
        match v {
            1 => Health::Healthy,
            2 => Health::Degraded,
            _ => Health::Unhealthy,
        }
    }

    /// The value that the health gauge shows, in thousandths.
    pub fn as_gauge_milli(self) -> (r: u32)
        ensures
            r == match self {
                Health::Healthy => 1000u32,
                Health::Degraded => 500,
                Health::Unhealthy => 0,
            },
    {
        match self {
            Health::Healthy => 1000,
            Health::Degraded => 500,
            Health::Unhealthy => 0,
        }
    }
}

/// What is known of an endpoint while the gateway runs.
#[derive(Debug)]
pub struct EndpointState {
    pub address: String,
    pub weight: u32,
    pub health: Health,
    /// Failed health checks in a row.
    pub consecutive_failures: u32,
    /// Successful health checks in a row.
    pub consecutive_successes: u32,
    /// When the health last changed, in milliseconds since the start of 1970.
    pub last_state_change_ms: u64,
    /// Requests in flight.
    pub active_conns: u64,
    /// Moving average of the latency, in milliseconds; 0 before the first request.
    pub ewma_latency: u64,
}

/// The count after `n`; it starts over at the end of its range.
pub open spec fn next_count(n: u32) -> u32 {
    if n == u32::MAX {
        0
    } else {
        (n + 1) as u32
    }
}

/// Whether the health changed so shortly before `now` that it must not change again.
pub open spec fn in_cooldown(last_change: u64, now: u64) -> bool {
    now - last_change < FLAP_COOLDOWN_MS
}

/// `e` with another health since `now`, if it is another.
pub open spec fn with_health(e: EndpointState, health: Health, now: u64) -> EndpointState {
    if health == e.health {
        e
    } else {
        EndpointState { health, last_state_change_ms: now, ..e }
    }
}

/// An endpoint after one more failed health check at time `now`.
pub open spec fn after_failure(e: EndpointState, cfg: HealthCheckConfig, now: u64) -> EndpointState {
    let counted = EndpointState {
        consecutive_failures: next_count(e.consecutive_failures),
        consecutive_successes: 0,
        ..e
    };
    let health = if in_cooldown(e.last_state_change_ms, now) {
        e.health
    } else if counted.consecutive_failures >= cfg.unhealthy_threshold {
        Health::Unhealthy
    } else if e.health == Health::Healthy {
        Health::Degraded
    } else {
        e.health
    };
    with_health(counted, health, now)
}

/// An endpoint after one more successful health check at time `now`.
pub open spec fn after_success(e: EndpointState, cfg: HealthCheckConfig, now: u64) -> EndpointState {
    let counted = EndpointState {
        consecutive_successes: next_count(e.consecutive_successes),
        consecutive_failures: 0,
        ..e
    };
    let health = if in_cooldown(e.last_state_change_ms, now) {
        e.health
    } else if e.health == Health::Unhealthy && counted.consecutive_successes >= 1 {
        Health::Degraded
    } else if counted.consecutive_successes >= cfg.healthy_threshold && e.health != Health::Healthy {
        Health::Healthy
    } else {
        e.health
    };
    with_health(counted, health, now)
}

/// The decay factor of the latency average where the algorithm has none, in thousandths.
pub const PLAIN_ALPHA_MILLI: u32 = 200;

/// The decay factor of the latency average by which requests are balanced, in thousandths: no
/// more than the whole.
pub open spec fn smoothing(algorithm: LoadBalancingConfig) -> u32 {
    match algorithm {
        LoadBalancingConfig::LeastConnections { ewma_alpha_milli } => if ewma_alpha_milli < 1000 {
            ewma_alpha_milli
        } else {
            1000
        },
        _ => PLAIN_ALPHA_MILLI,
    }
}

/// The decay factor of the latency average by which requests are balanced, in thousandths.
pub fn smoothing_milli(algorithm: &LoadBalancingConfig) -> (r: u32)
    ensures
        r == smoothing(*algorithm),
        r <= 1000,
{
    match algorithm {
        LoadBalancingConfig::LeastConnections { ewma_alpha_milli } => if *ewma_alpha_milli < 1000 {
            *ewma_alpha_milli
        } else {
            1000
        },
        _ => PLAIN_ALPHA_MILLI,
    }
}

/// The moving average after one more sample: so many thousandths of the sample as `alpha`
/// says, and the rest of the average before, rounded down. The first sample is taken as it is.
pub open spec fn next_ewma(average: u64, sample: u64, alpha: u32) -> u64 {
    if average == 0 {
        sample
    } else {
        ((alpha * sample + (1000 - alpha) * average) / 1000) as u64
    }
}

impl EndpointState {
    /// A healthy endpoint that nothing has happened to.
    pub fn new(address: String, weight: u32) -> (r: Self)
        ensures
            r == (EndpointState {
                address,
                weight,
                health: Health::Healthy,
                consecutive_failures: 0,
                consecutive_successes: 0,
                last_state_change_ms: 0,
                active_conns: 0,
                ewma_latency: 0,
            }),
    {
        EndpointState {
            address,
            weight,
            health: Health::Healthy,
            consecutive_failures: 0,
            consecutive_successes: 0,
            last_state_change_ms: 0,
            active_conns: 0,
            ewma_latency: 0,
        }
    }

    pub fn health_state(&self) -> (r: Health)
        ensures
            r == self.health,
    {
        self.health
    }

    /// Whether the endpoint takes traffic at all.
    pub open spec fn available(&self) -> bool {
        self.health != Health::Unhealthy
    }

    /// Whether the endpoint takes traffic at all.
    pub fn is_available(&self) -> (r: bool)
        ensures
            r == self.available(),
    {
        self.health != Health::Unhealthy
    }

    fn transition_to(&mut self, health: Health, now: u64)
        ensures
            *final(self) == with_health(*old(self), health, now),
    {
        if health != self.health {
            self.health = health;
            self.last_state_change_ms = now;
        }
    }

    /// Take note of a failed health check at time `now`, and return the health after it.
    pub fn mark_failure_at(&mut self, cfg: &HealthCheckConfig, now: u64) -> (r: Health)
        ensures
            *final(self) == after_failure(*old(self), *cfg, now),
            r == final(self).health,
    {
        let failures: u32 = self.consecutive_failures.wrapping_add(1);
        self.consecutive_failures = failures;
        self.consecutive_successes = 0;
        if now.saturating_sub(self.last_state_change_ms) < FLAP_COOLDOWN_MS {
            return self.health;
        }
        let health = if failures >= cfg.unhealthy_threshold {
            Health::Unhealthy
        } else if self.health == Health::Healthy {
            Health::Degraded
        } else {
            self.health
        };
        self.transition_to(health, now);
        health
    }

    /// Take note of a successful health check at time `now`, and return the health after it.
    pub fn mark_success_at(&mut self, cfg: &HealthCheckConfig, now: u64) -> (r: Health)
        ensures
            *final(self) == after_success(*old(self), *cfg, now),
            r == final(self).health,
    {
        let successes: u32 = self.consecutive_successes.wrapping_add(1);
        self.consecutive_successes = successes;
        self.consecutive_failures = 0;
        if now.saturating_sub(self.last_state_change_ms) < FLAP_COOLDOWN_MS {
            return self.health;
        }
        let health = if self.health == Health::Unhealthy && successes >= 1 {
            Health::Degraded
        } else if successes >= cfg.healthy_threshold && self.health != Health::Healthy {
            Health::Healthy
        } else {
            self.health
        };
        self.transition_to(health, now);
        health
    }

    /// Take note of a failed health check now.
    pub fn mark_failure(&mut self, cfg: &HealthCheckConfig) -> (r: Health)
        ensures
            exists|t: SystemTime|
                *final(self) == after_failure(*old(self), *cfg, #[trigger] unix_millis(t)),
            r == final(self).health,
    {
        let now: u64 = now_ms();
        self.mark_failure_at(cfg, now)
    }

    /// Take note of a successful health check now.
    pub fn mark_success(&mut self, cfg: &HealthCheckConfig) -> (r: Health)
        ensures
            exists|t: SystemTime|
                *final(self) == after_success(*old(self), *cfg, #[trigger] unix_millis(t)),
            r == final(self).health,
    {
        let now: u64 = now_ms();
        self.mark_success_at(cfg, now)
    }

    /// Take note that a request goes to this endpoint.
    pub fn begin_request(&mut self)
        ensures
            *final(self) == (EndpointState {
                active_conns: vstd::wrapping::u64_specs::wrapping_add(old(self).active_conns, 1),
                ..*old(self)
            }),
    {
        self.active_conns = self.active_conns.wrapping_add(1);
    }

    /// Take note that a request came back after `elapsed_ms`. The latency is averaged with the
    /// decay factor `alpha`, in thousandths.
    pub fn end_request(&mut self, elapsed_ms: u64, alpha: u32)
        requires
            alpha <= 1000,
        ensures
            *final(self) == (EndpointState {
                active_conns: vstd::wrapping::u64_specs::wrapping_sub(old(self).active_conns, 1),
                ewma_latency: next_ewma(old(self).ewma_latency, elapsed_ms, alpha),
                ..*old(self)
            }),
    {
        self.active_conns = self.active_conns.wrapping_sub(1);
        self.ewma_latency = update_ewma(self.ewma_latency, elapsed_ms, alpha);
    }
}

/// The moving average after one more sample, with the decay factor `alpha` in thousandths.
pub fn update_ewma(stored: u64, new_sample_ms: u64, alpha: u32) -> (r: u64)
    requires
        alpha <= 1000,
    ensures
        r == next_ewma(stored, new_sample_ms, alpha),
{
    if stored == 0 {
        new_sample_ms
    } else {
        proof {
            lemma_weighted(stored as int, new_sample_ms as int, alpha as int);
        }
        let sample: u128 = alpha as u128 * new_sample_ms as u128;
        let rest: u128 = (1000 - alpha) as u128 * stored as u128;
        ((sample + rest) / 1000) as u64
    }
}

proof fn lemma_weighted(average: int, sample: int, alpha: int)
    by (nonlinear_arith)
    requires
        0 <= alpha <= 1000,
        0 <= average,
        0 <= sample,
    ensures
        0 <= alpha * sample <= 1000 * sample,
        0 <= (1000 - alpha) * average <= 1000 * average,
        average <= sample ==> 1000 * average <= alpha * sample + (1000 - alpha) * average <= 1000
            * sample,
        sample <= average ==> 1000 * sample <= alpha * sample + (1000 - alpha) * average <= 1000
            * average,
{
    assert(alpha * sample + (1000 - alpha) * sample == 1000 * sample);
    assert(alpha * average + (1000 - alpha) * average == 1000 * average);
    assert(average <= sample ==> alpha * average <= alpha * sample);
    assert(sample <= average ==> alpha * sample <= alpha * average);
    assert(average <= sample ==> (1000 - alpha) * average <= (1000 - alpha) * sample);
    assert(sample <= average ==> (1000 - alpha) * sample <= (1000 - alpha) * average);
}

// ── Laws ────────────────────────────────────────────────────────────────────

/// An endpoint leaves `Unhealthy` for `Degraded` only: no single check makes it healthy.
pub proof fn law_recovery_is_gradual(e: EndpointState, cfg: HealthCheckConfig, now: u64)
    requires
        e.health == Health::Unhealthy,
        e.consecutive_successes < u32::MAX || cfg.healthy_threshold > 0,
    ensures
        after_success(e, cfg, now).health != Health::Healthy,
        after_failure(e, cfg, now).health == Health::Unhealthy,
{
}

/// A failure never makes the health better, and a success never makes it worse.
pub proof fn law_checks_push_one_way(e: EndpointState, cfg: HealthCheckConfig, now: u64)
    ensures
        e.health != Health::Healthy ==> after_failure(e, cfg, now).health != Health::Healthy,
        e.health == Health::Unhealthy ==> after_failure(e, cfg, now).health == Health::Unhealthy,
        e.health == Health::Healthy ==> after_success(e, cfg, now).health == Health::Healthy,
        e.health != Health::Unhealthy ==> after_success(e, cfg, now).health != Health::Unhealthy,
{
}

/// Between two changes of health at least the cooldown passes, and each change is dated.
pub proof fn law_changes_keep_their_distance(e: EndpointState, cfg: HealthCheckConfig, now: u64)
    ensures
        ({
            let failed = after_failure(e, cfg, now);
            let passed = after_success(e, cfg, now);
            &&& failed.health != e.health ==> failed.last_state_change_ms == now && now
                >= e.last_state_change_ms + FLAP_COOLDOWN_MS
            &&& failed.health == e.health ==> failed.last_state_change_ms == e.last_state_change_ms
            &&& passed.health != e.health ==> passed.last_state_change_ms == now && now
                >= e.last_state_change_ms + FLAP_COOLDOWN_MS
            &&& passed.health == e.health ==> passed.last_state_change_ms == e.last_state_change_ms
        }),
{
}

/// The first failure past the cooldown takes a healthy endpoint down to `Degraded` or
/// below, and as many failures in a row as the threshold asks for take it out.
pub proof fn law_failures_take_endpoints_out(e: EndpointState, cfg: HealthCheckConfig, now: u64)
    requires
        !in_cooldown(e.last_state_change_ms, now),
    ensures
        after_failure(e, cfg, now).health != Health::Healthy,
        next_count(e.consecutive_failures) >= cfg.unhealthy_threshold ==> after_failure(
            e,
            cfg,
            now,
        ).health == Health::Unhealthy,
{
}

/// An endpoint becomes healthy again only with as many successes in a row as the threshold
/// asks for, the present one counted, and past the cooldown a degraded endpoint does so
/// exactly then; until then it stays degraded.
pub proof fn law_recovery_takes_its_successes(e: EndpointState, cfg: HealthCheckConfig, now: u64)
    ensures
        e.health != Health::Healthy && after_success(e, cfg, now).health == Health::Healthy
            ==> next_count(e.consecutive_successes) >= cfg.healthy_threshold,
        e.health == Health::Degraded && now >= e.last_state_change_ms + FLAP_COOLDOWN_MS ==> (
        after_success(e, cfg, now).health == Health::Healthy <==> next_count(
            e.consecutive_successes,
        ) >= cfg.healthy_threshold),
        e.health == Health::Degraded && next_count(e.consecutive_successes) < cfg.healthy_threshold
            ==> after_success(e, cfg, now).health == Health::Degraded,
        e.health == Health::Unhealthy && now >= e.last_state_change_ms + FLAP_COOLDOWN_MS
            && e.consecutive_successes < u32::MAX ==> after_success(e, cfg, now).health
            == Health::Degraded,
{
}

/// Past the cooldown an endpoint that takes traffic is taken out exactly by as many failures
/// in a row as the threshold asks for, the present one counted; with fewer it is degraded.
pub proof fn law_failures_degrade_first(e: EndpointState, cfg: HealthCheckConfig, now: u64)
    requires
        e.health != Health::Unhealthy,
        now >= e.last_state_change_ms + FLAP_COOLDOWN_MS,
    ensures
        after_failure(e, cfg, now).health == Health::Unhealthy <==> next_count(
            e.consecutive_failures,
        ) >= cfg.unhealthy_threshold,
        next_count(e.consecutive_failures) < cfg.unhealthy_threshold ==> after_failure(
            e,
            cfg,
            now,
        ).health == Health::Degraded,
{
}

/// Within the cooldown no check changes the health; the checks are counted all the same.
pub proof fn law_nothing_changes_in_the_cooldown(e: EndpointState, cfg: HealthCheckConfig, now: u64)
    requires
        now < e.last_state_change_ms + FLAP_COOLDOWN_MS,
    ensures
        after_success(e, cfg, now).health == e.health,
        after_failure(e, cfg, now).health == e.health,
{
}

/// Ten seconds lie between two changes of health.
pub proof fn law_cooldown_is_ten_seconds(last_change: u64, now: u64)
    ensures
        in_cooldown(last_change, now) <==> now < last_change + 10_000,
{
}

/// A success adds one to the successes in a row and ends the failures in a row, and a failure
/// the other way round; a check leaves the address, the weight and the load alone.
pub proof fn law_checks_are_counted(e: EndpointState, cfg: HealthCheckConfig, now: u64)
    ensures
        ({
            let failed = after_failure(e, cfg, now);
            let passed = after_success(e, cfg, now);
            &&& passed.consecutive_failures == 0
            &&& failed.consecutive_successes == 0
            &&& e.consecutive_successes < u32::MAX ==> passed.consecutive_successes
                == e.consecutive_successes + 1
            &&& e.consecutive_failures < u32::MAX ==> failed.consecutive_failures
                == e.consecutive_failures + 1
            &&& e.consecutive_successes == u32::MAX ==> passed.consecutive_successes == 0
            &&& e.consecutive_failures == u32::MAX ==> failed.consecutive_failures == 0
            &&& passed.address == e.address && failed.address == e.address
            &&& passed.weight == e.weight && failed.weight == e.weight
            &&& passed.active_conns == e.active_conns && failed.active_conns == e.active_conns
            &&& passed.ewma_latency == e.ewma_latency && failed.ewma_latency == e.ewma_latency
        }),
{
}

/// The first sample is the average; after that the average moves towards a sample by so many
/// thousandths of their distance as the decay factor says, rounded down to a whole number.
pub proof fn law_ewma_moves_by_its_factor(average: u64, sample: u64, alpha: u32)
    requires
        alpha <= 1000,
    ensures
        next_ewma(0, sample, alpha) == sample,
        average > 0 ==> {
            let moved = 1000 * average + alpha * (sample - average);
            1000 * next_ewma(average, sample, alpha) <= moved < 1000 * next_ewma(
                average,
                sample,
                alpha,
            ) + 1000
        },
{
    lemma_weighted(average as int, sample as int, alpha as int);
    assert(alpha * sample + (1000 - alpha) * average == 1000 * average + alpha * (sample - average))
        by (nonlinear_arith);
}

/// Least connections averages with its own decay factor, or with the whole sample if that
/// factor is above one; every other algorithm averages with one fifth.
pub proof fn law_smoothing_is_configured(algorithm: LoadBalancingConfig)
    ensures
        algorithm matches LoadBalancingConfig::LeastConnections { ewma_alpha_milli } ==> smoothing(
            algorithm,
        ) == if ewma_alpha_milli <= 1000 {
            ewma_alpha_milli
        } else {
            1000
        },
        !(algorithm is LeastConnections) ==> 5 * smoothing(algorithm) == 1000,
{
}

/// The moving average lies between the average before and the sample.
pub proof fn law_ewma_stays_between(average: u64, sample: u64, alpha: u32)
    requires
        average > 0,
        alpha <= 1000,
    ensures
        average <= sample ==> average <= next_ewma(average, sample, alpha) <= sample,
        sample <= average ==> sample <= next_ewma(average, sample, alpha) <= average,
{
    lemma_weighted(average as int, sample as int, alpha as int);
}

} // verus!
