//! Time: lengths of time, and the two clocks that the gateway reads.

use std::time::{Duration, Instant, SystemTime, SystemTimeError};

use vstd::prelude::*;

verus! {

/// The length of a duration in nanoseconds: what `Duration::as_nanos` returns.
pub uninterp spec fn duration_nanos(d: Duration) -> nat;

/// The length of a duration in whole seconds.
pub open spec fn duration_secs(d: Duration) -> nat {
    duration_nanos(d) / 1_000_000_000
}

/// The length of a duration in whole milliseconds.
pub open spec fn duration_millis(d: Duration) -> nat {
    duration_nanos(d) / 1_000_000
}

/// `Duration::from_secs` makes a duration of that many whole seconds.
pub assume_specification[ Duration::from_secs ](secs: u64) -> (d: Duration)
    ensures
        duration_nanos(d) == secs * 1_000_000_000,
;

/// `Duration::from_millis` makes a duration of that many whole milliseconds.
pub assume_specification[ Duration::from_millis ](millis: u64) -> (d: Duration)
    ensures
        duration_nanos(d) == millis * 1_000_000,
;

/// `Duration::as_nanos` returns the total number of nanoseconds.
pub assume_specification[ Duration::as_nanos ](d: &Duration) -> (n: u128)
    ensures
        n == duration_nanos(*d),
;

/// `Duration::as_secs` returns the whole seconds; the fraction is dropped.
pub assume_specification[ Duration::as_secs ](d: &Duration) -> (n: u64)
    ensures
        n == duration_secs(*d),
;

/// `Duration::as_millis` returns the whole milliseconds; the fraction is dropped.
pub assume_specification[ Duration::as_millis ](d: &Duration) -> (n: u128)
    ensures
        n == duration_millis(*d),
;

/// `Duration::subsec_nanos` returns the nanoseconds past the last whole second.
pub assume_specification[ Duration::subsec_nanos ](d: &Duration) -> (n: u32)
    ensures
        n == duration_nanos(*d) % 1_000_000_000,
;

#[verifier::external_type_specification]
#[verifier::external_body]
pub struct ExSystemTime(SystemTime);

#[verifier::external_type_specification]
#[verifier::external_body]
pub struct ExSystemTimeError(SystemTimeError);

/// `SystemTime::now` reads the clock of the machine, which can say anything.
pub assume_specification[ SystemTime::now ]() -> SystemTime
;

/// The time from the start of 1970 to a time: what `SystemTime::duration_since` returns.
pub uninterp spec fn time_since_epoch(t: SystemTime) -> Result<Duration, SystemTimeError>;

/// `SystemTime::duration_since` from the start of 1970 depends on the time alone. It fails
/// for a time before that.
#[verifier::external_body]
fn since_epoch(t: &SystemTime) -> (r: Result<Duration, SystemTimeError>)
    ensures
        r == time_since_epoch(*t),
{
    t.duration_since(SystemTime::UNIX_EPOCH)
}

/// The nanoseconds from the start of 1970 to a time; zero for a time before that.
pub open spec fn unix_nanos(t: SystemTime) -> nat {
    match time_since_epoch(t) {
        Ok(d) => duration_nanos(d),
        Err(_) => 0,
    }
}

/// The time since the start of 1970, by a reading of the clock of the machine; zero for a
/// clock that is set before that.
pub fn unix_time() -> (d: Duration)
    ensures
        exists|t: SystemTime| duration_nanos(d) == #[trigger] unix_nanos(t),
{
    let t = SystemTime::now();
    let since = since_epoch(&t);
    let d = match since {
        Ok(d) => d,
        Err(_) => Duration::from_secs(0),
    };
    proof {
        assert(duration_nanos(d) == unix_nanos(t));
    }
    d
}

/// A number as 64 bits; numbers past their end stay at it.
pub open spec fn at_most_u64(n: nat) -> u64 {
    if n > u64::MAX {
        u64::MAX
    } else {
        n as u64
    }
}

/// `millis` as 64 bits; times past their end stay at it.
pub fn millis_u64(d: &Duration) -> (n: u64)
    ensures
        n == at_most_u64(duration_millis(*d)),
{
    let millis: u128 = d.as_millis();
    if millis > u64::MAX as u128 {
        u64::MAX
    } else {
        millis as u64
    }
}

/// The seconds from the start of 1970 to a time; zero for a time before that.
pub open spec fn unix_secs(t: SystemTime) -> u64 {
    (unix_nanos(t) / 1_000_000_000) as u64
}

/// The milliseconds from the start of 1970 to a time; zero for a time before that, and the
/// largest number for one past the end of 64 bits.
pub open spec fn unix_millis(t: SystemTime) -> u64 {
    at_most_u64(unix_nanos(t) / 1_000_000)
}

/// The milliseconds since the start of 1970, by a reading of the clock of the machine; times
/// past the end of 64 bits stay at it.
pub fn now_ms() -> (n: u64)
    ensures
        exists|t: SystemTime| n == #[trigger] unix_millis(t),
{
    let d = unix_time();
    proof {
        let t = choose|t: SystemTime| duration_nanos(d) == #[trigger] unix_nanos(t);
        assert(at_most_u64(duration_millis(d)) == unix_millis(t));
    }
    millis_u64(&d)
}

/// The seconds since the start of 1970, by a reading of the clock of the machine.
pub fn now_secs() -> (n: u64)
    ensures
        exists|t: SystemTime|
            n == #[trigger] unix_secs(t) && n == unix_nanos(t) / 1_000_000_000,
{
    let d = unix_time();
    let n: u64 = d.as_secs();
    proof {
        let t = choose|t: SystemTime| duration_nanos(d) == #[trigger] unix_nanos(t);
        assert(n == unix_secs(t));
    }
    n
}

#[verifier::external_type_specification]
#[verifier::external_body]
pub struct ExInstant(Instant);

/// `Instant::now` reads the clock that does not jump, which can say anything.
pub assume_specification[ Instant::now ]() -> Instant
;

/// The time from one instant to another: what `Instant::duration_since` returns.
pub uninterp spec fn time_between(earlier: Instant, later: Instant) -> Duration;

/// `Instant::duration_since` returns the time from another instant to this one, zero where the
/// other is later. It depends on the two alone.
pub assume_specification[ Instant::duration_since ](t: &Instant, earlier: Instant) -> (d: Duration)
    ensures
        d == time_between(earlier, *t),
;

/// The time since `start`, by a reading of the clock that does not jump.
pub fn time_since(start: &Instant) -> (d: Duration)
    ensures
        exists|now: Instant| d == #[trigger] time_between(*start, now),
{
    let now = Instant::now();
    now.duration_since(*start)
}

/// The nanoseconds from one instant to another; times past the end of 64 bits stay at it.
pub open spec fn nanos_between(earlier: Instant, later: Instant) -> u64 {
    at_most_u64(duration_nanos(time_between(earlier, later)))
}

/// The nanoseconds since `start`, by a reading of the clock that does not jump; times past
/// the end of 64 bits stay at it.
pub fn nanos_since(start: &Instant) -> (n: u64)
    ensures
        exists|now: Instant| n == #[trigger] nanos_between(*start, now),
{
    let d = time_since(start);
    let nanos: u128 = d.as_nanos();
    proof {
        let now = choose|now: Instant| d == #[trigger] time_between(*start, now);
        assert(at_most_u64(nanos as nat) == nanos_between(*start, now));
    }
    if nanos > u64::MAX as u128 {
        u64::MAX
    } else {
        nanos as u64
    }
}

// ── Laws ────────────────────────────────────────────────────────────────────

/// A time is told in whole seconds and in whole milliseconds since the start of 1970, both
/// rounded down, as long as the numbers fit 64 bits; a time before that counts as its start.
pub proof fn law_times_are_rounded_down(t: SystemTime)
    ensures
        time_since_epoch(t) is Err ==> unix_millis(t) == 0 && unix_secs(t) == 0,
        time_since_epoch(t) matches Ok(d) ==> {
            &&& duration_nanos(d) < 1_000_000_000 * 0x1_0000_0000_0000_0000 ==> 1_000_000_000
                * unix_secs(t) <= duration_nanos(d) < 1_000_000_000 * unix_secs(t) + 1_000_000_000
            &&& duration_nanos(d) < 1_000_000 * 0x1_0000_0000_0000_0000 ==> 1_000_000 * unix_millis(
                t,
            ) <= duration_nanos(d) < 1_000_000 * unix_millis(t) + 1_000_000
        },
{
}

/// A length of time is told in whole seconds and in whole milliseconds, both rounded down.
pub proof fn law_lengths_are_rounded_down(d: Duration)
    ensures
        1_000_000_000 * duration_secs(d) <= duration_nanos(d) < 1_000_000_000 * duration_secs(d)
            + 1_000_000_000,
        1_000_000 * duration_millis(d) <= duration_nanos(d) < 1_000_000 * duration_millis(d)
            + 1_000_000,
{
}

/// The clocks that the gateway keeps count the nanoseconds from their start as they are, as
/// long as the number fits 64 bits.
pub proof fn law_nanoseconds_are_counted(earlier: Instant, later: Instant)
    ensures
        duration_nanos(time_between(earlier, later)) <= u64::MAX ==> nanos_between(earlier, later)
            == duration_nanos(time_between(earlier, later)),
        duration_nanos(time_between(earlier, later)) > u64::MAX ==> nanos_between(earlier, later)
            == u64::MAX,
{
}

} // verus!
