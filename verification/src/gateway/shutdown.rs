//! Shutting down without cutting requests off.

use vstd::prelude::*;

use crate::clock::duration_nanos;

verus! {

/// The longest time that requests in flight are waited for, in seconds.
pub const DRAIN_TIMEOUT_SECS: u64 = 30;

/// The time between two looks at the requests in flight, in milliseconds.
pub const DRAIN_POLL_MS: u64 = 50;

/// Shutdown in two phases: first nothing new is accepted, then what is in flight is waited
/// for.
#[derive(Debug, Clone, Copy, PartialEq, Eq, Structural)]
pub struct ShutdownCoordinator {
    pub requested: bool,
    pub in_flight: usize,
}

/// What to do while shutting down.
#[derive(Debug, Clone, Copy, PartialEq, Eq, Structural)]
pub enum DrainStep {
    /// Everything is done.
    Drained,
    /// The time is over, and so many are still in flight.
    GaveUp { remaining: usize },
    /// Look again after so many milliseconds.
    Wait { millis: u64 },
}

/// What to do when so many are in flight, `elapsed` nanoseconds after the request to shut
/// down.
pub open spec fn drain_step(in_flight: usize, elapsed: nat) -> DrainStep {
    if in_flight == 0 {
        DrainStep::Drained
    } else if elapsed >= DRAIN_TIMEOUT_SECS * 1_000_000_000 {
        DrainStep::GaveUp { remaining: in_flight }
    } else {
        DrainStep::Wait { millis: DRAIN_POLL_MS }
    }
}

/// What can happen to a coordinator.
pub enum ShutdownEvent {
    Acquired,
    Released,
    Requested,
}

/// A coordinator after an event.
pub open spec fn after_event(c: ShutdownCoordinator, event: ShutdownEvent) -> ShutdownCoordinator {
    match event {
        ShutdownEvent::Acquired => ShutdownCoordinator {
            in_flight: vstd::wrapping::usize_specs::wrapping_add(c.in_flight, 1),
            ..c
        },
        ShutdownEvent::Released => ShutdownCoordinator {
            in_flight: vstd::wrapping::usize_specs::wrapping_sub(c.in_flight, 1),
            ..c
        },
        ShutdownEvent::Requested => ShutdownCoordinator { requested: true, ..c },
    }
}

impl ShutdownCoordinator {
    pub fn new() -> (r: Self)
        ensures
            r == (ShutdownCoordinator { requested: false, in_flight: 0 }),
    {
        ShutdownCoordinator { requested: false, in_flight: 0 }
    }

    /// Whether shutdown was requested.
    pub fn is_set(&self) -> (r: bool)
        ensures
            r == self.requested,
    {
        self.requested
    }

    /// Count one more in flight.
    pub fn acquire(&mut self)
        ensures
            *final(self) == after_event(*old(self), ShutdownEvent::Acquired),
    {
        self.in_flight = self.in_flight.wrapping_add(1);
    }

    /// Count one less in flight.
    pub fn release(&mut self)
        ensures
            *final(self) == after_event(*old(self), ShutdownEvent::Released),
    {
        self.in_flight = self.in_flight.wrapping_sub(1);
    }

    /// Request shutdown.
    pub fn shutdown(&mut self)
        ensures
            *final(self) == after_event(*old(self), ShutdownEvent::Requested),
    {
        self.requested = true;
    }

    /// What to do, so long after the request to shut down.
    pub fn drain(&self, elapsed: std::time::Duration) -> (r: DrainStep)
        ensures
            r == drain_step(self.in_flight, duration_nanos(elapsed)),
    {
        if self.in_flight == 0 {
            DrainStep::Drained
        } else if elapsed.as_nanos() >= DRAIN_TIMEOUT_SECS as u128 * 1_000_000_000 {
            DrainStep::GaveUp { remaining: self.in_flight }
        } else {
            DrainStep::Wait { millis: DRAIN_POLL_MS }
        }
    }
}

impl Default for ShutdownCoordinator {
    fn default() -> (r: Self)
        ensures
            r == (ShutdownCoordinator { requested: false, in_flight: 0 }),
    {
        ShutdownCoordinator::new()
    }
}

// ── Laws ────────────────────────────────────────────────────────────────────

/// A coordinator after events, one after the other.
pub open spec fn after_events(c: ShutdownCoordinator, events: Seq<ShutdownEvent>) -> ShutdownCoordinator
    decreases events.len(),
{
    if events.len() == 0 {
        c
    } else {
        after_event(after_events(c, events.drop_last()), events.last())
    }
}

/// How many more were counted in than out.
pub open spec fn balance(events: Seq<ShutdownEvent>) -> int
    decreases events.len(),
{
    if events.len() == 0 {
        0
    } else {
        balance(events.drop_last()) + match events.last() {
            ShutdownEvent::Acquired => 1int,
            ShutdownEvent::Released => -1,
            ShutdownEvent::Requested => 0,
        }
    }
}

/// Shutdown is requested exactly if it was so at the start or was requested since; it is never
/// taken back.
pub proof fn law_requests_stand(c: ShutdownCoordinator, events: Seq<ShutdownEvent>)
    ensures
        after_events(c, events).requested <==> c.requested || exists|i: int|
            0 <= i < events.len() && #[trigger] events[i] is Requested,
    decreases events.len(),
{
    if events.len() > 0 {
        let rest = events.drop_last();
        law_requests_stand(c, rest);
        assert(events[events.len() - 1] == events.last());
        assert forall|i: int| 0 <= i < rest.len() implies rest[i] == events[i] by {}
        if exists|i: int| 0 <= i < rest.len() && #[trigger] rest[i] is Requested {
            let i = choose|i: int| 0 <= i < rest.len() && #[trigger] rest[i] is Requested;
            assert(events[i] is Requested);
        }
        if exists|i: int| 0 <= i < events.len() && #[trigger] events[i] is Requested {
            let i = choose|i: int| 0 <= i < events.len() && #[trigger] events[i] is Requested;
            if i < rest.len() {
                assert(rest[i] is Requested);
            }
        }
    }
}

/// What is in flight is what was counted in and not yet out, as long as no more are counted out
/// than in and the number fits.
pub proof fn law_in_flight_is_what_is_held(events: Seq<ShutdownEvent>)
    requires
        forall|n: int|
            0 <= n <= events.len() ==> 0 <= #[trigger] balance(events.take(n)) <= usize::MAX,
    ensures
        after_events(ShutdownCoordinator { requested: false, in_flight: 0 }, events).in_flight
            == balance(events),
    decreases events.len(),
{
    assert(events.take(events.len() as int) == events);
    if events.len() > 0 {
        let rest = events.drop_last();
        assert forall|n: int| 0 <= n <= rest.len() implies 0 <= #[trigger] balance(rest.take(n))
            <= usize::MAX by {
            assert(rest.take(n) == events.take(n));
        }
        law_in_flight_is_what_is_held(rest);
        assert(rest.take(rest.len() as int) == rest);
        assert(0 <= balance(rest.take(rest.len() as int)));
        assert(0 <= balance(events.take(events.len() as int)) <= usize::MAX);
    }
}

/// What was counted in and counted out again leaves no trace.
pub proof fn law_counting_out_undoes_counting_in(in_flight: usize)
    ensures
        vstd::wrapping::usize_specs::wrapping_sub(
            vstd::wrapping::usize_specs::wrapping_add(in_flight, 1),
            1,
        ) == in_flight,
{
}

/// A look at the requests in flight while shutting down: how many there are, and how many
/// nanoseconds after the request to shut down.
pub struct Look {
    pub in_flight: usize,
    pub elapsed: nat,
}

/// How many of some looks are taken: the first after which there is nothing to wait for is the
/// last.
pub open spec fn looks_taken(looks: Seq<Look>) -> nat
    decreases looks.len(),
{
    if looks.len() == 0 {
        0
    } else if drain_step(looks[0].in_flight, looks[0].elapsed) is Wait {
        1 + looks_taken(looks.skip(1))
    } else {
        1
    }
}

/// Whether a look ends the waiting: nothing is in flight, or the time is over.
pub open spec fn ends_waiting(look: Look) -> bool {
    look.in_flight == 0 || look.elapsed >= DRAIN_TIMEOUT_SECS * 1_000_000_000
}

/// What to do at each look: wait for what is in flight until the time is over, and end either
/// way.
pub proof fn law_drain_waits_and_ends(in_flight: usize, elapsed: nat)
    ensures
        drain_step(in_flight, elapsed) == DrainStep::Drained <==> in_flight == 0,
        in_flight > 0 && elapsed < DRAIN_TIMEOUT_SECS * 1_000_000_000 ==> drain_step(
            in_flight,
            elapsed,
        ) is Wait,
        elapsed >= DRAIN_TIMEOUT_SECS * 1_000_000_000 ==> !(drain_step(in_flight, elapsed) is Wait),
{
}

proof fn lemma_looks_taken(looks: Seq<Look>)
    ensures
        looks_taken(looks) <= looks.len(),
        forall|i: int| 0 <= i < looks_taken(looks) - 1 ==> !ends_waiting(#[trigger] looks[i]),
        (exists|i: int| 0 <= i < looks.len() && ends_waiting(#[trigger] looks[i])) ==> looks_taken(
            looks,
        ) > 0 && ends_waiting(looks[looks_taken(looks) - 1]),
    decreases looks.len(),
{
    if looks.len() > 0 && drain_step(looks[0].in_flight, looks[0].elapsed) is Wait {
        let rest = looks.skip(1);
        lemma_looks_taken(rest);
        assert forall|i: int| 0 <= i < looks_taken(looks) - 1 implies !ends_waiting(
            #[trigger] looks[i],
        ) by {
            if i > 0 {
                assert(rest[i - 1] == looks[i]);
            }
        }
        if exists|i: int| 0 <= i < looks.len() && ends_waiting(#[trigger] looks[i]) {
            let i = choose|i: int| 0 <= i < looks.len() && ends_waiting(#[trigger] looks[i]);
            assert(rest[i - 1] == looks[i]);
            let n = looks_taken(rest);
            assert(rest[n - 1] == looks[n as int]);
        }
    }
}

/// Draining ends at the first look that finds nothing in flight or comes when the time is
/// over, and at no look before that; so it never ends while something is in flight, unless the
/// time is over, and it ends at once where nothing is.
pub proof fn law_drain_runs_until_done(looks: Seq<Look>, last: int)
    requires
        0 <= last < looks.len(),
        ends_waiting(looks[last]),
        forall|i: int| 0 <= i < last ==> !ends_waiting(#[trigger] looks[i]),
    ensures
        looks_taken(looks) == last + 1,
        drain_step(looks[last].in_flight, looks[last].elapsed) == if looks[last].in_flight == 0 {
            DrainStep::Drained
        } else {
            DrainStep::GaveUp { remaining: looks[last].in_flight }
        },
        forall|i: int|
            0 <= i < last ==> (#[trigger] looks[i]).in_flight > 0 && drain_step(
                looks[i].in_flight,
                looks[i].elapsed,
            ) == (DrainStep::Wait { millis: DRAIN_POLL_MS }),
{
    lemma_looks_taken(looks);
    let n = looks_taken(looks);
    if n - 1 < last {
        assert(!ends_waiting(looks[n - 1]));
    }
    if n - 1 > last {
        assert(!ends_waiting(looks[last]));
    }
}

/// Where each look comes at least so much later as the step before it says, draining ends after
/// no more looks than fit into the time, whatever stays in flight.
pub proof fn law_drain_ends_in_time(looks: Seq<Look>)
    requires
        forall|i: int|
            0 <= i < looks.len() ==> (#[trigger] looks[i]).elapsed >= i * DRAIN_POLL_MS
                * 1_000_000,
        looks.len() * DRAIN_POLL_MS > DRAIN_TIMEOUT_SECS * 1000,
    ensures
        looks_taken(looks) * DRAIN_POLL_MS <= DRAIN_TIMEOUT_SECS * 1000 + DRAIN_POLL_MS,
        ends_waiting(looks[looks_taken(looks) - 1]),
{
    lemma_looks_taken(looks);
    let last = DRAIN_TIMEOUT_SECS as int * 1000 / (DRAIN_POLL_MS as int);
    assert(looks[last].elapsed >= last * DRAIN_POLL_MS * 1_000_000);
    assert(ends_waiting(looks[last]));
    let n = looks_taken(looks);
    if n - 1 > last {
        assert(!ends_waiting(looks[last]));
    }
}

/// What is in flight is looked at every twentieth of a second, for half a minute.
pub proof fn law_drain_takes_half_a_minute(in_flight: usize, elapsed: nat)
    requires
        in_flight > 0,
    ensures
        elapsed < 30_000_000_000 ==> drain_step(in_flight, elapsed) == (DrainStep::Wait {
            millis: 50,
        }),
        elapsed >= 30_000_000_000 ==> drain_step(in_flight, elapsed) == (DrainStep::GaveUp {
            remaining: in_flight,
        }),
{
}

} // verus!
