//! The cooperative timer: a self-rescheduling suspend point usable inside any
//! task, participating in the same polling contract as every other
//! computation.
//!
//! Instants are nanosecond counts on the runtime's monotone clock; the
//! runtime reads the clock and parks threads, the library decides what each
//! poll does with the instant it is handed.

use vstd::prelude::*;

verus! {

/// The spacing of the timer's busy-park polls, in nanoseconds: roughly half a
/// millisecond.
pub const TIMER_RESOLUTION_NANOS: u64 = 499_999;

/// What one timer poll decides.
#[derive(Clone, Copy, Debug, PartialEq, Eq, Structural)]
pub enum TimerPoll {
    /// The deadline has been reached: the timer resolves now.
    Ready,
    /// Not yet: the polling thread parks until the given instant, then
    /// invokes its own continuation once and reports pending, so the
    /// scheduler re-steps this same timer shortly afterward rather than
    /// depending on an external wake source.
    ParkUntil(u64),
}

/// The error a failing timer would surface to its caller. No decision in this
/// module produces one; the type exists for the runtime around the library.
#[derive(Clone, Debug)]
pub struct TimerError(pub String);

/// A timer: a target deadline instant, set once at construction from a
/// duration offset from "now".
pub struct Timer {
    /// The instant the timer is due.
    pub target: u64,
}

/// What a poll at instant `now` decides: ready exactly when the deadline has
/// been reached, otherwise one bounded park followed by a self-wake.
pub open spec fn timer_poll_outcome(t: Timer, now: u64) -> TimerPoll {
    if now >= t.target {
        TimerPoll::Ready
    } else {
        TimerPoll::ParkUntil((now + TIMER_RESOLUTION_NANOS) as u64)
    }
}

impl Timer {
    /// A timer due `dur_nanos` after `now`, its construction instant.
    pub fn new(now: u64, dur_nanos: u64) -> (t: Timer)
        requires
            now + dur_nanos <= u64::MAX,
        ensures
            t.target == now + dur_nanos,
    {
        Timer { target: now + dur_nanos }
    }

    /// One poll at instant `now`. Reports ready exactly when the current time
    /// has reached the deadline; otherwise tells the caller to park for one
    /// resolution quantum and then invoke its continuation once before
    /// reporting pending.
    pub fn poll(&self, now: u64) -> (r: TimerPoll)
        requires
            now + TIMER_RESOLUTION_NANOS <= u64::MAX,
        ensures
            r == timer_poll_outcome(*self, now),
            r is Ready <==> now >= self.target,
    {
        if now >= self.target {
            TimerPoll::Ready
        } else {
            TimerPoll::ParkUntil(now + TIMER_RESOLUTION_NANOS)
        }
    }
}

/// A timer constructed with zero duration resolves ready on its very first
/// poll: its deadline is its construction instant, and on a monotone clock no
/// poll happens earlier.
pub proof fn lemma_zero_duration_first_poll(t: Timer, constructed_at: u64, polled_at: u64)
    requires
        t.target == constructed_at,
        constructed_at <= polled_at,
    ensures
        timer_poll_outcome(t, polled_at) is Ready,
{
}

/// Timers elapse concurrently, not in sequence: readiness depends only on the
/// instant polled and each timer's own deadline, so two timers of equal
/// duration started together are both ready as soon as that one duration has
/// passed — waiting for both costs the maximum of the durations, not their
/// sum.
pub proof fn lemma_concurrent_timers_elapse_together(
    a: Timer,
    b: Timer,
    start: u64,
    dur: u64,
    now: u64,
)
    requires
        a.target == start + dur,
        b.target == start + dur,
        now >= start + dur,
    ensures
        timer_poll_outcome(a, now) is Ready,
        timer_poll_outcome(b, now) is Ready,
{
}

} // verus!
