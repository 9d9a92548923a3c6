//! A timer registration record for an event-queue timer backend: what a
//! runtime hands to an OS timer facility when it registers a deadline. The
//! registration call itself belongs to the runtime; the library fixes what is
//! registered.

use vstd::prelude::*;

verus! {

/// One registered timer: its identity and its duration in nanoseconds.
#[derive(Clone, Copy, Debug, PartialEq, Eq, Structural)]
pub struct Timer {
    /// The identity under which the deadline is registered.
    pub id: usize,
    /// The registered duration, in nanoseconds.
    pub dur_nanos: u64,
}

impl Timer {
    /// Records a registration of `id` for `dur_nanos`.
    pub fn new(id: usize, dur_nanos: u64) -> (t: Timer)
        ensures
            t.id == id,
            t.dur_nanos == dur_nanos,
    {
        Timer { id, dur_nanos }
    }
}

} // verus!
