//! The task handle and its shared completion cell.
//!
//! A spawned computation and the caller that awaits it communicate through a
//! `TaskState`: the computation writes its result there once, and the caller
//! polls it, leaving a continuation behind whenever the result has not
//! arrived yet. The continuation type is a parameter: the library only moves
//! continuations around and hands back the one that must be invoked, so the
//! surrounding runtime may use any handle it likes.

use vstd::prelude::*;

verus! {

/// Marker for values that a task may yield. Every type qualifies; the bound
/// exists so signatures name what they carry.
pub trait Taskable {

}

impl<T> Taskable for T {

}

/// The error a task operation reports when the runtime around the library
/// finds the state cell's lock unusable. The library itself never produces
/// it: its functions are total on the states they accept.
#[derive(Clone, Copy, Debug, PartialEq, Eq, Structural)]
pub struct TaskError;

impl TaskError {
    /// A human-readable rendering of the error.
    pub fn message(&self) -> (m: &'static str)
        ensures
            m@ == "Task internal mutex poisoned"@,
    {
        "Task internal mutex poisoned"
    }
}

/// The shared cell behind a task handle: an optional completed result and an
/// optional pending continuation ("waker").
///
/// Invariant of use, stated by [`completed_state`]: once `resolved` is set it
/// is never overwritten; a second completion attempt is a silent no-op.
pub struct TaskState<T: Taskable, W> {
    /// The completed result, if the computation has finished.
    pub resolved: Option<T>,
    /// The continuation registered by the most recent pending poll.
    pub waker: Option<W>,
}

/// The state after a completion attempt with `val`: a first completion stores
/// the value and clears the continuation; a later one changes nothing.
pub open spec fn completed_state<T: Taskable, W>(s: TaskState<T, W>, val: T) -> TaskState<T, W> {
    if s.resolved is Some {
        s
    } else {
        TaskState { resolved: Some(val), waker: None }
    }
}

/// The continuation a completion attempt must invoke: the registered one on a
/// first completion, none on a repeated completion.
pub open spec fn completion_waker<T: Taskable, W>(s: TaskState<T, W>) -> Option<W> {
    if s.resolved is Some {
        None
    } else {
        s.waker
    }
}

/// The state after a poll with continuation `c`: a ready result is consumed
/// (leaving the registered continuation untouched); otherwise `c` replaces
/// any previously registered continuation.
pub open spec fn polled_state<T: Taskable, W>(s: TaskState<T, W>, c: W) -> TaskState<T, W> {
    if s.resolved is Some {
        TaskState { resolved: None, waker: s.waker }
    } else {
        TaskState { resolved: None, waker: Some(c) }
    }
}

/// What a poll reports: the stored result if one is present, pending
/// otherwise.
pub open spec fn poll_outcome<T: Taskable, W>(s: TaskState<T, W>) -> Option<T> {
    s.resolved
}

impl<T: Taskable, W> TaskState<T, W> {
    /// A fresh cell: no result, no continuation.
    pub fn new() -> (s: Self)
        ensures
            s.resolved is None,
            s.waker is None,
    {
        TaskState { resolved: None, waker: None }
    }

    /// Completion, invoked once by the wrapped computation upon finishing.
    /// If a result is already stored this is a no-op; otherwise the value is
    /// stored and the registered continuation, if any, is handed back to be
    /// invoked exactly once.
    pub fn set(&mut self, val: T) -> (to_wake: Option<W>)
        ensures
            *final(self) == completed_state(*old(self), val),
            to_wake == completion_waker(*old(self)),
    {
        if self.resolved.is_some() {
            return None;
        }
        self.resolved = Some(val);
        self.waker.take()
    }

    /// A poll: consumes and returns the result if one is present; otherwise
    /// registers `continuation` (replacing and discarding any previous one)
    /// and reports pending with `None`.
    pub fn poll(&mut self, continuation: W) -> (r: Option<T>)
        ensures
            *final(self) == polled_state(*old(self), continuation),
            r == poll_outcome(*old(self)),
    {
        match self.resolved.take() {
            Some(val) => Some(val),
            None => {
                self.waker = Some(continuation);
                None
            },
        }
    }
}

/// The caller-visible promise of a result: a numeric identity and the state
/// cell the spawned computation completes into.
///
/// In a running scheduler the cell is shared (reference-counted, behind a
/// lock) and handles may be cloned; because a ready result is consumed
/// destructively, clones race for it and only the first poll after completion
/// obtains the value. Here the handle owns its cell — the sharing, like every
/// other effect, lives with the runtime around the library.
pub struct Task<T: Taskable, W> {
    /// The identity assigned at spawn time, strictly increasing and never
    /// reused within one scheduler.
    pub id: usize,
    /// The completion cell shared with the spawned computation.
    pub state: TaskState<T, W>,
}

impl<T: Taskable, W> Task<T, W> {
    /// Wraps a state cell under the given identity.
    pub fn new(id: usize, state: TaskState<T, W>) -> (t: Self)
        ensures
            t.id == id,
            t.state == state,
    {
        Task { id, state }
    }

    /// Polls the underlying state: ready results are consumed destructively,
    /// so only the first poll after completion obtains the value.
    pub fn poll(&mut self, continuation: W) -> (r: Option<T>)
        ensures
            final(self).id == old(self).id,
            final(self).state == polled_state(old(self).state, continuation),
            r == poll_outcome(old(self).state),
    {
        self.state.poll(continuation)
    }
}

/// Completion is a one-shot event: after a first completion stored `v1`, a
/// second attempt with any `v2` changes nothing and wakes nobody, and a poll
/// still observes `v1`.
pub proof fn lemma_completion_idempotent<T: Taskable, W>(s: TaskState<T, W>, v1: T, v2: T)
    ensures
        completed_state(completed_state(s, v1), v2) == completed_state(s, v1),
        completion_waker(completed_state(s, v1)) is None,
        s.resolved is None ==> poll_outcome(completed_state(completed_state(s, v1), v2)) == Some(
            v1,
        ),
{
}

/// No missed wakeup: when an unresolved state is polled (registering `c`) and
/// then completed with `v`, the completion hands back exactly `c` to invoke,
/// the next poll observes the result, and a further poll observes pending
/// again — ready is delivered exactly once.
pub proof fn lemma_no_missed_wakeup<T: Taskable, W>(s: TaskState<T, W>, c: W, c2: W, v: T)
    requires
        s.resolved is None,
    ensures
        poll_outcome(s) is None,
        completion_waker(polled_state(s, c)) == Some(c),
        poll_outcome(completed_state(polled_state(s, c), v)) == Some(v),
        poll_outcome(polled_state(completed_state(polled_state(s, c), v), c2)) is None,
{
}

} // verus!
