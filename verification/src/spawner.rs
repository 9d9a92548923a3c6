//! A single-queue submission front: the simplest way to hand tasks to one
//! worker, without identity allocation or balancing.

use vstd::prelude::*;

use crate::executor::{InnerTask, RunQueue};

verus! {

/// A submitter bound to one run queue.
pub struct Spawner {
    /// The queue submissions go onto.
    pub sender: RunQueue,
}

impl Spawner {
    /// A spawner over the given queue.
    pub fn new(sender: RunQueue) -> (s: Spawner)
        ensures
            s.sender == sender,
    {
        Spawner { sender }
    }

    /// Submits one task, reporting whether the queue accepted it. A queue
    /// whose receiver is gone drops the submission; the caller surfaces that
    /// as a failed spawn rather than blocking.
    pub fn spawn(&mut self, t: InnerTask) -> (accepted: bool)
        ensures
            accepted == old(self).sender.connected,
            final(self).sender.connected == old(self).sender.connected,
            accepted ==> final(self).sender.entries@ == old(self).sender.entries@.push(Some(t)),
            !accepted ==> final(self).sender.entries@ == old(self).sender.entries@,
    {
        if self.sender.connected {
            self.sender.entries.push(Some(t));
            true
        } else {
            false
        }
    }
}

} // verus!
