//! The scheduler: run queues, the waiting set, round-robin submission, the
//! wake/dedup protocol, shutdown broadcasting, and the worker drain rule.
//!
//! The model is explicit about the shared state the real runtime keeps behind
//! locks and channels: each run queue's in-flight messages are a sequence, and
//! the waiting set is the record of which task identities are suspended and
//! not enqueued. Every transition function says exactly which part of that
//! state it touches.

use vstd::prelude::*;
use vstd::seq_lib::lemma_seq_contains_after_push;

use crate::task::{Task, TaskState, Taskable};

verus! {

/// The shared record of which task identities are currently suspended and not
/// sitting in any run queue. Mirrors a lock-guarded hash set: membership is
/// what matters, so the view is a set of identities.
pub struct WaitingSet {
    ids: Vec<usize>,
}

impl View for WaitingSet {
    type V = Set<usize>;

    closed spec fn view(&self) -> Set<usize> {
        Set::new(|id: usize| self.ids@.contains(id))
    }
}

impl WaitingSet {
    /// Each identity is recorded at most once.
    pub closed spec fn wf(&self) -> bool {
        forall|i: int, j: int|
            0 <= i < j < self.ids@.len() ==> self.ids@[i] != self.ids@[j]
    }

    /// An empty waiting set.
    pub fn new() -> (s: Self)
        ensures
            s.wf(),
            s@ == Set::<usize>::empty(),
    {
        let s = WaitingSet { ids: Vec::new() };
        proof {
            assert(s@ =~= Set::<usize>::empty());
        }
        s
    }

    /// Whether `id` is recorded as suspended.
    pub fn contains(&self, id: usize) -> (r: bool)
        ensures
            r == self@.contains(id),
    {
        let mut i: usize = 0;
        while i < self.ids.len()
            invariant
                i <= self.ids@.len(),
                forall|j: int| 0 <= j < i ==> self.ids@[j] != id,
            decreases self.ids@.len() - i,
        {
            if self.ids[i] == id {
                proof {
                    assert(self.ids@[i as int] == id);
                    assert(self.ids@.contains(id));
                }
                return true;
            }
            i = i + 1;
        }
        proof {
            assert(!self.ids@.contains(id));
        }
        false
    }

    /// Records `id` as suspended; a no-op if it already is.
    pub fn insert(&mut self, id: usize)
        requires
            old(self).wf(),
        ensures
            final(self).wf(),
            final(self)@ == old(self)@.insert(id),
    {
        if !self.contains(id) {
            self.ids.push(id);
            proof {
                broadcast use lemma_seq_contains_after_push;

                assert forall|i: int, j: int|
                    0 <= i < j < self.ids@.len() implies self.ids@[i] != self.ids@[j] by {
                    if j < old(self).ids@.len() {
                        assert(old(self).ids@[i] != old(self).ids@[j]);
                    } else {
                        assert(self.ids@[j] == id);
                        if old(self).ids@[i] == id {
                            assert(old(self).ids@.contains(id));
                        }
                    }
                }
                assert(self@ =~= old(self)@.insert(id));
            }
        } else {
            proof {
                assert(self@ =~= old(self)@.insert(id));
            }
        }
    }

    /// Unrecords `id`, reporting whether it was present; a no-op if absent.
    pub fn remove(&mut self, id: usize) -> (was_present: bool)
        requires
            old(self).wf(),
        ensures
            final(self).wf(),
            was_present == old(self)@.contains(id),
            final(self)@ == old(self)@.remove(id),
    {
        let n = self.ids.len();
        let mut i: usize = 0;
        while i < n
            invariant
                old(self).wf(),
                self.ids@ == old(self).ids@,
                n == self.ids@.len(),
                i <= n,
                forall|j: int| 0 <= j < i ==> self.ids@[j] != id,
            decreases n - i,
        {
            if self.ids[i] == id {
                proof {
                    assert(self.ids@[i as int] == id);
                    assert(self.ids@.contains(id));
                }
                self.ids.remove(i);
                proof {
                    let pre = old(self).ids@;
                    let post = self.ids@;
                    let k = i as int;
                    pre.remove_ensures(k);
                    // only index k of the old sequence holds `id`
                    assert forall|j: int| 0 <= j < pre.len() && j != k implies pre[j] != id by {
                        if j < k {
                            assert(pre[j] != pre[k]);
                        } else {
                            assert(pre[k] != pre[j]);
                        }
                    }
                    assert forall|a: int, b: int|
                        0 <= a < b < post.len() implies post[a] != post[b] by {
                        let a0 = if a < k { a } else { a + 1 };
                        let b0 = if b < k { b } else { b + 1 };
                        assert(post[a] == pre[a0]);
                        assert(post[b] == pre[b0]);
                        assert(pre[a0] != pre[b0]);
                    }
                    assert forall|x: usize| post.contains(x) == (pre.contains(x) && x != id) by {
                        if post.contains(x) {
                            let j = post.lemma_contains_to_index(x);
                            let j0 = if j < k { j } else { j + 1 };
                            assert(pre[j0] == x);
                            assert(pre.contains(x));
                            assert(x != id);
                        }
                        if pre.contains(x) && x != id {
                            let j = pre.lemma_contains_to_index(x);
                            if j < k {
                                assert(post[j] == x);
                            } else {
                                assert(post[j - 1] == x);
                            }
                            assert(post.contains(x));
                        }
                    }
                    assert(self@ =~= old(self)@.remove(id));
                }
                return true;
            }
            i = i + 1;
        }
        proof {
            assert(!old(self).ids@.contains(id));
            assert(self@ =~= old(self)@.remove(id));
        }
        false
    }
}

/// The scheduler-visible wrapper around one spawned computation: its identity
/// (the correctness anchor for deduplicating wakes) and the index of the run
/// queue it was assigned at spawn time, fixed for its whole lifetime. The
/// boxed computation itself lives with the runtime outside the library.
#[derive(Clone, Copy, Debug)]
pub struct InnerTask {
    /// The identity assigned at spawn time; never reused within one scheduler.
    pub id: usize,
    /// The run queue the task is always dispatched on.
    pub queue: usize,
}

impl InnerTask {
    /// Wraps identity `id` with its fixed queue assignment.
    pub fn new(id: usize, queue: usize) -> (t: Self)
        ensures
            t.id == id,
            t.queue == queue,
    {
        InnerTask { id, queue }
    }
}

/// Equality is by identity, not structure, as the scheduler dedups on it.
impl PartialEq for InnerTask {
    fn eq(&self, other: &Self) -> (r: bool) {
        self.id == other.id
    }
}

impl vstd::std_specs::cmp::PartialEqSpecImpl for InnerTask {
    open spec fn obeys_eq_spec() -> bool {
        true
    }

    open spec fn eq_spec(&self, other: &Self) -> bool {
        self.id == other.id
    }
}

/// One run queue: the in-flight messages in send order, and whether the
/// receiving worker is still attached. `Some` carries real work; `None` is
/// the shutdown sentinel.
pub struct RunQueue {
    /// The messages sent and not yet received, oldest first.
    pub entries: Vec<Option<InnerTask>>,
    /// Whether the receiving side still exists. A send onto a detached queue
    /// is dropped (the real channel reports an error the callers ignore or
    /// surface as a spawn failure).
    pub connected: bool,
}

impl RunQueue {
    /// A fresh, empty, attached queue.
    pub fn new() -> (q: Self)
        ensures
            q.entries@ == Seq::<Option<InnerTask>>::empty(),
            q.connected,
    {
        RunQueue { entries: Vec::new(), connected: true }
    }
}

/// Why a spawn attempt failed.
#[derive(Clone, Copy, Debug, PartialEq, Eq, Structural)]
pub enum SpawnError {
    /// A lock in the state graph was left unusable by a prior panic. The
    /// library itself never produces this; the runtime around it does.
    Poisoned,
    /// The destination queue's receiving side is gone: the executor has begun
    /// tearing down, and spawning must fail cleanly rather than block.
    Dropped,
}

/// The public submission API: assigns a strictly increasing identity to each
/// new task, round-robins it onto one of the pool's queues, and can broadcast
/// the cancellation sentinel to all queues.
pub struct SpawnHandle {
    /// The number of run queues (one per worker).
    pub pool_size: usize,
    /// The run queues, indexed by the worker that drains each.
    pub send_pool: Vec<RunQueue>,
    /// The process-wide record of suspended, not-enqueued task identities.
    pub waiting_task_handle: WaitingSet,
    /// The identity the next spawned task will get.
    pub next_id: usize,
    /// The queue the next spawned task will be assigned to.
    pub next_regi: usize,
}

/// All queues but `k`, and the pool's shape, are untouched between the two
/// states.
pub open spec fn same_pool_except(pre: SpawnHandle, post: SpawnHandle, k: int) -> bool {
    &&& post.pool_size == pre.pool_size
    &&& post.send_pool@.len() == pre.send_pool@.len()
    &&& forall|j: int|
        0 <= j < pre.send_pool@.len() && j != k ==> post.send_pool@[j] == pre.send_pool@[j]
}

/// The identity allocator and the round-robin counter are untouched between
/// the two states.
pub open spec fn same_counters(pre: SpawnHandle, post: SpawnHandle) -> bool {
    &&& post.next_id == pre.next_id
    &&& post.next_regi == pre.next_regi
}

impl SpawnHandle {
    /// The message at position `i` of queue `k`.
    pub open spec fn entry(&self, k: int, i: int) -> Option<InnerTask> {
        self.send_pool@[k].entries@[i]
    }

    /// Whether `(k, i)` indexes a message.
    pub open spec fn entry_index_ok(&self, k: int, i: int) -> bool {
        0 <= k < self.send_pool@.len() && 0 <= i < self.send_pool@[k].entries@.len()
    }

    /// Every queued task sits on its own fixed queue (queue affinity),
    /// carries an identity below the allocator's next one, and is not
    /// simultaneously recorded as waiting: run-queue presence and waiting-set
    /// membership are mutually exclusive.
    pub open spec fn entries_ok(&self) -> bool {
        forall|k: int, i: int|
            self.entry_index_ok(k, i) ==> ((#[trigger] self.entry(k, i)) matches Some(t) ==> {
                &&& t.queue == k
                &&& t.id < self.next_id
                &&& !self.waiting_task_handle@.contains(t.id)
            })
    }

    /// No task identity sits in more than one queue entry: a wake never
    /// produces a duplicate enqueue.
    pub open spec fn entries_unique(&self) -> bool {
        forall|k1: int, i1: int, k2: int, i2: int|
            #![trigger self.entry(k1, i1), self.entry(k2, i2)]
            self.entry_index_ok(k1, i1) && self.entry_index_ok(k2, i2) && (k1 != k2 || i1 != i2)
                && self.entry(k1, i1) is Some && self.entry(k2, i2) is Some ==> self.entry(
                k1,
                i1,
            )->0.id != self.entry(k2, i2)->0.id
    }

    /// Task identity `id` sits in some run queue entry.
    pub open spec fn enqueued(&self, id: usize) -> bool {
        exists|k: int, i: int|
            self.entry_index_ok(k, i) && ((#[trigger] self.entry(k, i)) matches Some(t) && t.id
                == id)
    }

    /// The scheduler's invariant, established at bootstrap and preserved by
    /// every operation.
    pub open spec fn wf(&self) -> bool {
        &&& 0 < self.pool_size
        &&& self.send_pool@.len() == self.pool_size
        &&& self.next_regi < self.pool_size
        &&& self.waiting_task_handle.wf()
        &&& forall|id: usize|
            #[trigger] self.waiting_task_handle@.contains(id) ==> id < self.next_id
        &&& self.entries_ok()
        &&& self.entries_unique()
    }

    /// Wraps a pool of fresh queues and an empty waiting set; identities and
    /// the round-robin counter start at zero.
    pub fn new(send_pool: Vec<RunQueue>, waiting_task_handle: WaitingSet) -> (h: Self)
        requires
            0 < send_pool@.len(),
            forall|k: int|
                0 <= k < send_pool@.len() ==> (#[trigger] send_pool@[k]).entries@.len() == 0,
            waiting_task_handle.wf(),
            waiting_task_handle@ == Set::<usize>::empty(),
        ensures
            h.wf(),
            h.pool_size == send_pool@.len(),
            h.send_pool == send_pool,
            h.waiting_task_handle == waiting_task_handle,
            h.next_id == 0,
            h.next_regi == 0,
    {
        let pool_size = send_pool.len();
        SpawnHandle { pool_size, send_pool, waiting_task_handle, next_id: 0, next_regi: 0 }
    }

    /// Submission: allocates the next identity, picks the destination queue
    /// by round robin, and enqueues the scheduler-visible task there. Returns
    /// the caller-visible handle over a fresh completion cell. Fails with
    /// [`SpawnError::Dropped`] exactly when the destination queue's receiving
    /// side is gone; the identity and the round-robin counter advance either
    /// way, so an identity is never reused.
    pub fn spawn<T: Taskable, W>(&mut self) -> (r: Result<Task<T, W>, SpawnError>)
        requires
            old(self).wf(),
            old(self).next_id < usize::MAX,
        ensures
            final(self).wf(),
            final(self).next_id == old(self).next_id + 1,
            final(self).next_regi == ((old(self).next_regi + 1) % (old(self).pool_size as int)),
            final(self).waiting_task_handle == old(self).waiting_task_handle,
            same_pool_except(*old(self), *final(self), old(self).next_regi as int),
            final(self).send_pool@[old(self).next_regi as int].connected == old(self).send_pool@[old(self).next_regi as int].connected,
            r is Ok <==> old(self).send_pool@[old(self).next_regi as int].connected,
            (r matches Ok(t) ==> {
                &&& t.id == old(self).next_id
                &&& t.state.resolved is None
                &&& t.state.waker is None
                &&& final(self).send_pool@[old(self).next_regi as int].entries@ == old(self).send_pool@[old(self).next_regi as int].entries@.push(
                    Some((InnerTask { id: old(self).next_id, queue: old(self).next_regi })),
                )
            }),
            (r matches Err(e) ==> e == SpawnError::Dropped && final(self).send_pool@[old(self).next_regi as int].entries@ == old(self).send_pool@[old(self).next_regi as int].entries@),
    {
        let id = self.next_id;
        let idx = self.next_regi;
        self.next_id = id + 1;
        self.next_regi = (idx + 1) % self.pool_size;
        if !self.send_pool[idx].connected {
            proof {
                assert forall|k: int, i: int|
                    self.entry_index_ok(k, i) implies ((#[trigger] self.entry(k, i)) matches Some(
                    t,
                ) ==> t.queue == k && t.id < self.next_id
                    && !self.waiting_task_handle@.contains(t.id)) by {
                    assert(self.entry(k, i) == old(self).entry(k, i));
                }
                assert forall|k1: int, i1: int, k2: int, i2: int|
                    #![trigger self.entry(k1, i1), self.entry(k2, i2)]
                    self.entry_index_ok(k1, i1) && self.entry_index_ok(k2, i2) && (k1 != k2 || i1
                        != i2) && self.entry(k1, i1) is Some && self.entry(
                        k2,
                        i2,
                    ) is Some implies self.entry(k1, i1)->0.id != self.entry(k2, i2)->0.id by {
                    assert(self.entry(k1, i1) == old(self).entry(k1, i1));
                    assert(self.entry(k2, i2) == old(self).entry(k2, i2));
                }
            }
            return Err(SpawnError::Dropped);
        }
        let task_inner = InnerTask::new(id, idx);
        let q = &mut self.send_pool[idx];
        q.entries.push(Some(task_inner));
        proof {
            let pre = *old(self);
            assert forall|k: int, i: int|
                self.entry_index_ok(k, i) implies ((#[trigger] self.entry(k, i)) matches Some(t)
                ==> t.queue == k && t.id < self.next_id && !self.waiting_task_handle@.contains(
                t.id,
            )) by {
                if k == idx && i == pre.send_pool@[k].entries@.len() {
                    assert(self.entry(k, i) == Some(task_inner));
                } else {
                    assert(self.entry(k, i) == pre.entry(k, i));
                }
            }
            assert forall|k1: int, i1: int, k2: int, i2: int|
                #![trigger self.entry(k1, i1), self.entry(k2, i2)]
                self.entry_index_ok(k1, i1) && self.entry_index_ok(k2, i2) && (k1 != k2 || i1
                    != i2) && self.entry(k1, i1) is Some && self.entry(
                    k2,
                    i2,
                ) is Some implies self.entry(k1, i1)->0.id != self.entry(k2, i2)->0.id by {
                let last = pre.send_pool@[idx as int].entries@.len();
                if k1 == idx && i1 == last {
                    assert(self.entry(k2, i2) == pre.entry(k2, i2));
                } else if k2 == idx && i2 == last {
                    assert(self.entry(k1, i1) == pre.entry(k1, i1));
                } else {
                    assert(self.entry(k1, i1) == pre.entry(k1, i1));
                    assert(self.entry(k2, i2) == pre.entry(k2, i2));
                }
            }
        }
        Ok(Task::new(id, TaskState::new()))
    }

    /// Cancellation: sends the shutdown sentinel on every queue, once per
    /// call. Best-effort — a queue whose receiver is already gone is left
    /// alone, and calling this again is safe.
    pub fn cancel_all(&mut self)
        requires
            old(self).wf(),
        ensures
            final(self).wf(),
            final(self).pool_size == old(self).pool_size,
            final(self).send_pool@.len() == old(self).send_pool@.len(),
            same_counters(*old(self), *final(self)),
            final(self).waiting_task_handle == old(self).waiting_task_handle,
            forall|k: int|
                0 <= k < old(self).send_pool@.len() ==> (#[trigger] final(self).send_pool@[k]).connected == old(self).send_pool@[k].connected,
            forall|k: int|
                0 <= k < old(self).send_pool@.len() && old(self).send_pool@[k].connected ==> (
                #[trigger] final(self).send_pool@[k]).entries@ == old(self).send_pool@[k].entries@.push(None),
            forall|k: int|
                0 <= k < old(self).send_pool@.len() && !old(self).send_pool@[k].connected ==> (
                #[trigger] final(self).send_pool@[k]).entries@ == old(self).send_pool@[k].entries@,
    {
        let n = self.send_pool.len();
        let mut k: usize = 0;
        while k < n
            invariant
                old(self).wf(),
                n == old(self).send_pool@.len(),
                k <= n,
                self.pool_size == old(self).pool_size,
                self.next_id == old(self).next_id,
                self.next_regi == old(self).next_regi,
                self.waiting_task_handle == old(self).waiting_task_handle,
                self.send_pool@.len() == n,
                forall|j: int| k <= j < n ==> self.send_pool@[j] == old(self).send_pool@[j],
                forall|j: int|
                    0 <= j < k ==> (#[trigger] self.send_pool@[j]).connected == old(self).send_pool@[j].connected,
                forall|j: int|
                    0 <= j < k && old(self).send_pool@[j].connected ==> (#[trigger] self
                        .send_pool@[j]).entries@ == old(self).send_pool@[j].entries@.push(None),
                forall|j: int|
                    0 <= j < k && !old(self).send_pool@[j].connected ==> (#[trigger] self
                        .send_pool@[j]).entries@ == old(self).send_pool@[j].entries@,
            decreases n - k,
        {
            if self.send_pool[k].connected {
                let q = &mut self.send_pool[k];
                q.entries.push(None);
            }
            k = k + 1;
        }
        proof {
            let pre = *old(self);
            assert forall|k: int, i: int|
                self.entry_index_ok(k, i) implies ((#[trigger] self.entry(k, i)) matches Some(t)
                ==> t.queue == k && t.id < self.next_id && !self.waiting_task_handle@.contains(
                t.id,
            )) by {
                if i < pre.send_pool@[k].entries@.len() {
                    assert(self.entry(k, i) == pre.entry(k, i));
                } else {
                    assert(self.entry(k, i) is None);
                }
            }
            assert forall|k1: int, i1: int, k2: int, i2: int|
                #![trigger self.entry(k1, i1), self.entry(k2, i2)]
                self.entry_index_ok(k1, i1) && self.entry_index_ok(k2, i2) && (k1 != k2 || i1
                    != i2) && self.entry(k1, i1) is Some && self.entry(
                    k2,
                    i2,
                ) is Some implies self.entry(k1, i1)->0.id != self.entry(k2, i2)->0.id by {
                assert(self.entry(k1, i1) == pre.entry(k1, i1));
                assert(self.entry(k2, i2) == pre.entry(k2, i2));
            }
        }
    }
}

impl InnerTask {
    /// The wake protocol, invoked by the continuation captured during a step,
    /// possibly several times per suspension: unrecords this identity from
    /// the waiting set, and re-enqueues the task onto its own fixed queue
    /// only when the identity was recorded — the removal check is what makes
    /// duplicate and spurious wakes harmless. The enqueue is further dropped
    /// if the queue's receiver is gone (the real channel send just fails).
    pub fn wake(&self, handle: &mut SpawnHandle) -> (enqueued: bool)
        requires
            old(handle).wf(),
            self.queue < old(handle).pool_size,
        ensures
            final(handle).wf(),
            final(handle).waiting_task_handle@ == old(handle).waiting_task_handle@.remove(
                self.id,
            ),
            enqueued <==> (old(handle).waiting_task_handle@.contains(self.id) && old(handle).send_pool@[self.queue as int].connected),
            same_counters(*old(handle), *final(handle)),
            same_pool_except(*old(handle), *final(handle), self.queue as int),
            final(handle).send_pool@[self.queue as int].connected == old(handle).send_pool@[self.queue as int].connected,
            enqueued ==> final(handle).send_pool@[self.queue as int].entries@ == old(handle).send_pool@[self.queue as int].entries@.push(Some(*self)),
            !enqueued ==> final(handle).send_pool@[self.queue as int].entries@ == old(handle).send_pool@[self.queue as int].entries@,
    {
        let was_waiting = handle.waiting_task_handle.remove(self.id);
        proof {
            let pre = *old(handle);
            assert forall|k: int, i: int|
                handle.entry_index_ok(k, i) implies ((#[trigger] handle.entry(k, i)) matches Some(
                t,
            ) ==> t.queue == k && t.id < handle.next_id && !handle.waiting_task_handle@.contains(
                t.id,
            )) by {
                assert(handle.entry(k, i) == pre.entry(k, i));
            }
            assert forall|k1: int, i1: int, k2: int, i2: int|
                #![trigger handle.entry(k1, i1), handle.entry(k2, i2)]
                handle.entry_index_ok(k1, i1) && handle.entry_index_ok(k2, i2) && (k1 != k2 || i1
                    != i2) && handle.entry(k1, i1) is Some && handle.entry(
                    k2,
                    i2,
                ) is Some implies handle.entry(k1, i1)->0.id != handle.entry(k2, i2)->0.id by {
                assert(handle.entry(k1, i1) == pre.entry(k1, i1));
                assert(handle.entry(k2, i2) == pre.entry(k2, i2));
            }
        }
        if !was_waiting {
            return false;
        }
        if !handle.send_pool[self.queue].connected {
            return false;
        }
        let ghost mid = *handle;
        let q = &mut handle.send_pool[self.queue];
        q.entries.push(Some(*self));
        proof {
            let pre = *old(handle);
            let kq = self.queue as int;
            let last = mid.send_pool@[kq].entries@.len();
            assert forall|k: int, i: int|
                handle.entry_index_ok(k, i) implies ((#[trigger] handle.entry(k, i)) matches Some(
                t,
            ) ==> t.queue == k && t.id < handle.next_id && !handle.waiting_task_handle@.contains(
                t.id,
            )) by {
                if k == kq && i == last {
                    assert(handle.entry(k, i) == Some(*self));
                    assert(pre.waiting_task_handle@.contains(self.id));
                } else {
                    assert(handle.entry(k, i) == mid.entry(k, i));
                }
            }
            assert forall|k1: int, i1: int, k2: int, i2: int|
                #![trigger handle.entry(k1, i1), handle.entry(k2, i2)]
                handle.entry_index_ok(k1, i1) && handle.entry_index_ok(k2, i2) && (k1 != k2 || i1
                    != i2) && handle.entry(k1, i1) is Some && handle.entry(
                    k2,
                    i2,
                ) is Some implies handle.entry(k1, i1)->0.id != handle.entry(k2, i2)->0.id by {
                if k1 == kq && i1 == last {
                    assert(handle.entry(k1, i1) == Some(*self));
                    assert(handle.entry(k2, i2) == pre.entry(k2, i2));
                    assert(pre.waiting_task_handle@.contains(self.id));
                    assert(pre.entry(k2, i2) matches Some(t)
                        ==> !pre.waiting_task_handle@.contains(t.id));
                } else if k2 == kq && i2 == last {
                    assert(handle.entry(k2, i2) == Some(*self));
                    assert(handle.entry(k1, i1) == pre.entry(k1, i1));
                    assert(pre.waiting_task_handle@.contains(self.id));
                    assert(pre.entry(k1, i1) matches Some(t)
                        ==> !pre.waiting_task_handle@.contains(t.id));
                } else {
                    assert(handle.entry(k1, i1) == mid.entry(k1, i1));
                    assert(handle.entry(k2, i2) == mid.entry(k2, i2));
                }
            }
        }
        true
    }

    /// One advance of the task by the worker that just dequeued it; the
    /// wrapped computation's report (`pending`) is supplied by the runtime
    /// that polled it. On pending, the task records itself as suspended — it
    /// never requeues itself; requeueing happens only through [`Self::wake`].
    /// On completion nothing is recorded: the computation has already written
    /// its result into its completion cell and the task is dropped.
    pub fn step(&self, pending: bool, handle: &mut SpawnHandle)
        requires
            old(handle).wf(),
            !old(handle).enqueued(self.id),
            self.id < old(handle).next_id,
        ensures
            final(handle).wf(),
            pending ==> final(handle).waiting_task_handle@ == old(handle).waiting_task_handle@.insert(self.id),
            !pending ==> final(handle).waiting_task_handle@ == old(handle).waiting_task_handle@,
            same_counters(*old(handle), *final(handle)),
            final(handle).pool_size == old(handle).pool_size,
            final(handle).send_pool == old(handle).send_pool,
    {
        if pending {
            handle.waiting_task_handle.insert(self.id);
            proof {
                let pre = *old(handle);
                assert forall|k: int, i: int|
                    handle.entry_index_ok(k, i) implies ((#[trigger] handle.entry(
                    k,
                    i,
                )) matches Some(t) ==> t.queue == k && t.id < handle.next_id
                    && !handle.waiting_task_handle@.contains(t.id)) by {
                    assert(handle.entry(k, i) == pre.entry(k, i));
                    if pre.entry(k, i) matches Some(t) && t.id == self.id {
                        assert(pre.enqueued(self.id));
                    }
                }
                assert forall|k1: int, i1: int, k2: int, i2: int|
                    #![trigger handle.entry(k1, i1), handle.entry(k2, i2)]
                    handle.entry_index_ok(k1, i1) && handle.entry_index_ok(k2, i2) && (k1 != k2
                        || i1 != i2) && handle.entry(k1, i1) is Some && handle.entry(
                        k2,
                        i2,
                    ) is Some implies handle.entry(k1, i1)->0.id != handle.entry(k2, i2)->0.id by {
                    assert(handle.entry(k1, i1) == pre.entry(k1, i1));
                    assert(handle.entry(k2, i2) == pre.entry(k2, i2));
                }
            }
        }
    }
}

/// Owns the bootstrap of the worker pool and the drain/shutdown sequence:
/// it builds the queues the spawn handle submits onto, and its workers pull
/// from them until the shutdown sentinel arrives.
pub struct Executor {
    /// The submission side over the pool's queues.
    pub handle: SpawnHandle,
}

impl Executor {
    /// Bootstrap: `threads` fresh, attached, empty queues under a spawn
    /// handle with identities and round robin starting at zero.
    pub fn new(threads: usize) -> (e: Executor)
        requires
            0 < threads,
        ensures
            e.handle.wf(),
            e.handle.pool_size == threads,
            e.handle.next_id == 0,
            e.handle.next_regi == 0,
            e.handle.waiting_task_handle@ == Set::<usize>::empty(),
            e.handle.send_pool@.len() == threads,
            forall|k: int|
                0 <= k < threads ==> (#[trigger] e.handle.send_pool@[k]).entries@.len() == 0
                    && e.handle.send_pool@[k].connected,
    {
        let mut send_pool: Vec<RunQueue> = Vec::new();
        let mut k: usize = 0;
        while k < threads
            invariant
                k <= threads,
                send_pool@.len() == k,
                forall|j: int|
                    0 <= j < k ==> (#[trigger] send_pool@[j]).entries@.len() == 0
                        && send_pool@[j].connected,
            decreases threads - k,
        {
            send_pool.push(RunQueue::new());
            k = k + 1;
        }
        let handle = SpawnHandle::new(send_pool, WaitingSet::new());
        Executor { handle }
    }

    /// The worker pull-loop on queue `k`, run until the queue is exhausted or
    /// the shutdown sentinel arrives. Real work standing before the first
    /// sentinel is handed back for stepping, in queue order — cancellation
    /// does not discard work already queued ahead of the sentinel. When the
    /// sentinel is reached it is consumed and the queue detaches (the worker
    /// exits its loop, dropping the receiving side). Each returned task is
    /// now running: it sits in no queue and not in the waiting set, so the
    /// caller may step it.
    pub fn worker_drain(&mut self, k: usize) -> (work: Vec<InnerTask>)
        requires
            old(self).handle.wf(),
            k < old(self).handle.pool_size,
        ensures
            final(self).handle.wf(),
            same_counters(old(self).handle, final(self).handle),
            final(self).handle.waiting_task_handle == old(self).handle.waiting_task_handle,
            same_pool_except(old(self).handle, final(self).handle, k as int),
            work@.len() <= old(self).handle.send_pool@[k as int].entries@.len(),
            forall|i: int|
                0 <= i < work@.len() ==> old(self).handle.send_pool@[k as int].entries@[i]
                    == Some(work@[i]),
            work@.len() < old(self).handle.send_pool@[k as int].entries@.len() ==> {
                &&& old(self).handle.send_pool@[k as int].entries@[work@.len() as int] is None
                &&& final(self).handle.send_pool@[k as int].entries@ == old(
                    self,
                ).handle.send_pool@[k as int].entries@.skip(work@.len() as int + 1)
                &&& !final(self).handle.send_pool@[k as int].connected
            },
            work@.len() == old(self).handle.send_pool@[k as int].entries@.len() ==> {
                &&& final(self).handle.send_pool@[k as int].entries@.len() == 0
                &&& final(self).handle.send_pool@[k as int].connected == old(
                    self,
                ).handle.send_pool@[k as int].connected
            },
            forall|i: int|
                0 <= i < work@.len() ==> {
                    &&& (#[trigger] work@[i]).queue == k
                    &&& work@[i].id < final(self).handle.next_id
                    &&& !final(self).handle.waiting_task_handle@.contains(work@[i].id)
                    &&& !final(self).handle.enqueued(work@[i].id)
                },
            forall|i: int, j: int|
                0 <= i < j < work@.len() ==> work@[i].id != work@[j].id,
    {
        let ghost pre = old(self).handle;
        let ghost oldq = pre.send_pool@[k as int].entries@;
        let n = self.handle.send_pool[k].entries.len();
        let mut work: Vec<InnerTask> = Vec::new();
        let mut m: usize = 0;
        let mut saw_sentinel = false;
        while m < n && !saw_sentinel
            invariant
                *self == *old(self),
                pre == old(self).handle,
                oldq == pre.send_pool@[k as int].entries@,
                (k as int) < self.handle.send_pool@.len(),
                n == oldq.len(),
                m <= n,
                work@.len() == m,
                forall|i: int| 0 <= i < m ==> oldq[i] == Some(work@[i]),
                saw_sentinel ==> m < n && oldq[m as int] is None,
            decreases n - m + (if saw_sentinel { 0int } else { 1 }),
        {
            let e = self.handle.send_pool[k].entries[m];
            match e {
                Some(t) => {
                    work.push(t);
                    m = m + 1;
                },
                None => {
                    saw_sentinel = true;
                },
            }
        }
        if saw_sentinel {
            let mut rest: Vec<Option<InnerTask>> = Vec::new();
            let mut j: usize = m + 1;
            while j < n
                invariant
                    *self == *old(self),
                    pre == old(self).handle,
                    oldq == pre.send_pool@[k as int].entries@,
                    (k as int) < self.handle.send_pool@.len(),
                    n == oldq.len(),
                    m + 1 <= j <= n,
                    rest@ == oldq.subrange(m + 1, j as int),
                decreases n - j,
            {
                let e = self.handle.send_pool[k].entries[j];
                rest.push(e);
                proof {
                    assert(rest@ =~= oldq.subrange(m + 1, j + 1));
                }
                j = j + 1;
            }
            proof {
                assert(rest@ == oldq.skip(m + 1));
            }
            let q = &mut self.handle.send_pool[k];
            q.entries = rest;
            q.connected = false;
        } else {
            let q = &mut self.handle.send_pool[k];
            q.entries = Vec::new();
        }
        proof {
            let kq = k as int;
            let off: int = if work@.len() < oldq.len() { work@.len() as int + 1 } else { 0 };
            // every remaining entry of queue `k` stood behind the sentinel
            assert forall|i: int|
                0 <= i < self.handle.send_pool@[kq].entries@.len() implies self.handle.entry(
                kq,
                i,
            ) == pre.entry(kq, i + off) && 0 <= i + off < oldq.len() by {}
            assert forall|k1: int, i1: int|
                self.handle.entry_index_ok(k1, i1) implies ((#[trigger] self.handle.entry(
                k1,
                i1,
            )) matches Some(t) ==> t.queue == k1 && t.id < self.handle.next_id
                && !self.handle.waiting_task_handle@.contains(t.id)) by {
                if k1 == kq {
                    assert(self.handle.entry(k1, i1) == pre.entry(kq, i1 + off));
                } else {
                    assert(self.handle.entry(k1, i1) == pre.entry(k1, i1));
                }
            }
            assert forall|k1: int, i1: int, k2: int, i2: int|
                #![trigger self.handle.entry(k1, i1), self.handle.entry(k2, i2)]
                self.handle.entry_index_ok(k1, i1) && self.handle.entry_index_ok(k2, i2) && (k1
                    != k2 || i1 != i2) && self.handle.entry(k1, i1) is Some && self.handle.entry(
                    k2,
                    i2,
                ) is Some implies self.handle.entry(k1, i1)->0.id != self.handle.entry(
                k2,
                i2,
            )->0.id by {
                let j1: int = if k1 == kq { i1 + off } else { i1 };
                let j2: int = if k2 == kq { i2 + off } else { i2 };
                assert(self.handle.entry(k1, i1) == pre.entry(k1, j1));
                assert(self.handle.entry(k2, i2) == pre.entry(k2, j2));
            }
            assert forall|i: int|
                0 <= i < work@.len() implies ((#[trigger] work@[i]).queue == k && work@[i].id
                < self.handle.next_id && !self.handle.waiting_task_handle@.contains(work@[i].id)
                && !self.handle.enqueued(work@[i].id)) by {
                assert(pre.entry(kq, i) == Some(work@[i]));
                if self.handle.enqueued(work@[i].id) {
                    let (k2, i2): (int, int) = choose|k2: int, i2: int|
                        self.handle.entry_index_ok(k2, i2) && ((#[trigger] self.handle.entry(
                            k2,
                            i2,
                        )) matches Some(t) && t.id == work@[i].id);
                    let j2: int = if k2 == kq { i2 + off } else { i2 };
                    assert(self.handle.entry(k2, i2) == pre.entry(k2, j2));
                    assert(k2 != kq || j2 != i);
                    assert(pre.entry(k2, j2)->0.id != pre.entry(kq, i)->0.id);
                }
            }
            assert forall|i: int, j: int|
                0 <= i < j < work@.len() implies work@[i].id != work@[j].id by {
                assert(pre.entry(kq, i) == Some(work@[i]));
                assert(pre.entry(kq, j) == Some(work@[j]));
            }
        }
        work
    }
}

/// How many re-enqueues `n` consecutive wake calls for `id` produce, starting
/// from waiting set `w`. This is the waiting-set transition of
/// [`InnerTask::wake`] iterated: each call removes `id` and enqueues exactly
/// when the identity was still recorded.
pub open spec fn wake_enqueue_count(w: Set<usize>, id: usize, n: nat) -> nat
    decreases n,
{
    if n == 0 {
        0
    } else {
        (if w.contains(id) {
            1nat
        } else {
            0nat
        }) + wake_enqueue_count(w.remove(id), id, (n - 1) as nat)
    }
}

/// A wake for an identity the waiting set does not record never enqueues,
/// however often it is repeated: spurious wakes are harmless.
pub proof fn lemma_wakes_without_membership(w: Set<usize>, id: usize, n: nat)
    requires
        !w.contains(id),
    ensures
        wake_enqueue_count(w, id, n) == 0,
    decreases n,
{
    if n > 0 {
        lemma_wakes_without_membership(w.remove(id), id, (n - 1) as nat);
    }
}

/// Single dispatch per suspension: calling wake any number of times while a
/// task is suspended, and before its next step re-records it, produces at
/// most one re-enqueue — the first effective wake removes the identity from
/// the waiting set, and every later call finds it absent.
pub proof fn lemma_single_dispatch(w: Set<usize>, id: usize, n: nat)
    ensures
        wake_enqueue_count(w, id, n) <= 1,
    decreases n,
{
    if n > 0 {
        if w.contains(id) {
            lemma_wakes_without_membership(w.remove(id), id, (n - 1) as nat);
        } else {
            lemma_single_dispatch(w.remove(id), id, (n - 1) as nat);
        }
    }
}

/// Fixed queue affinity: in a well-formed scheduler state every task found in
/// run queue `k` is one whose own fixed assignment is `k`. Since spawn and
/// wake enqueue a task only onto its own queue and nothing ever alters the
/// assignment, a task spawned onto queue `k` is only ever found enqueued on
/// queue `k`, across all re-enqueues.
pub proof fn lemma_fixed_queue_affinity(h: SpawnHandle, k: int, i: int)
    requires
        h.wf(),
        h.entry_index_ok(k, i),
        h.entry(k, i) is Some,
    ensures
        h.entry(k, i)->0.queue == k,
{
}

} // verus!
