use cotask::executor::{Executor, InnerTask, RunQueue, SpawnError, SpawnHandle, WaitingSet};
use cotask::spawner::Spawner;
use cotask::task::{Task, TaskError, TaskState};
use cotask::timer::{Timer, TimerPoll, TIMER_RESOLUTION_NANOS};

#[test]
fn completion_is_idempotent() {
    let mut state: TaskState<u64, u32> = TaskState::new();
    assert_eq!(state.set(1), None);
    // a second completion with a different value is a silent no-op
    assert_eq!(state.set(2), None);
    // a subsequent poll observes the first value
    assert_eq!(state.poll(0), Some(1));
}

#[test]
fn no_missed_wakeup() {
    let mut state: TaskState<u64, u32> = TaskState::new();
    // polled while unresolved: the continuation is registered
    assert_eq!(state.poll(5), None);
    // completion hands back exactly that continuation to invoke
    assert_eq!(state.set(9), Some(5));
    // the next poll observes ready ...
    assert_eq!(state.poll(6), Some(9));
    // ... exactly once: the result is consumed destructively
    assert_eq!(state.poll(7), None);
}

#[test]
fn consumed_cell_accepts_a_new_completion() {
    let mut state: TaskState<u64, u32> = TaskState::new();
    assert_eq!(state.set(1), None);
    // the first poll takes the value destructively
    assert_eq!(state.poll(0), Some(1));
    // so the cell is unresolved again and a later completion stores anew
    assert_eq!(state.set(3), None);
    assert_eq!(state.poll(1), Some(3));
}

#[test]
fn poll_replaces_the_registered_continuation() {
    let mut state: TaskState<u64, u32> = TaskState::new();
    assert_eq!(state.poll(1), None);
    assert_eq!(state.poll(2), None);
    // only the most recent continuation is invoked
    assert_eq!(state.set(7), Some(2));
}

#[test]
fn task_handle_wraps_id_and_state() {
    let state: TaskState<u64, u32> = TaskState::new();
    let mut task = Task::new(3, state);
    assert_eq!(task.id, 3);
    assert_eq!(task.poll(0), None);
    assert_eq!(task.state.set(10), Some(0));
    assert_eq!(task.poll(1), Some(10));
}

#[test]
fn spawn_then_immediate_completion_yields_value() {
    // spawn 1 task that immediately returns 42: awaiting its handle yields 42
    let mut e = Executor::new(1);
    let mut task = e.handle.spawn::<u64, u32>().unwrap_or_else(|_| panic!("spawn failed"));
    let work = e.worker_drain(0);
    assert_eq!(work.len(), 1);
    assert_eq!(work[0].id, task.id);
    // the computation finishes on its first step and writes its result
    work[0].step(false, &mut e.handle);
    assert_eq!(task.state.set(42), None);
    assert_eq!(task.poll(0), Some(42));
}

#[test]
fn wake_dedups_to_a_single_enqueue() {
    let mut e = Executor::new(1);
    assert!(e.handle.spawn::<u64, u32>().is_ok());
    let work = e.worker_drain(0);
    assert_eq!(work.len(), 1);
    let t = work[0];
    // the step reports pending: the task parks itself in the waiting set
    t.step(true, &mut e.handle);
    assert!(e.handle.waiting_task_handle.contains(t.id));
    // several wakes race in before the task is stepped again
    assert!(t.wake(&mut e.handle));
    assert!(!t.wake(&mut e.handle));
    assert!(!t.wake(&mut e.handle));
    // at most one re-enqueue happened
    let requeued = e.worker_drain(0);
    assert_eq!(requeued.len(), 1);
    assert_eq!(requeued[0].id, t.id);
}

#[test]
fn round_robin_keeps_queue_affinity() {
    let mut e = Executor::new(2);
    let t0 = e.handle.spawn::<u64, u32>().unwrap_or_else(|_| panic!("spawn failed"));
    let t1 = e.handle.spawn::<u64, u32>().unwrap_or_else(|_| panic!("spawn failed"));
    let t2 = e.handle.spawn::<u64, u32>().unwrap_or_else(|_| panic!("spawn failed"));
    assert_eq!((t0.id, t1.id, t2.id), (0, 1, 2));
    // round robin: tasks 0 and 2 on queue 0, task 1 on queue 1
    let w0 = e.worker_drain(0);
    let w1 = e.worker_drain(1);
    assert_eq!(w0.iter().map(|t| t.id).collect::<Vec<_>>(), vec![0, 2]);
    assert_eq!(w1.iter().map(|t| t.id).collect::<Vec<_>>(), vec![1]);
    assert!(w0.iter().all(|t| t.queue == 0));
    assert!(w1.iter().all(|t| t.queue == 1));
    // a suspended task woken from anywhere lands back on its own queue
    w1[0].step(true, &mut e.handle);
    assert!(w1[0].wake(&mut e.handle));
    let again = e.worker_drain(1);
    assert_eq!(again.len(), 1);
    assert_eq!(again[0].id, 1);
    assert_eq!(again[0].queue, 1);
}

#[test]
fn shutdown_drains_work_queued_before_the_sentinel() {
    let mut e = Executor::new(1);
    assert!(e.handle.spawn::<u64, u32>().is_ok());
    assert!(e.handle.spawn::<u64, u32>().is_ok());
    // the sentinel goes behind the two real items
    e.handle.cancel_all();
    let work = e.worker_drain(0);
    // both preceding items are processed before the worker terminates
    assert_eq!(work.iter().map(|t| t.id).collect::<Vec<_>>(), vec![0, 1]);
    // the worker exited: its queue is detached and spawning fails cleanly
    assert!(matches!(e.handle.spawn::<u64, u32>(), Err(SpawnError::Dropped)));
}

#[test]
fn cancel_before_any_spawn_fails_later_spawns() {
    let mut e = Executor::new(2);
    e.handle.cancel_all();
    // each worker sees only the sentinel and terminates at once
    assert_eq!(e.worker_drain(0).len(), 0);
    assert_eq!(e.worker_drain(1).len(), 0);
    assert!(matches!(e.handle.spawn::<u64, u32>(), Err(SpawnError::Dropped)));
    assert!(matches!(e.handle.spawn::<u64, u32>(), Err(SpawnError::Dropped)));
}

#[test]
fn work_behind_the_sentinel_is_left_unprocessed() {
    let mut e = Executor::new(1);
    assert!(e.handle.spawn::<u64, u32>().is_ok());
    e.handle.cancel_all();
    // this send races with loop exit: it lands behind the sentinel
    assert!(e.handle.spawn::<u64, u32>().is_ok());
    let work = e.worker_drain(0);
    // the worker processes what stood before the sentinel, then terminates
    assert_eq!(work.iter().map(|t| t.id).collect::<Vec<_>>(), vec![0]);
    assert_eq!(e.handle.send_pool[0].entries.len(), 1);
    assert!(!e.handle.send_pool[0].connected);
}

#[test]
fn cancel_all_is_idempotent_in_effect() {
    let mut e = Executor::new(1);
    e.handle.cancel_all();
    assert_eq!(e.worker_drain(0).len(), 0);
    // the second broadcast hits a detached queue and is dropped
    e.handle.cancel_all();
    assert_eq!(e.worker_drain(0).len(), 0);
}

#[test]
fn waking_after_shutdown_is_dropped() {
    let mut e = Executor::new(1);
    assert!(e.handle.spawn::<u64, u32>().is_ok());
    let work = e.worker_drain(0);
    work[0].step(true, &mut e.handle);
    e.handle.cancel_all();
    assert_eq!(e.worker_drain(0).len(), 0);
    // the wake still unrecords the identity, but the enqueue is dropped
    assert!(!work[0].wake(&mut e.handle));
    assert!(!e.handle.waiting_task_handle.contains(work[0].id));
}

#[test]
fn waiting_set_tracks_membership() {
    let mut ws = WaitingSet::new();
    assert!(!ws.contains(4));
    ws.insert(4);
    ws.insert(4);
    assert!(ws.contains(4));
    assert!(ws.remove(4));
    assert!(!ws.remove(4));
    assert!(!ws.contains(4));
}

#[test]
fn spawner_submits_onto_its_queue() {
    let mut s = Spawner::new(RunQueue::new());
    assert!(s.spawn(InnerTask::new(7, 0)));
    let detached = RunQueue { entries: Vec::new(), connected: false };
    let mut s2 = Spawner::new(detached);
    assert!(!s2.spawn(InnerTask::new(8, 0)));
}

#[test]
fn spawn_handle_over_fresh_queues_starts_at_zero() {
    let pool = vec![RunQueue::new(), RunQueue::new()];
    let h = SpawnHandle::new(pool, WaitingSet::new());
    assert_eq!(h.pool_size, 2);
    assert_eq!(h.next_id, 0);
    assert_eq!(h.next_regi, 0);
}

#[test]
fn zero_duration_timer_is_ready_on_first_poll() {
    let t = Timer::new(1_000, 0);
    assert_eq!(t.poll(1_000), TimerPoll::Ready);
    assert_eq!(t.poll(1_001), TimerPoll::Ready);
}

#[test]
fn pending_timer_parks_for_one_quantum() {
    let t = Timer::new(0, 50_000_000);
    assert_eq!(t.poll(10), TimerPoll::ParkUntil(10 + TIMER_RESOLUTION_NANOS));
    assert_eq!(t.poll(49_999_999), TimerPoll::ParkUntil(49_999_999 + TIMER_RESOLUTION_NANOS));
}

#[test]
fn concurrent_timers_share_one_deadline_window() {
    // two 50ms timers started together: both are due once 50ms have passed,
    // not 100ms — readiness depends on the instant alone
    let t0 = Timer::new(0, 50_000_000);
    let t1 = Timer::new(0, 50_000_000);
    assert!(matches!(t0.poll(49_999_999), TimerPoll::ParkUntil(_)));
    assert!(matches!(t1.poll(49_999_999), TimerPoll::ParkUntil(_)));
    assert_eq!(t0.poll(50_000_000), TimerPoll::Ready);
    assert_eq!(t1.poll(50_000_000), TimerPoll::Ready);
}

#[test]
fn registration_record_keeps_its_fields() {
    let t = cotask::utils::Timer::new(9, 1_500_000);
    assert_eq!(t.id, 9);
    assert_eq!(t.dur_nanos, 1_500_000);
}

#[test]
fn task_error_message_names_the_lock() {
    assert_eq!(TaskError.message(), "Task internal mutex poisoned");
}

#[test]
fn inner_task_equality_is_by_identity() {
    let a = InnerTask::new(5, 0);
    let b = InnerTask::new(5, 1);
    let c = InnerTask::new(6, 0);
    assert_eq!(a, b);
    assert!(a != c);
}
