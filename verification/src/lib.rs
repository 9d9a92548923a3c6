//! A model of a minimal cooperative task-scheduling runtime.
//!
//! Callers submit units of work ("tasks") that suspend and resume without
//! blocking a dedicated thread per unit. The library holds the verified
//! decision logic of that runtime: the suspend/resume contract of a task
//! handle and its shared completion cell, the wake/dedup protocol of the
//! scheduler-internal task wrapper, round-robin submission onto fixed run
//! queues, shutdown broadcasting, and the worker pull-loop's drain rule.
//!
//! Everything effectful that surrounds those decisions (threads, channels,
//! locks, clocks, and the advancing of user computations) lives outside the
//! library; the functions here take the outcome of such an effect as an
//! argument and say exactly what the next state and action are.

pub mod executor;
pub mod spawner;
pub mod task;
pub mod timer;
pub mod utils;
