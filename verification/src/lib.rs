//! The core of a thread pool that can run scoped and unscoped threads.
//!
//! A pool executes jobs on worker threads. A scope is a set of jobs, and is left only when all of
//! them are finished, so that jobs can borrow values from the stack of the thread that leaves the
//! scope.
//!
//! This crate decides everything that is to be decided about such a pool, and keeps account of its
//! jobs, but it runs no thread and blocks none. [`Pool`] is the state that the threads share. A
//! runtime guards it by a lock, and does as the answers say:
//!
//! * An idle worker thread takes a turn by [`Pool::run_thread`], and is told to sleep until a
//!   message was sent, to execute a job, or to terminate. It reports the end of a job by
//!   [`Pool::job_finished`], and a panic by [`Pool::thread_panicked`]. Another thread is spawned in
//!   the place of one that panicked, and takes it by [`Pool::thread_replaced`].
//! * A thread that joins a scope or the worker threads is told to sleep, to go on, or to panic.
//! * Every message that is sent wakes a sleeping worker. Every answer to a worker after which
//!   another thread could go on says that the threads that join have to be woken.
//!
//! What each operation changes, and what it leaves alone, is stated in [`effects`]. What holds of a
//! pool whatever its threads do in whatever order is stated in [`laws`].

pub mod channel;
pub mod config;
pub mod effects;
pub mod laws;
pub mod model;
pub mod pool;
pub mod scope;
pub mod wait;

pub use config::ThreadConfig;
pub use model::{Message, Turn, WorkerState};
pub use pool::Pool;
pub use scope::{JobEnd, Left, Scope};
pub use wait::{Joined, Sentinel, WaitGroup, WaitGroups};
