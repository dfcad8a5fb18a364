# yastl

Yet another scoped thread pool library, with a verified core.

* `src/` is the core. It decides what every thread of a pool has to do, and keeps account of jobs,
  scopes and worker threads. All of it is verified with Verus. It runs no thread and blocks none.
* `app/` is the thread pool built on it: it spawns the worker threads, guards the core by a lock,
  lets threads sleep and wakes them, and runs the jobs. With the feature `coz` it calls
  `coz::thread_init()` in every new thread, for the `coz` profiler.
* `tests/` drives the core on a single thread.

Within `src/`:

* `config.rs`: names and stack sizes of worker threads.
* `wait.rs`: wait groups, and the sentinels that watch over a job or a thread.
* `channel.rs`: the `flume` channel that messages travel through. What is said there of `flume` is
  trusted.
* `model.rs`: the state of a pool as a mathematical value, and how each operation changes it.
* `pool.rs`, `scope.rs`: the operations.
* `laws.rs`: what holds of every pool. Above all, a thread that joins a scope passes exactly when
  every job of the scope has ended, which is why jobs may borrow from the stack.

A panic of a job ends the worker thread that executes it, and poisons its scope and the pool.
Another thread takes the place of that worker, so that the jobs that are left are executed, however
many of them panic.

The signal to stop is sent once, and `Pool::shutdown` waits until every worker thread has
terminated.
