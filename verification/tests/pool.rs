use std::cell::{Cell, RefCell};
use yastl::{JobEnd, Joined, Left, Pool, Scope, ThreadConfig, Turn, WorkerState};

/// A job of these tests. It returns whether it came to its end without a panic.
struct Job<'a>(Box<dyn FnOnce(&mut Pool<Job<'a>>) -> bool + 'a>);

fn job<'a>(f: impl FnOnce() + 'a) -> Job<'a> {
    Job(Box::new(move |_| {
        f();
        true
    }))
}

fn panicking<'a>(f: impl FnOnce() + 'a) -> Job<'a> {
    Job(Box::new(move |_| {
        f();
        false
    }))
}

/// Lets each idle worker take a turn. Returns whether one of them found a message.
fn work(pool: &mut Pool<Job<'_>>) -> bool {
    let mut found = false;
    for id in 0..pool.worker_count() {
        if pool.worker_state(id) != WorkerState::Idle {
            continue;
        }
        match pool.run_thread(id) {
            Turn::Wait => {}
            Turn::Exit(_) => found = true,
            Turn::Execute(job) => {
                found = true;
                assert!(matches!(pool.worker_state(id), WorkerState::Running(_)));
                if (job.0)(pool) {
                    pool.job_finished(id);
                } else {
                    pool.thread_panicked(id);
                    assert_eq!(pool.worker_state(id), WorkerState::Panicked);
                    pool.thread_replaced(id);
                }
            }
        }
    }
    found
}

/// How a thread gets out of a scope.
#[derive(Debug, PartialEq)]
enum Out<R> {
    Returned(R),
    Unwinding,
    Poisoned,
    /// The scope blocks, and no worker can do anything about it.
    Stuck,
}

impl<R> Out<R> {
    /// Panics where the thread does. A thread that is stuck does not.
    fn resume(self) {
        match self {
            Out::Unwinding => panic!("unwinding"),
            Out::Poisoned => panic!("Worker Pool was poisoned"),
            Out::Returned(_) | Out::Stuck => {}
        }
    }
}

fn leave<R>(pool: &mut Pool<Job<'_>>, scope: &Scope, mut end: JobEnd<R>) -> Out<R> {
    loop {
        match scope.leave(pool, end) {
            Left::Blocked(unchanged) => {
                end = unchanged;
                if !work(pool) {
                    return Out::Stuck;
                }
            }
            Left::Returned(value) => return Out::Returned(value),
            Left::Unwind => return Out::Unwinding,
            Left::Poisoned(_) => return Out::Poisoned,
        }
    }
}

/// Leaves a scope whose scheduling job returned, and which has to be left without a panic.
fn leave_well(pool: &mut Pool<Job<'_>>, scope: &Scope) {
    assert_eq!(leave(pool, scope, JobEnd::Returned(())), Out::Returned(()));
}

fn shutdown(pool: &mut Pool<Job<'_>>) -> Joined {
    let mut answer = pool.shutdown();
    while answer == Joined::Blocked && work(pool) {
        answer = pool.join();
    }
    answer
}

#[test]
fn scope_zoom() {
    let inner = Cell::new(0);
    let outer = Cell::new(0);
    let mut pool = Pool::new(num_cpus::get());

    let scope = pool.scoped();
    let scope2 = scope.zoom(&mut pool);
    scope2.execute(&mut pool, job(|| inner.set(1)));
    leave_well(&mut pool, &scope2);
    assert_eq!(inner.get(), 1);
    outer.set(1);
    leave_well(&mut pool, &scope);

    assert_eq!(outer.get(), 1);
}

#[test]
fn scope_recurse() {
    let buf = RefCell::new([0, 1, 0, 0]);
    let buf = &buf;
    let mut pool = Pool::new(num_cpus::get());

    let next = pool.scoped();
    next.recurse(&mut pool, |next| {
        Job(Box::new(move |pool: &mut Pool<Job<'_>>| {
            buf.borrow_mut()[0] += 1;
            buf.borrow_mut()[1] += 14;

            next.execute(
                pool,
                job(move || {
                    buf.borrow_mut()[2] = 12;
                    buf.borrow_mut()[3] = 543;
                }),
            );
            true
        }))
    });
    leave_well(&mut pool, &next);

    assert_eq!(&*buf.borrow(), &[1, 15, 12, 543]);
}

#[test]
fn spawn_doesnt_block() {
    let mut pool: Pool<Job<'_>> = Pool::new(num_cpus::get());
    pool.spawn(job(|| {}));

    // the job is executed, and never comes to its end
    assert!(matches!(pool.run_thread(0), Turn::Execute(_)));
    assert!(matches!(pool.worker_state(0), WorkerState::Running(_)));

    // nobody has to wait for it
    let scope = pool.scoped();
    assert_eq!(scope.join(&pool), Joined::Done);
}

#[test]
fn scope_forever_zoom() {
    let ran = Cell::new(false);
    let mut pool = Pool::new(num_cpus::get());
    let forever = Scope::forever(&mut pool);

    let scope = forever.zoom(&mut pool);
    scope.execute(&mut pool, job(|| ran.set(true)));
    leave_well(&mut pool, &scope);
    assert!(ran.get());
}

#[test]
fn pool_shutdown() {
    let mut pool = Pool::new(num_cpus::get());
    assert_eq!(shutdown(&mut pool), Joined::Done);
    for id in 0..pool.worker_count() {
        assert_eq!(pool.worker_state(id), WorkerState::Stopped);
    }
}

#[test]
#[should_panic]
fn task_panic() {
    let mut pool = Pool::new(num_cpus::get());
    let scope = pool.scoped();
    leave::<()>(&mut pool, &scope, JobEnd::Panicked).resume();
}

#[test]
#[should_panic]
fn scoped_execute_panic() {
    let mut pool = Pool::new(num_cpus::get());
    let scope = pool.scoped();
    scope.execute(&mut pool, panicking(|| {}));
    leave(&mut pool, &scope, JobEnd::Returned(())).resume();
}

#[test]
#[should_panic]
fn pool_panic() {
    let _pool: Pool<Job<'_>> = Pool::new(num_cpus::get());
    panic!();
}

#[test]
#[should_panic]
fn zoomed_scoped_execute_panic() {
    let mut pool = Pool::new(num_cpus::get());
    let scope = pool.scoped();
    let scope2 = scope.zoom(&mut pool);
    scope2.execute(&mut pool, panicking(|| {}));
    leave(&mut pool, &scope2, JobEnd::Returned(())).resume();
}

#[test]
#[should_panic]
fn recurse_scheduler_panic() {
    let mut pool = Pool::new(num_cpus::get());
    let scope = pool.scoped();
    scope.recurse(&mut pool, |_| panicking(|| {}));
    leave(&mut pool, &scope, JobEnd::Returned(())).resume();
}

#[test]
#[should_panic]
fn recurse_execute_panic() {
    let mut pool = Pool::new(num_cpus::get());
    let scope = pool.scoped();
    scope.recurse(&mut pool, |scope2| {
        Job(Box::new(move |pool: &mut Pool<Job<'_>>| {
            scope2.execute(pool, panicking(|| {}));
            true
        }))
    });
    leave(&mut pool, &scope, JobEnd::Returned(())).resume();
}

#[test]
fn no_thread_config() {
    let name = RefCell::new(String::new());
    let mut pool = Pool::new(1);

    let scope = pool.scoped();
    scope.execute(
        &mut pool,
        Job(Box::new(|pool| {
            let (current, stack_size) = pool.worker_thread(0);
            *name.borrow_mut() = current.to_string();
            stack_size.is_none()
        })),
    );
    leave_well(&mut pool, &scope);

    assert_eq!(*name.borrow(), "worker-thread-1");
}

#[test]
fn with_thread_config() {
    let name = RefCell::new(String::new());
    let config = ThreadConfig::new().prefix("pool");

    let mut pool = Pool::with_config(1, config);

    let scope = pool.scoped();
    scope.execute(
        &mut pool,
        Job(Box::new(|pool| {
            *name.borrow_mut() = pool.worker_thread(0).0.to_string();
            true
        })),
    );
    leave_well(&mut pool, &scope);

    assert_eq!(*name.borrow(), "pool-1");
}

/// Adds 50 jobs to a scope, and after every tenth, beginning with the first, one that panics. Each
/// job counts itself when it is executed.
fn add_tasks_some_of_which_panic<'a>(
    pool: &mut Pool<Job<'a>>,
    scope: &Scope,
    counter: &'a Cell<usize>,
) {
    let tasks = 50;
    let panicking_task_fraction = 10;

    for task in 0..tasks {
        scope.execute(pool, job(|| counter.set(counter.get() + 1)));
        if task % panicking_task_fraction == 0 {
            scope.execute(pool, panicking(|| counter.set(counter.get() + 1)));
        }
    }
}

// The scope panics only if all tasks were executed by then.
#[test]
#[should_panic]
fn scoped_panic_waits_for_all_tasks() {
    let tasks = 50;
    let panicking_tasks = tasks / 10;
    let expected = tasks + panicking_tasks;

    let counter = Cell::new(0);
    let mut pool = Pool::new(num_cpus::get());
    let scope = pool.scoped();
    add_tasks_some_of_which_panic(&mut pool, &scope, &counter);
    let out = leave(&mut pool, &scope, JobEnd::Returned(()));
    if counter.get() == expected {
        out.resume();
    }
}

#[test]
fn a_panic_does_not_cut_a_scope_short() {
    let counter = Cell::new(0);
    let mut pool = Pool::new(2);
    let scope = pool.scoped();
    add_tasks_some_of_which_panic(&mut pool, &scope, &counter);
    while scope.join(&pool) == Joined::Blocked {
        assert!(counter.get() <= 55);
        assert!(work(&mut pool));
    }
    assert_eq!(counter.get(), 55);
    assert_eq!(scope.join(&pool), Joined::Poisoned);
    assert!(matches!(
        scope.leave(&mut pool, JobEnd::Returned(7)),
        Left::Poisoned(JobEnd::Returned(7))
    ));
    assert!(!scope.in_use(&pool));
}

#[test]
#[should_panic]
fn scheduler_panic_waits_for_tasks() {
    let counter = Cell::new(0);
    let mut pool = Pool::new(num_cpus::get());
    let scope = pool.scoped();
    for _ in 0..50 {
        scope.execute(&mut pool, job(|| counter.set(counter.get() + 1)));
    }
    let out = leave::<()>(&mut pool, &scope, JobEnd::Panicked);
    if counter.get() == 50 {
        out.resume();
    }
}

#[test]
fn a_scheduler_panic_goes_on_after_all_tasks() {
    let counter = Cell::new(0);
    let mut pool = Pool::new(3);
    let scope = pool.scoped();
    for _ in 0..50 {
        scope.execute(&mut pool, job(|| counter.set(counter.get() + 1)));
    }
    let mut left = scope.leave::<_, ()>(&mut pool, JobEnd::Panicked);
    while let Left::Blocked(end) = left {
        assert!(counter.get() < 50);
        work(&mut pool);
        left = scope.leave(&mut pool, end);
    }
    assert!(matches!(left, Left::Unwind));
    assert_eq!(counter.get(), 50);
}

#[test]
fn jobs_borrow_the_list() {
    let mut list = vec![1, 2, 3, 4, 5];
    {
        let mut pool = Pool::new(4);
        let scope = pool.scoped();
        for x in list.iter_mut() {
            scope.execute(&mut pool, job(move || *x += 2));
        }
        leave_well(&mut pool, &scope);
    }
    assert_eq!(list, vec![3, 4, 5, 6, 7]);
}

#[test]
fn the_value_of_the_scheduling_job_is_returned() {
    let mut pool = Pool::new(2);
    let scope = pool.scoped();
    scope.execute(&mut pool, job(|| {}));
    assert_eq!(
        leave(&mut pool, &scope, JobEnd::Returned("value")),
        Out::Returned("value")
    );
}

#[test]
fn jobs_are_executed_in_the_order_they_were_added() {
    let mut pool: Pool<u32> = Pool::new(3);
    let first = pool.scoped();
    let second = pool.scoped();
    first.execute(&mut pool, 10);
    second.execute(&mut pool, 20);
    pool.spawn(30);
    first.execute(&mut pool, 40);

    assert!(matches!(pool.run_thread(2), Turn::Execute(10)));
    assert!(matches!(pool.run_thread(0), Turn::Execute(20)));
    assert!(!pool.job_finished(2));
    assert!(matches!(pool.run_thread(2), Turn::Execute(30)));
    assert!(pool.job_finished(0));
    assert!(matches!(pool.run_thread(1), Turn::Execute(40)));
    assert!(matches!(pool.run_thread(0), Turn::Wait));
}

#[test]
fn scopes_are_joined_separately() {
    let mut pool: Pool<u32> = Pool::new(2);
    let outer = pool.scoped();
    let inner = outer.zoom(&mut pool);
    outer.execute(&mut pool, 1);
    inner.execute(&mut pool, 2);
    assert_eq!(outer.join(&pool), Joined::Blocked);
    assert_eq!(inner.join(&pool), Joined::Blocked);

    assert!(matches!(pool.run_thread(0), Turn::Execute(1)));
    assert!(matches!(pool.run_thread(1), Turn::Execute(2)));
    assert_eq!(inner.join(&pool), Joined::Blocked);
    assert!(pool.job_finished(1));
    assert_eq!(inner.join(&pool), Joined::Done);
    assert_eq!(outer.join(&pool), Joined::Blocked);

    assert_eq!(pool.thread_panicked(0), (true, false));
    assert_eq!(inner.join(&pool), Joined::Done);
    assert_eq!(outer.join(&pool), Joined::Poisoned);
    assert_eq!(pool.worker_state(0), WorkerState::Panicked);
    assert_eq!(pool.worker_state(1), WorkerState::Idle);
}

#[test]
fn a_panic_leaves_the_other_jobs_to_another_thread() {
    let x = Cell::new(0);
    let mut pool = Pool::new(1);
    let scope = pool.scoped();
    scope.execute(&mut pool, panicking(|| {}));
    scope.execute(&mut pool, job(|| x.set(x.get() + 1)));
    assert_eq!(leave(&mut pool, &scope, JobEnd::Returned(())), Out::Poisoned);
    assert_eq!(x.get(), 1);
    assert_eq!(pool.worker_state(0), WorkerState::Idle);
    assert_eq!(pool.worker_thread(0), ("worker-thread-1", None));
    assert_eq!(shutdown(&mut pool), Joined::Poisoned);
    assert_eq!(pool.worker_state(0), WorkerState::Stopped);
}

#[test]
fn a_replaced_worker_counts_again() {
    let mut pool: Pool<u32> = Pool::new(1);
    assert_eq!(pool.shutdown(), Joined::Blocked);
    assert_eq!(pool.thread_panicked(0), (false, true));
    assert_eq!(pool.join(), Joined::Poisoned);
    pool.thread_replaced(0);
    assert_eq!(pool.worker_state(0), WorkerState::Idle);
    assert_eq!(pool.join(), Joined::Blocked);
    assert!(matches!(pool.run_thread(0), Turn::Exit(true)));
    assert_eq!(pool.join(), Joined::Poisoned);
}

#[test]
fn a_subscope_does_not_mind_its_parent() {
    let mut pool: Pool<u32> = Pool::new(3);
    let parent = pool.scoped();
    parent.execute(&mut pool, 1);
    parent.execute(&mut pool, 2);
    assert!(matches!(pool.run_thread(0), Turn::Execute(1)));
    pool.thread_panicked(0);
    pool.thread_replaced(0);

    let inner = parent.zoom(&mut pool);
    assert!(matches!(
        inner.leave(&mut pool, JobEnd::Returned(4)),
        Left::Returned(4)
    ));
    assert_eq!(parent.join(&pool), Joined::Blocked);
    assert!(matches!(pool.run_thread(1), Turn::Execute(2)));
    assert!(pool.job_finished(1));
    assert_eq!(parent.join(&pool), Joined::Poisoned);
}

#[test]
fn a_recursive_job_is_waited_for() {
    let mut pool: Pool<u32> = Pool::new(1);
    let scope = pool.scoped();
    let mut handle = None;
    scope.recurse(&mut pool, |clone| {
        handle = Some(clone);
        1
    });
    assert!(matches!(pool.run_thread(0), Turn::Execute(1)));
    handle.unwrap().execute(&mut pool, 2);
    assert!(!pool.job_finished(0));
    assert_eq!(scope.join(&pool), Joined::Blocked);
    assert!(matches!(pool.run_thread(0), Turn::Execute(2)));
    assert!(pool.job_finished(0));
    assert_eq!(scope.join(&pool), Joined::Done);
}

#[test]
fn jobs_that_wait_are_started_before_the_workers_stop() {
    let counter = Cell::new(0);
    let mut pool = Pool::new(2);
    for _ in 0..5 {
        pool.spawn(job(|| counter.set(counter.get() + 1)));
    }
    assert_eq!(shutdown(&mut pool), Joined::Done);
    assert_eq!(counter.get(), 5);
}

#[test]
fn a_scope_of_a_stopped_pool_is_stuck() {
    let mut pool = Pool::new(1);
    assert_eq!(shutdown(&mut pool), Joined::Done);
    let scope = pool.scoped();
    scope.execute(&mut pool, job(|| {}));
    assert_eq!(leave(&mut pool, &scope, JobEnd::Returned(())), Out::Stuck);
}

#[test]
fn a_closed_scope_lasts_until_its_jobs_are_finished() {
    let mut pool: Pool<u32> = Pool::new(1);
    let scope = pool.scoped();
    let idle = pool.scoped();
    let mut handle = None;
    scope.recurse(&mut pool, |clone| {
        handle = Some(clone);
        5
    });
    let clone = handle.unwrap();
    assert!(clone.in_use(&pool));
    scope.close(&mut pool);
    assert!(clone.in_use(&pool));
    assert!(clone.has_room(&pool));

    assert!(matches!(pool.run_thread(0), Turn::Execute(5)));
    assert!(clone.in_use(&pool));
    assert!(pool.job_finished(0));
    assert!(!clone.in_use(&pool));
    assert!(!clone.has_room(&pool));

    assert!(idle.in_use(&pool));
    assert_eq!(idle.join(&pool), Joined::Done);
}

#[test]
fn one_signal_stops_every_worker() {
    let mut pool: Pool<u32> = Pool::new(3);
    assert_eq!(pool.join(), Joined::Blocked);
    assert_eq!(pool.shutdown(), Joined::Blocked);
    pool.spawn(9);

    assert!(matches!(pool.run_thread(1), Turn::Exit(false)));
    assert_eq!(pool.worker_state(1), WorkerState::Stopped);
    // the signal went behind the job
    assert!(matches!(pool.run_thread(0), Turn::Execute(9)));
    assert!(matches!(pool.run_thread(2), Turn::Exit(false)));
    assert_eq!(pool.join(), Joined::Blocked);
    pool.job_finished(0);
    assert!(matches!(pool.run_thread(0), Turn::Exit(true)));
    assert_eq!(pool.join(), Joined::Done);
}

#[test]
fn shutdown_after_a_panic_is_poisoned() {
    let mut pool = Pool::new(3);
    pool.spawn(panicking(|| {}));
    assert!(work(&mut pool));
    assert_eq!(shutdown(&mut pool), Joined::Poisoned);
}

#[test]
fn the_last_worker_that_panics_wakes_those_who_wait() {
    let mut pool: Pool<u32> = Pool::new(1);
    assert_eq!(pool.shutdown(), Joined::Blocked);
    assert_eq!(pool.thread_panicked(0), (false, true));
    assert_eq!(pool.join(), Joined::Poisoned);
}

#[test]
fn workers_are_numbered_from_one() {
    let config = ThreadConfig::new().stack_size(65536).prefix("w");
    let pool: Pool<u32> = Pool::with_config(12, config);
    assert_eq!(pool.worker_count(), 12);
    for id in 0..12 {
        let name = format!("w-{}", id + 1);
        assert_eq!(pool.worker_thread(id), (name.as_str(), Some(65536)));
        assert_eq!(pool.worker_state(id), WorkerState::Idle);
        for other in 0..id {
            assert_ne!(pool.worker_thread(other).0, name);
        }
    }
}
