//! What holds of a pool, whatever happens to it in whatever order.

use crate::config::{decimal, digit, worker_name_spec, ConfigState};
use crate::model::{
    alive, count, job_of, lemma_count_drop_first, lemma_count_push, lemma_count_update, lemma_count_zero,
    runs_job_of, Message, PoolState, Turn, WorkerState,
};
use crate::scope::{left_spec, JobEnd, Left};
use crate::wait::WaitState;
use vstd::prelude::*;

verus! {

/// Something that happens to a pool.
pub enum Event<J> {
    /// A scope is opened, under a number that is not in use.
    Open(u64),
    /// A job is added to a scope.
    Execute(u64, J),
    /// The owner of a scope gives it up.
    Close(u64),
    /// The signal to stop is sent.
    Stop,
    /// A worker takes a turn.
    Receive(int),
    /// A worker is done with its job.
    Finish(int),
    /// A worker panics.
    Panic(int),
    /// Another thread takes the place of a worker that panicked.
    Replace(int),
}

/// Whether an event can happen.
pub open spec fn enabled<J>(pool: PoolState<J>, event: Event<J>) -> bool {
    match event {
        Event::Open(id) => !pool.groups.contains_key(id),
        Event::Execute(id, _) => pool.has_scope(id) && pool.groups[id].wait.pending < usize::MAX,
        Event::Close(id) => pool.has_scope(id),
        Event::Stop => true,
        Event::Receive(worker) => 0 <= worker < pool.workers.len() && pool.workers[worker]
            == WorkerState::Idle,
        Event::Finish(worker) => 0 <= worker < pool.workers.len()
            && pool.workers[worker] is Running,
        Event::Panic(worker) => 0 <= worker < pool.workers.len() && (pool.workers[worker] is Idle
            || pool.workers[worker] is Running),
        Event::Replace(worker) => 0 <= worker < pool.workers.len()
            && pool.workers[worker] is Panicked,
    }
}

/// The state of a pool after an event.
pub open spec fn after<J>(pool: PoolState<J>, event: Event<J>) -> PoolState<J> {
    match event {
        Event::Open(id) => pool.opened(id),
        Event::Execute(id, job) => pool.executed(id, job),
        Event::Close(id) => pool.closed(id),
        Event::Stop => pool.stop_sent(),
        Event::Receive(worker) => pool.received(worker),
        Event::Finish(worker) => pool.finished(worker),
        Event::Panic(worker) => pool.panicked(worker),
        Event::Replace(worker) => pool.replaced(worker),
    }
}

/// The state of a pool after a history of events.
pub open spec fn after_all<J>(pool: PoolState<J>, events: Seq<Event<J>>) -> PoolState<J>
    decreases events.len(),
{
    if events.len() == 0 {
        pool
    } else {
        after(after_all(pool, events.drop_last()), events.last())
    }
}

/// Whether a history of events can happen.
pub open spec fn possible<J>(pool: PoolState<J>, events: Seq<Event<J>>) -> bool
    decreases events.len(),
{
    events.len() > 0 ==> possible(pool, events.drop_last()) && enabled(
        after_all(pool, events.drop_last()),
        events.last(),
    )
}

/// Every operation keeps a pool consistent.
pub proof fn law_operations_keep_consistency<J>(pool: PoolState<J>, event: Event<J>)
    requires
        pool.consistent(),
        enabled(pool, event),
    ensures
        after(pool, event).consistent(),
{
    match event {
        Event::Open(id) => pool.lemma_opened(id),
        Event::Execute(id, job) => pool.lemma_executed(id, job),
        Event::Close(id) => pool.lemma_closed(id),
        Event::Stop => pool.lemma_stop_sent(),
        Event::Receive(worker) => pool.lemma_received(worker),
        Event::Finish(worker) => pool.lemma_finished(worker),
        Event::Panic(worker) => pool.lemma_panicked(worker),
        Event::Replace(worker) => pool.lemma_replaced(worker),
    }
}

/// A new pool is consistent, and whatever happens to it, it stays consistent.
pub proof fn law_reachable_pools_are_consistent<J>(
    n: nat,
    config: ConfigState,
    events: Seq<Event<J>>,
)
    requires
        n <= usize::MAX,
        possible(PoolState::<J>::initial(n, config), events),
    ensures
        after_all(PoolState::<J>::initial(n, config), events).consistent(),
{
    PoolState::<J>::lemma_initial(n, config);
    law_pools_stay_consistent(PoolState::<J>::initial(n, config), events);
}

/// Whatever happens to a consistent pool, it stays consistent.
pub proof fn law_pools_stay_consistent<J>(pool: PoolState<J>, events: Seq<Event<J>>)
    requires
        pool.consistent(),
        possible(pool, events),
    ensures
        after_all(pool, events).consistent(),
    decreases events.len(),
{
    if events.len() > 0 {
        law_pools_stay_consistent(pool, events.drop_last());
        law_operations_keep_consistency(after_all(pool, events.drop_last()), events.last());
    }
}

/// Joining a scope lets a thread pass exactly when no job of the scope is queued, and none is
/// being executed. So whatever the jobs borrow is not used after the join.
pub proof fn law_join_waits_for_jobs<J>(pool: PoolState<J>, id: u64)
    requires
        pool.consistent(),
        pool.has_scope(id),
    ensures
        pool.joined(id) is Blocked <==> (exists|i: int|
            0 <= i < pool.queue.len() && (#[trigger] pool.queue[i] matches Message::Job(_, group)
                && group == id)) || (exists|worker: int|
            0 <= worker < pool.workers.len() && #[trigger] pool.workers[worker]
                == WorkerState::Running(id)),
{
    assert(pool.accounted(id));
    lemma_count_zero(pool.queue, job_of(id));
    lemma_count_zero(pool.workers, runs_job_of(id));
    if pool.queued(id) > 0 {
        let i = choose|i: int| 0 <= i < pool.queue.len() && job_of(id)(#[trigger] pool.queue[i]);
        assert(pool.queue[i] matches Message::Job(_, group) && group == id);
    }
    if pool.running(id) > 0 {
        let worker = choose|worker: int|
            0 <= worker < pool.workers.len() && runs_job_of(id)(#[trigger] pool.workers[worker]);
        assert(pool.workers[worker] == WorkerState::Running(id));
    }
}

/// A job that was added to a scope has to be waited for.
pub proof fn law_added_job_blocks_its_scope<J>(pool: PoolState<J>, id: u64, job: J)
    requires
        enabled(pool, Event::Execute(id, job)),
    ensures
        pool.executed(id, job).has_scope(id),
        pool.executed(id, job).joined(id) is Blocked,
{
}

/// A scope that was given up is in use only as long as jobs of it are queued or being executed.
pub proof fn law_closed_scope_is_forgotten<J>(pool: PoolState<J>, id: u64)
    requires
        pool.consistent(),
        pool.has_scope(id),
        !pool.groups[id].open,
    ensures
        pool.queued(id) + pool.running(id) > 0,
{
    assert(pool.accounted(id));
}

/// How many jobs a history adds to scope `id`.
pub open spec fn added<J>(events: Seq<Event<J>>, id: u64) -> nat
    decreases events.len(),
{
    if events.len() == 0 {
        0
    } else {
        added(events.drop_last(), id) + if events.last() matches Event::Execute(group, _) && group
            == id {
            1nat
        } else {
            0
        }
    }
}

/// Whether an event is the end of a job of scope `id`, by returning or by a panic.
pub open spec fn ends_job<J>(pool: PoolState<J>, event: Event<J>, id: u64) -> bool {
    match event {
        Event::Finish(worker) => pool.workers[worker] == WorkerState::Running(id),
        Event::Panic(worker) => pool.workers[worker] == WorkerState::Running(id),
        _ => false,
    }
}

/// How many jobs of scope `id` end in a history.
pub open spec fn ended<J>(pool: PoolState<J>, events: Seq<Event<J>>, id: u64) -> nat
    decreases events.len(),
{
    if events.len() == 0 {
        0
    } else {
        ended(pool, events.drop_last(), id) + if ends_job(
            after_all(pool, events.drop_last()),
            events.last(),
            id,
        ) {
            1nat
        } else {
            0
        }
    }
}

/// No job gets lost and none comes from nowhere: the jobs of a scope that are queued or being
/// executed are those that were, and those that were added, less those that ended.
pub proof fn law_jobs_are_accounted_for<J>(pool: PoolState<J>, events: Seq<Event<J>>, id: u64)
    requires
        possible(pool, events),
    ensures
        after_all(pool, events).queued(id) + after_all(pool, events).running(id) + ended(
            pool,
            events,
            id,
        ) == pool.queued(id) + pool.running(id) + added(events, id),
    decreases events.len(),
{
    if events.len() > 0 {
        let before = after_all(pool, events.drop_last());
        law_jobs_are_accounted_for(pool, events.drop_last(), id);
        match events.last() {
            Event::Open(_) => {},
            Event::Execute(group, job) => {
                lemma_count_push(before.queue, Message::Job(job, group), job_of(id));
            },
            Event::Close(_) => {},
            Event::Stop => {
                lemma_count_push(before.queue, Message::<J>::Stop, job_of(id));
            },
            Event::Receive(worker) => {
                if before.queue.len() > 0 {
                    let state = before.received(worker).workers[worker];
                    lemma_count_drop_first(before.queue, job_of(id));
                    lemma_count_push(before.queue.drop_first(), Message::<J>::Stop, job_of(id));
                    lemma_count_update(before.workers, worker, state, runs_job_of(id));
                }
            },
            Event::Finish(worker) => {
                lemma_count_update(before.workers, worker, WorkerState::Idle, runs_job_of(id));
            },
            Event::Panic(worker) => {
                lemma_count_update(before.workers, worker, WorkerState::Panicked, runs_job_of(id));
            },
            Event::Replace(worker) => {
                lemma_count_update(before.workers, worker, WorkerState::Idle, runs_job_of(id));
            },
        }
    }
}

/// A scope blocks exactly until all jobs ended that it had, or that were added to it, by whomever.
pub proof fn law_scope_blocks_until_its_jobs_end<J>(
    pool: PoolState<J>,
    events: Seq<Event<J>>,
    id: u64,
)
    requires
        pool.consistent(),
        possible(pool, events),
        after_all(pool, events).has_scope(id),
    ensures
        after_all(pool, events).joined(id) is Blocked <==> ended(pool, events, id) < pool.queued(id)
            + pool.running(id) + added(events, id),
        ended(pool, events, id) <= pool.queued(id) + pool.running(id) + added(events, id),
{
    law_jobs_are_accounted_for(pool, events, id);
    law_pools_stay_consistent(pool, events);
    assert(after_all(pool, events).accounted(id));
}

/// A scope guarantees that its jobs are finished: whatever happens after a scope was opened, as
/// long as its owner does not give it up, it is in use, and a thread that joins it passes only when
/// as many jobs of it ended as were added to it.
pub proof fn law_scope_outlives_its_jobs<J>(pool: PoolState<J>, events: Seq<Event<J>>, id: u64)
    requires
        pool.consistent(),
        !pool.groups.contains_key(id),
        possible(pool.opened(id), events),
        absent(events, Event::Close(id)),
    ensures
        after_all(pool.opened(id), events).has_scope(id),
        after_all(pool.opened(id), events).joined(id) is Blocked <==> ended(
            pool.opened(id),
            events,
            id,
        ) < added(events, id),
        ended(pool.opened(id), events, id) <= added(events, id),
{
    pool.lemma_opened(id);
    assert(pool.accounted(id));
    law_owned_scope_stays_in_use(pool.opened(id), events, id);
    law_scope_blocks_until_its_jobs_end(pool.opened(id), events, id);
}

/// The jobs among the messages of a queue, in their order.
pub open spec fn jobs<J>(queue: Seq<Message<J>>) -> Seq<(J, u64)>
    decreases queue.len(),
{
    if queue.len() == 0 {
        Seq::empty()
    } else {
        match queue.last() {
            Message::Stop => jobs(queue.drop_last()),
            Message::Job(job, id) => jobs(queue.drop_last()).push((job, id)),
        }
    }
}

/// The jobs that a history adds to scopes, in their order.
pub open spec fn added_jobs<J>(events: Seq<Event<J>>) -> Seq<(J, u64)>
    decreases events.len(),
{
    if events.len() == 0 {
        Seq::empty()
    } else {
        match events.last() {
            Event::Execute(id, job) => added_jobs(events.drop_last()).push((job, id)),
            _ => added_jobs(events.drop_last()),
        }
    }
}

/// The jobs that workers are told to execute in a history, in their order, each with the group that
/// its worker counts in from then on.
pub open spec fn started_jobs<J>(pool: PoolState<J>, events: Seq<Event<J>>) -> Seq<(J, u64)>
    decreases events.len(),
{
    if events.len() == 0 {
        Seq::empty()
    } else {
        let before = after_all(pool, events.drop_last());
        let started = started_jobs(pool, events.drop_last());
        match events.last() {
            Event::Receive(worker) => match before.turn() {
                Turn::Execute(job) => started.push(
                    (job, after_all(pool, events).workers[worker]->Running_0),
                ),
                _ => started,
            },
            _ => started,
        }
    }
}

proof fn lemma_jobs_push<J>(queue: Seq<Message<J>>, message: Message<J>)
    ensures
        jobs(queue.push(message)) == match message {
            Message::Stop => jobs(queue),
            Message::Job(job, id) => jobs(queue).push((job, id)),
        },
{
    assert(queue.push(message).drop_last() =~= queue);
}

proof fn lemma_jobs_drop_first<J>(queue: Seq<Message<J>>)
    requires
        queue.len() > 0,
    ensures
        jobs(queue) == match queue[0] {
            Message::Stop => jobs(queue.drop_first()),
            Message::Job(job, id) => seq![(job, id)] + jobs(queue.drop_first()),
        },
    decreases queue.len(),
{
    if queue.len() == 1 {
        assert(queue.drop_last() =~= Seq::empty());
        assert(queue.drop_first() =~= Seq::empty());
        assert(jobs(queue) =~= match queue[0] {
            Message::Stop => jobs(queue.drop_first()),
            Message::Job(job, id) => seq![(job, id)] + jobs(queue.drop_first()),
        });
    } else {
        lemma_jobs_drop_first(queue.drop_last());
        assert(queue.drop_last().drop_first() =~= queue.drop_first().drop_last());
        assert(jobs(queue) =~= match queue[0] {
            Message::Stop => jobs(queue.drop_first()),
            Message::Job(job, id) => seq![(job, id)] + jobs(queue.drop_first()),
        });
    }
}

/// Every job that is added is started at most once, and jobs are started in the order in which
/// they were added: the jobs that were started, followed by those that are queued, are those that
/// were queued, followed by those that were added.
pub proof fn law_jobs_start_in_order_and_once<J>(pool: PoolState<J>, events: Seq<Event<J>>)
    requires
        possible(pool, events),
    ensures
        started_jobs(pool, events) + jobs(after_all(pool, events).queue) == jobs(pool.queue)
            + added_jobs(events),
    decreases events.len(),
{
    if events.len() == 0 {
        assert(started_jobs(pool, events) + jobs(pool.queue) =~= jobs(pool.queue) + added_jobs(
            events,
        ));
    } else {
        let before = after_all(pool, events.drop_last());
        let now = after_all(pool, events);
        law_jobs_start_in_order_and_once(pool, events.drop_last());
        let started = started_jobs(pool, events.drop_last());
        let all = jobs(pool.queue) + added_jobs(events.drop_last());
        match events.last() {
            Event::Execute(id, job) => {
                lemma_jobs_push(before.queue, Message::Job(job, id));
                assert(started + jobs(now.queue) =~= all.push((job, id)));
                assert(all.push((job, id)) =~= jobs(pool.queue) + added_jobs(events));
            },
            Event::Stop => {
                lemma_jobs_push(before.queue, Message::<J>::Stop);
            },
            Event::Receive(_) => {
                if before.queue.len() > 0 {
                    lemma_jobs_drop_first(before.queue);
                    lemma_jobs_push(before.queue.drop_first(), Message::<J>::Stop);
                    if let Message::Job(job, id) = before.queue[0] {
                        assert(started.push((job, id)) + jobs(now.queue) =~= started + jobs(
                            before.queue,
                        ));
                    }
                }
            },
            _ => {},
        }
        assert(started_jobs(pool, events) + jobs(now.queue) =~= jobs(pool.queue) + added_jobs(
            events,
        ));
    }
}

/// The number of workers and the wait group that counts them stay the same.
proof fn lemma_workers_stay<J>(pool: PoolState<J>, events: Seq<Event<J>>)
    requires
        possible(pool, events),
    ensures
        after_all(pool, events).wait == pool.wait,
        after_all(pool, events).workers.len() == pool.workers.len(),
    decreases events.len(),
{
    if events.len() > 0 {
        lemma_workers_stay(pool, events.drop_last());
    }
}

/// A job that is received, or that ends, has a scope.
proof fn lemma_job_has_scope<J>(pool: PoolState<J>, event: Event<J>)
    requires
        pool.consistent(),
        enabled(pool, event),
    ensures
        event is Receive && pool.queue.len() > 0 ==> (pool.queue[0] matches Message::Job(_, id)
            ==> pool.has_scope(id)),
        event matches Event::Finish(worker) ==> pool.has_scope(pool.workers[worker]->Running_0),
        event matches Event::Panic(worker) ==> (pool.workers[worker] matches WorkerState::Running(
            id,
        ) ==> pool.has_scope(id)),
{
    match event {
        Event::Receive(worker) => pool.lemma_received(worker),
        Event::Finish(worker) => pool.lemma_finished(worker),
        Event::Panic(worker) => pool.lemma_panicked(worker),
        _ => {},
    }
}

/// Whether an event does not occur in a history.
pub open spec fn absent<J>(events: Seq<Event<J>>, event: Event<J>) -> bool {
    forall|i: int| 0 <= i < events.len() ==> #[trigger] events[i] != event
}

proof fn lemma_absent_earlier<J>(events: Seq<Event<J>>, event: Event<J>)
    requires
        events.len() > 0,
        absent(events, event),
    ensures
        absent(events.drop_last(), event),
        events.last() != event,
{
    assert forall|i: int| 0 <= i < events.drop_last().len() implies #[trigger] events.drop_last()[i]
        != event by {
        assert(events[i] != event);
    }
    assert(events[events.len() - 1] != event);
}

/// A scope with an owner stays in use, whatever happens, until the owner gives it up.
pub proof fn law_owned_scope_stays_in_use<J>(pool: PoolState<J>, events: Seq<Event<J>>, id: u64)
    requires
        pool.consistent(),
        pool.has_scope(id),
        pool.groups[id].open,
        possible(pool, events),
        absent(events, Event::Close(id)),
    ensures
        after_all(pool, events).has_scope(id),
        after_all(pool, events).groups[id].open,
    decreases events.len(),
{
    if events.len() > 0 {
        let before = after_all(pool, events.drop_last());
        lemma_absent_earlier(events, Event::Close(id));
        law_owned_scope_stays_in_use(pool, events.drop_last(), id);
        law_pools_stay_consistent(pool, events.drop_last());
        lemma_job_has_scope(before, events.last());
    }
}

/// The number of a scope with an owner is not given out again.
proof fn lemma_owned_scope_is_not_opened<J>(pool: PoolState<J>, events: Seq<Event<J>>, id: u64)
    requires
        pool.consistent(),
        pool.has_scope(id),
        pool.groups[id].open,
        possible(pool, events),
        absent(events, Event::Close(id)),
    ensures
        absent(events, Event::Open(id)),
    decreases events.len(),
{
    if events.len() > 0 {
        let earlier = events.drop_last();
        lemma_absent_earlier(events, Event::Close(id));
        lemma_owned_scope_is_not_opened(pool, earlier, id);
        law_owned_scope_stays_in_use(pool, earlier, id);
        assert forall|i: int| 0 <= i < events.len() implies #[trigger] events[i] != Event::<
            J,
        >::Open(id) by {
            if i < earlier.len() {
                assert(earlier[i] != Event::<J>::Open(id));
            }
        }
    }
}

/// Whether a job of scope `id` panics in a history.
pub open spec fn job_panics<J>(pool: PoolState<J>, events: Seq<Event<J>>, id: u64) -> bool
    decreases events.len(),
{
    events.len() > 0 && (job_panics(pool, events.drop_last(), id) || (
    events.last() matches Event::Panic(worker) && after_all(
        pool,
        events.drop_last(),
    ).workers[worker] == WorkerState::Running(id)))
}

/// Joining a scope makes a thread panic exactly when all jobs of the scope ended, and one of them
/// panicked. A panic does not let a thread pass before the other jobs of the scope ended. This holds
/// as long as the scope is in use, and its number was not given to another one.
pub proof fn law_join_reports_panics<J>(pool: PoolState<J>, events: Seq<Event<J>>, id: u64)
    requires
        pool.consistent(),
        pool.has_scope(id),
        possible(pool, events),
        absent(events, Event::Open(id)),
        after_all(pool, events).has_scope(id),
    ensures
        after_all(pool, events).groups[id].wait.poisoned <==> pool.groups[id].wait.poisoned
            || job_panics(pool, events, id),
        after_all(pool, events).joined(id) is Poisoned <==> after_all(pool, events).queued(id)
            + after_all(pool, events).running(id) == 0 && (pool.groups[id].wait.poisoned
            || job_panics(pool, events, id)),
    decreases events.len(),
{
    law_pools_stay_consistent(pool, events);
    assert(after_all(pool, events).accounted(id));
    if events.len() > 0 {
        let before = after_all(pool, events.drop_last());
        law_pools_stay_consistent(pool, events.drop_last());
        lemma_absent_earlier(events, Event::Open(id));
        lemma_job_has_scope(before, events.last());
        assert(before.has_scope(id));
        law_join_reports_panics(pool, events.drop_last(), id);
    }
}

/// Whether a worker panics in a history.
pub open spec fn worker_panics<J>(events: Seq<Event<J>>) -> bool {
    exists|i: int| 0 <= i < events.len() && #[trigger] events[i] is Panic
}

proof fn lemma_pool_poisoned<J>(pool: PoolState<J>, events: Seq<Event<J>>)
    requires
        pool.consistent(),
        possible(pool, events),
    ensures
        after_all(pool, events).groups[pool.wait].wait.poisoned
            <==> pool.groups[pool.wait].wait.poisoned || worker_panics(events),
    decreases events.len(),
{
    if events.len() > 0 {
        let earlier = events.drop_last();
        let before = after_all(pool, earlier);
        law_pools_stay_consistent(pool, earlier);
        lemma_workers_stay(pool, earlier);
        lemma_pool_poisoned(pool, earlier);
        if worker_panics(earlier) {
            let i = choose|i: int| 0 <= i < earlier.len() && #[trigger] earlier[i] is Panic;
            assert(events[i] is Panic);
        }
        if worker_panics(events) && !(events.last() is Panic) {
            let i = choose|i: int| 0 <= i < events.len() && #[trigger] events[i] is Panic;
            assert(earlier[i] is Panic);
        }
        lemma_job_has_scope(before, events.last());
        if events.last() is Panic {
            assert(events[events.len() - 1] is Panic);
        }
    }
}

/// A shutdown waits for the termination of every worker thread: it lets a thread pass exactly when
/// no worker thread is left, and makes it panic if one of them panicked.
pub proof fn law_shutdown_waits_for_workers<J>(pool: PoolState<J>, events: Seq<Event<J>>)
    requires
        pool.consistent(),
        possible(pool, events),
    ensures
        after_all(pool, events).joined(pool.wait) is Blocked <==> exists|worker: int|
            0 <= worker < pool.workers.len() && alive()(
                #[trigger] after_all(pool, events).workers[worker],
            ),
        after_all(pool, events).joined(pool.wait) is Poisoned <==> !(after_all(pool, events).joined(
            pool.wait,
        ) is Blocked) && (pool.groups[pool.wait].wait.poisoned || worker_panics(events)),
{
    let now = after_all(pool, events);
    law_pools_stay_consistent(pool, events);
    lemma_workers_stay(pool, events);
    lemma_pool_poisoned(pool, events);
    lemma_count_zero(now.workers, alive());
    if now.alive() > 0 {
        let worker = choose|worker: int|
            0 <= worker < now.workers.len() && alive()(#[trigger] now.workers[worker]);
        assert(alive()(now.workers[worker]));
    }
}

/// Whether a signal to stop is in a queue.
pub open spec fn has_stop<J>(queue: Seq<Message<J>>) -> bool {
    exists|i: int| 0 <= i < queue.len() && #[trigger] queue[i] is Stop
}

/// Whether position `k` of a queue holds the first signal to stop.
pub open spec fn first_stop<J>(queue: Seq<Message<J>>, k: int) -> bool {
    &&& 0 <= k < queue.len()
    &&& queue[k] is Stop
    &&& forall|i: int| 0 <= i < k ==> !(#[trigger] queue[i] is Stop)
}

/// Whether a message is a signal to stop.
pub open spec fn stop<J>() -> spec_fn(Message<J>) -> bool {
    |message: Message<J>| message is Stop
}

/// How many signals to stop a history sends.
pub open spec fn stops_sent<J>(events: Seq<Event<J>>) -> nat
    decreases events.len(),
{
    if events.len() == 0 {
        0
    } else {
        stops_sent(events.drop_last()) + if events.last() is Stop {
            1nat
        } else {
            0
        }
    }
}

/// The signals to stop neither vanish nor multiply: a pool holds those that it held, and those that
/// were sent.
pub proof fn law_stop_signals_are_kept<J>(pool: PoolState<J>, events: Seq<Event<J>>)
    requires
        possible(pool, events),
    ensures
        count(after_all(pool, events).queue, stop()) == count(pool.queue, stop()) + stops_sent(
            events,
        ),
    decreases events.len(),
{
    if events.len() > 0 {
        let before = after_all(pool, events.drop_last());
        law_stop_signals_are_kept(pool, events.drop_last());
        match events.last() {
            Event::Execute(id, job) => {
                lemma_count_push(before.queue, Message::Job(job, id), stop());
            },
            Event::Stop => {
                lemma_count_push(before.queue, Message::<J>::Stop, stop());
            },
            Event::Receive(_) => {
                if before.queue.len() > 0 {
                    lemma_count_drop_first(before.queue, stop());
                    lemma_count_push(before.queue.drop_first(), Message::<J>::Stop, stop());
                }
            },
            _ => {},
        }
    }
}

/// A signal to stop, once sent, never gets lost: every turn of a worker brings it nearer, and the
/// worker that receives it terminates and leaves it to the others.
pub proof fn law_stop_signal_stays<J>(pool: PoolState<J>, event: Event<J>, k: int)
    requires
        enabled(pool, event),
        first_stop(pool.queue, k),
    ensures
        has_stop(after(pool, event).queue),
        match event {
            Event::Receive(worker) => if k == 0 {
                pool.turn() is Exit && after(pool, event).workers[worker] == WorkerState::Stopped
            } else {
                first_stop(after(pool, event).queue, k - 1)
            },
            _ => first_stop(after(pool, event).queue, k),
        },
{
    let queue = after(pool, event).queue;
    match event {
        Event::Receive(worker) => {
            if k == 0 {
                assert(queue[queue.len() - 1] is Stop);
            } else {
                assert(queue =~= pool.queue.drop_first());
                assert(queue[k - 1] is Stop);
                assert forall|i: int| 0 <= i < k - 1 implies !(#[trigger] queue[i] is Stop) by {
                    assert(!(pool.queue[i + 1] is Stop));
                }
            }
        },
        _ => {
            assert(queue[k] is Stop);
            assert forall|i: int| 0 <= i < k implies !(#[trigger] queue[i] is Stop) by {
                assert(!(pool.queue[i] is Stop));
            }
        },
    }
}

/// How many steps a worker has left until it is idle for lack of messages, or stopped.
pub open spec fn weight(worker: WorkerState) -> nat {
    match worker {
        WorkerState::Stopped => 0,
        WorkerState::Idle => 1,
        WorkerState::Panicked => 2,
        WorkerState::Running(_) => 3,
    }
}

/// The steps that all workers have left.
pub open spec fn weights(workers: Seq<WorkerState>) -> nat
    decreases workers.len(),
{
    if workers.len() == 0 {
        0
    } else {
        weights(workers.drop_last()) + weight(workers.last())
    }
}

proof fn lemma_weights_update(workers: Seq<WorkerState>, i: int, worker: WorkerState)
    requires
        0 <= i < workers.len(),
    ensures
        weights(workers.update(i, worker)) + weight(workers[i]) == weights(workers) + weight(
            worker,
        ),
    decreases workers.len(),
{
    if i == workers.len() - 1 {
        assert(workers.update(i, worker).drop_last() =~= workers.drop_last());
    } else {
        lemma_weights_update(workers.drop_last(), i, worker);
        assert(workers.update(i, worker).drop_last() =~= workers.drop_last().update(i, worker));
    }
}

/// A bound on the steps that the workers of a pool can take before they run out of messages.
pub open spec fn steps_left<J>(pool: PoolState<J>) -> nat {
    3 * jobs(pool.queue).len() + weights(pool.workers)
}

/// Whether an event is a step by which the work of a pool gets on: a worker receives a message, a
/// job ends by returning or by a panic, or a worker that panicked is replaced.
pub open spec fn work_step<J>(pool: PoolState<J>, event: Event<J>) -> bool {
    &&& enabled(pool, event)
    &&& match event {
        Event::Receive(_) => pool.queue.len() > 0,
        Event::Finish(_) => true,
        Event::Panic(worker) => pool.workers[worker] is Running,
        Event::Replace(_) => true,
        _ => false,
    }
}

/// Whether a history consists of such steps.
pub open spec fn work<J>(pool: PoolState<J>, events: Seq<Event<J>>) -> bool
    decreases events.len(),
{
    events.len() > 0 ==> work(pool, events.drop_last()) && work_step(
        after_all(pool, events.drop_last()),
        events.last(),
    )
}

/// Whether the work of a pool can get on.
pub open spec fn can_work<J>(pool: PoolState<J>) -> bool {
    exists|event: Event<J>| #[trigger] work_step(pool, event)
}

/// Without new jobs the work of a pool comes to an end: there are only as many steps as
/// `steps_left` says.
pub proof fn law_work_ends<J>(pool: PoolState<J>, events: Seq<Event<J>>)
    requires
        work(pool, events),
    ensures
        possible(pool, events),
        events.len() + steps_left(after_all(pool, events)) <= steps_left(pool),
    decreases events.len(),
{
    if events.len() > 0 {
        let before = after_all(pool, events.drop_last());
        let now = after_all(pool, events);
        law_work_ends(pool, events.drop_last());
        match events.last() {
            Event::Receive(worker) => {
                lemma_weights_update(before.workers, worker, now.workers[worker]);
                lemma_jobs_drop_first(before.queue);
                lemma_jobs_push(before.queue.drop_first(), Message::<J>::Stop);
            },
            Event::Finish(worker) => {
                lemma_weights_update(before.workers, worker, now.workers[worker]);
            },
            Event::Panic(worker) => {
                lemma_weights_update(before.workers, worker, now.workers[worker]);
            },
            Event::Replace(worker) => {
                lemma_weights_update(before.workers, worker, now.workers[worker]);
            },
            _ => {},
        }
    }
}

/// The work of a pool gets on as long as a scope blocks, unless all workers were stopped: a worker
/// can receive a message, end its job or be replaced.
pub proof fn law_blocked_scope_gets_on<J>(pool: PoolState<J>, id: u64, worker: int)
    requires
        pool.consistent(),
        pool.has_scope(id),
        pool.joined(id) is Blocked,
        0 <= worker < pool.workers.len(),
        !(pool.workers[worker] is Stopped),
    ensures
        can_work(pool),
{
    law_join_waits_for_jobs(pool, id);
    if pool.workers[worker] is Running {
        assert(work_step(pool, Event::Finish(worker)));
    } else if pool.workers[worker] is Panicked {
        assert(work_step(pool, Event::Replace(worker)));
    } else if pool.queue.len() > 0 {
        assert(work_step(pool, Event::Receive(worker)));
    } else {
        let other = choose|other: int|
            0 <= other < pool.workers.len() && #[trigger] pool.workers[other]
                == WorkerState::Running(id);
        assert(work_step(pool, Event::Finish(other)));
    }
}

/// Whether a pool has a worker that was not stopped, and no signal to stop.
pub open spec fn in_service<J>(pool: PoolState<J>) -> bool {
    &&& !has_stop(pool.queue)
    &&& exists|worker: int|
        0 <= worker < pool.workers.len() && !(#[trigger] pool.workers[worker] is Stopped)
}

proof fn lemma_stays_in_service<J>(pool: PoolState<J>, events: Seq<Event<J>>)
    requires
        in_service(pool),
        work(pool, events),
    ensures
        in_service(after_all(pool, events)),
    decreases events.len(),
{
    if events.len() > 0 {
        let before = after_all(pool, events.drop_last());
        let now = after_all(pool, events);
        lemma_stays_in_service(pool, events.drop_last());
        if let Event::Receive(_) = events.last() {
            assert(!(before.queue[0] is Stop));
        }
        assert forall|i: int| 0 <= i < now.queue.len() implies !(#[trigger] now.queue[i] is Stop) by {
            if now.queue.len() == before.queue.len() {
                assert(!(before.queue[i] is Stop));
            } else {
                assert(!(before.queue[i + 1] is Stop));
            }
        }
        let worker = choose|worker: int|
            0 <= worker < before.workers.len() && !(#[trigger] before.workers[worker] is Stopped);
        assert(!(now.workers[worker] is Stopped));
    }
}

/// Every scope of a pool that is not shut down gets finished, however many of its jobs panic and
/// however few workers there are: a scope that blocks after some work, without new jobs, can be
/// worked on, and the steps run out. So when no step is left, the scope does not block.
pub proof fn law_scope_gets_finished<J>(pool: PoolState<J>, events: Seq<Event<J>>, id: u64)
    requires
        pool.consistent(),
        in_service(pool),
        work(pool, events),
        after_all(pool, events).has_scope(id),
    ensures
        events.len() <= steps_left(pool),
        after_all(pool, events).joined(id) is Blocked ==> can_work(after_all(pool, events)),
{
    let now = after_all(pool, events);
    law_work_ends(pool, events);
    law_pools_stay_consistent(pool, events);
    lemma_stays_in_service(pool, events);
    let worker = choose|worker: int|
        0 <= worker < now.workers.len() && !(#[trigger] now.workers[worker] is Stopped);
    if now.joined(id) is Blocked {
        law_blocked_scope_gets_on(now, id, worker);
    }
}

/// One signal to stop terminates all workers: once it is sent, and if no more jobs are, the steps
/// of the workers run out, and as long as a worker was not stopped, there is one. So when no step
/// is left, every worker was stopped.
pub proof fn law_shutdown_terminates<J>(pool: PoolState<J>, events: Seq<Event<J>>)
    requires
        has_stop(pool.queue),
        work(pool, events),
    ensures
        events.len() <= steps_left(pool),
        has_stop(after_all(pool, events).queue),
        forall|worker: int|
            0 <= worker < pool.workers.len() && !(#[trigger] after_all(
                pool,
                events,
            ).workers[worker] is Stopped) ==> can_work(after_all(pool, events)),
    decreases events.len(),
{
    let now = after_all(pool, events);
    law_work_ends(pool, events);
    lemma_workers_stay(pool, events);
    if events.len() > 0 {
        let before = after_all(pool, events.drop_last());
        law_shutdown_terminates(pool, events.drop_last());
        let i = choose|i: int| 0 <= i < before.queue.len() && #[trigger] before.queue[i] is Stop;
        match events.last() {
            Event::Receive(_) => {
                if before.queue[0] is Stop {
                    assert(now.queue[now.queue.len() - 1] is Stop);
                } else {
                    assert(now.queue[i - 1] is Stop);
                }
            },
            _ => {
                assert(now.queue[i] is Stop);
            },
        }
    }
    assert forall|worker: int|
        0 <= worker < pool.workers.len() && !(#[trigger] now.workers[worker] is Stopped) implies can_work(
        now,
    ) by {
        if now.workers[worker] is Running {
            assert(work_step(now, Event::Finish(worker)));
        } else if now.workers[worker] is Panicked {
            assert(work_step(now, Event::Replace(worker)));
        } else {
            assert(work_step(now, Event::Receive(worker)));
        }
    }
}

proof fn lemma_jobs_of_all<J>(queue: Seq<Message<J>>)
    requires
        !has_stop(queue),
    ensures
        jobs(queue).len() == queue.len(),
    decreases queue.len(),
{
    if queue.len() > 0 {
        assert(!(queue[queue.len() - 1] is Stop));
        assert forall|i: int| 0 <= i < queue.drop_last().len() implies !(
        #[trigger] queue.drop_last()[i] is Stop) by {
            assert(!(queue[i] is Stop));
        }
        lemma_jobs_of_all(queue.drop_last());
    }
}

/// The first signal to stop is behind the jobs that waited when it was sent, less those that were
/// started, and until it is received, no worker stops.
proof fn lemma_stop_comes_last<J>(pool: PoolState<J>, events: Seq<Event<J>>)
    requires
        !has_stop(pool.queue),
        forall|worker: int|
            0 <= worker < pool.workers.len() ==> !(#[trigger] pool.workers[worker] is Stopped),
        possible(pool.stop_sent(), events),
    ensures
        ({
            let now = after_all(pool.stop_sent(), events);
            let started = started_jobs(pool.stop_sent(), events).len();
            started >= pool.queue.len() || (first_stop(now.queue, pool.queue.len() - started)
                && forall|worker: int|
                0 <= worker < now.workers.len() ==> !(#[trigger] now.workers[worker] is Stopped))
        }),
    decreases events.len(),
{
    let start = pool.stop_sent();
    if events.len() == 0 {
        assert forall|i: int| 0 <= i < pool.queue.len() implies !(
        #[trigger] start.queue[i] is Stop) by {
            assert(!(pool.queue[i] is Stop));
        }
        if pool.queue.len() == 0 {
            assert(started_jobs(start, events).len() >= pool.queue.len());
        }
    } else {
        let before = after_all(start, events.drop_last());
        let started = started_jobs(start, events.drop_last()).len();
        lemma_stop_comes_last(pool, events.drop_last());
        if started < pool.queue.len() {
            let k = pool.queue.len() - started;
            law_stop_signal_stays(before, events.last(), k);
            if let Event::Receive(_) = events.last() {
                assert(!(before.queue[0] is Stop));
            }
            if let Event::Finish(worker) = events.last() {
                assert(!(before.workers[worker] is Stopped));
            }
            let now = after_all(start, events);
            assert forall|worker: int| 0 <= worker < now.workers.len() implies !(
            #[trigger] now.workers[worker] is Stopped) by {
                assert(!(before.workers[worker] is Stopped));
            }
        }
    }
}

/// A shutdown does not cut off the jobs that wait: once the wait for the workers is over, and every
/// worker that panicked was replaced, the jobs that waited when the signal to stop was sent were
/// all started, before any other job, in their order and once each.
pub proof fn law_shutdown_lets_waiting_jobs_start<J>(pool: PoolState<J>, events: Seq<Event<J>>)
    requires
        pool.consistent(),
        pool.workers.len() > 0,
        !has_stop(pool.queue),
        forall|worker: int|
            0 <= worker < pool.workers.len() ==> !(#[trigger] pool.workers[worker] is Stopped),
        possible(pool.stop_sent(), events),
        forall|worker: int|
            0 <= worker < pool.workers.len() ==> !(#[trigger] after_all(
                pool.stop_sent(),
                events,
            ).workers[worker] is Panicked),
        !(after_all(pool.stop_sent(), events).joined(pool.wait) is Blocked),
    ensures
        started_jobs(pool.stop_sent(), events).len() >= jobs(pool.queue).len(),
        started_jobs(pool.stop_sent(), events).take(jobs(pool.queue).len() as int) == jobs(
            pool.queue,
        ),
{
    let start = pool.stop_sent();
    let now = after_all(start, events);
    let started = started_jobs(start, events);
    pool.lemma_stop_sent();
    law_shutdown_waits_for_workers(start, events);
    lemma_workers_stay(start, events);
    lemma_stop_comes_last(pool, events);
    lemma_jobs_of_all(pool.queue);
    assert(!alive()(now.workers[0]));
    assert(now.workers[0] is Stopped);
    lemma_jobs_push(pool.queue, Message::<J>::Stop);
    law_jobs_start_in_order_and_once(start, events);
    let all = jobs(pool.queue) + added_jobs(events);
    assert(started.take(jobs(pool.queue).len() as int) =~= all.take(
        jobs(pool.queue).len() as int,
    )) by {
        assert(forall|i: int|
            0 <= i < started.len() ==> started[i] == #[trigger] (started + jobs(now.queue))[i]);
    }
    assert(all.take(jobs(pool.queue).len() as int) =~= jobs(pool.queue));
}

/// No thread sleeps on a scope for longer than it has to: a scope ceases to block only by the end
/// of a job which counts as the last one, and of such an end the waiting threads are told.
pub proof fn law_scope_wakes_its_waiters<J>(pool: PoolState<J>, event: Event<J>, id: u64)
    requires
        pool.consistent(),
        enabled(pool, event),
        pool.has_scope(id),
        after(pool, event).has_scope(id),
        pool.joined(id) is Blocked,
        !(after(pool, event).joined(id) is Blocked),
    ensures
        ends_job(pool, event, id),
        pool.groups[id].wait.pending == 1,
{
    lemma_job_has_scope(pool, event);
}

/// No thread sleeps on the workers for longer than it has to: the wait for them ends only by the
/// termination of the last one, and of that the waiting threads are told.
pub proof fn law_last_worker_wakes_waiters<J>(pool: PoolState<J>, event: Event<J>)
    requires
        pool.consistent(),
        enabled(pool, event),
        pool.joined(pool.wait) is Blocked,
        !(after(pool, event).joined(pool.wait) is Blocked),
    ensures
        (event is Receive && pool.turn() == Turn::<J>::Exit(true)) || (event is Panic
            && pool.alive() == 1),
{
    lemma_job_has_scope(pool, event);
    if let Event::Replace(worker) = event {
        pool.lemma_replaced(worker);
        lemma_count_update(pool.workers, worker, WorkerState::Idle, alive());
    }
}

/// No worker sleeps while there is a message: a worker that has to sleep has to do so until a job
/// is added or the signal to stop is sent.
pub proof fn law_messages_wake_workers<J>(pool: PoolState<J>, event: Event<J>)
    requires
        enabled(pool, event),
        pool.turn() is Wait,
    ensures
        after(pool, event).turn() is Wait <==> !(event is Execute || event is Stop),
{
}

/// Scopes have separate job sets: what happens to one of them does not change another one.
pub proof fn law_scopes_are_separate<J>(pool: PoolState<J>, event: Event<J>, id: u64)
    requires
        pool.consistent(),
        enabled(pool, event),
        pool.has_scope(id),
        !(event matches Event::Execute(group, _) && group == id),
        !(event matches Event::Close(group) && group == id),
        !ends_job(pool, event, id),
    ensures
        after(pool, event).has_scope(id),
        after(pool, event).groups[id] == pool.groups[id],
{
    lemma_job_has_scope(pool, event);
}

/// A new scope, be it opened by `forever`, `scoped` or `zoom`, is in use, has no jobs, and leaves
/// all others as they are.
pub proof fn law_new_scope_is_empty<J>(pool: PoolState<J>, id: u64, other: u64)
    requires
        pool.consistent(),
        !pool.groups.contains_key(id),
    ensures
        pool.opened(id).has_scope(id),
        pool.opened(id).groups[id].open,
        pool.opened(id).joined(id) is Done,
        pool.opened(id).queued(id) + pool.opened(id).running(id) == 0,
        pool.groups.contains_key(other) ==> other != id && pool.opened(id).groups.contains_key(other)
            && pool.opened(id).groups[other] == pool.groups[other],
{
    assert(pool.accounted(id));
}

/// Whether a history neither adds a job to scope `id`, nor ends one of it, nor gives it up.
pub open spec fn untouched<J>(pool: PoolState<J>, events: Seq<Event<J>>, id: u64) -> bool
    decreases events.len(),
{
    events.len() > 0 ==> {
        &&& untouched(pool, events.drop_last(), id)
        &&& !(events.last() matches Event::Execute(group, _) && group == id)
        &&& !(events.last() matches Event::Close(group) && group == id)
        &&& !ends_job(after_all(pool, events.drop_last()), events.last(), id)
    }
}

/// A scope that is left alone stays as it is.
proof fn lemma_untouched<J>(pool: PoolState<J>, events: Seq<Event<J>>, id: u64)
    requires
        pool.consistent(),
        pool.has_scope(id),
        possible(pool, events),
        untouched(pool, events, id),
    ensures
        after_all(pool, events).has_scope(id),
        after_all(pool, events).groups[id] == pool.groups[id],
    decreases events.len(),
{
    if events.len() > 0 {
        lemma_untouched(pool, events.drop_last(), id);
        law_pools_stay_consistent(pool, events.drop_last());
        law_scopes_are_separate(after_all(pool, events.drop_last()), events.last(), id);
    }
}

/// A subscope has a job set of its own: what happens to its jobs, panics among it, leaves the
/// count and the panics of the parent as they are, and whether leaving it waits or panics depends
/// on its own jobs alone, whatever jobs the parent has.
pub proof fn law_subscope_is_independent<J>(
    pool: PoolState<J>,
    events: Seq<Event<J>>,
    parent: u64,
    id: u64,
)
    requires
        pool.consistent(),
        !pool.groups.contains_key(id),
        pool.has_scope(parent),
        possible(pool.opened(id), events),
        untouched(pool.opened(id), events, parent),
        absent(events, Event::Close(id)),
    ensures
        parent != id,
        after_all(pool.opened(id), events).has_scope(parent),
        after_all(pool.opened(id), events).groups[parent] == pool.groups[parent],
        after_all(pool.opened(id), events).has_scope(id),
        after_all(pool.opened(id), events).joined(id) is Blocked <==> ended(
            pool.opened(id),
            events,
            id,
        ) < added(events, id),
        after_all(pool.opened(id), events).joined(id) is Poisoned <==> ended(
            pool.opened(id),
            events,
            id,
        ) == added(events, id) && job_panics(pool.opened(id), events, id),
{
    let start = pool.opened(id);
    pool.lemma_opened(id);
    assert(pool.accounted(id));
    lemma_untouched(start, events, parent);
    law_scope_outlives_its_jobs(pool, events, id);
    lemma_owned_scope_is_not_opened(start, events, id);
    law_join_reports_panics(start, events, id);
    law_jobs_are_accounted_for(start, events, id);
}

/// Whether a job counts in group `id`.
pub open spec fn counts_in<J>(id: u64) -> spec_fn((J, u64)) -> bool {
    |job: (J, u64)| job.1 == id
}

/// The jobs of scope `id` among jobs.
pub open spec fn of_scope<J>(all: Seq<(J, u64)>, id: u64) -> Seq<(J, u64)> {
    all.filter(counts_in(id))
}

proof fn lemma_queued_jobs<J>(queue: Seq<Message<J>>, id: u64)
    ensures
        of_scope(jobs(queue), id).len() == count(queue, job_of(id)),
    decreases queue.len(),
{
    reveal(Seq::filter);
    if queue.len() > 0 {
        lemma_queued_jobs(queue.drop_last(), id);
        if let Message::Job(job, group) = queue.last() {
            assert(jobs(queue).drop_last() =~= jobs(queue.drop_last()));
        }
    }
}

/// What a scope is for: take a scope without jobs, let anything happen but that its owner gives it
/// up, and leave it after its scheduling job ended. The thread sleeps exactly as long as not all
/// jobs ended that were added to the scope, by whomever. After that, if no job panicked, it returns
/// the value of the scheduling job, or goes on with its panic. If a job panicked, it panics. By then
/// every added job was started once, in the order in which they were added.
pub proof fn law_scope_runs_its_jobs<J, R>(
    pool: PoolState<J>,
    events: Seq<Event<J>>,
    id: u64,
    end: JobEnd<R>,
)
    requires
        pool.consistent(),
        pool.has_scope(id),
        pool.groups[id].open,
        pool.joined(id) is Done,
        possible(pool, events),
        absent(events, Event::Close(id)),
    ensures
        after_all(pool, events).has_scope(id),
        ({
            let left = left_spec(end, after_all(pool, events).joined(id));
            let finished = ended(pool, events, id) == added(events, id);
            let panics = job_panics(pool, events, id);
            &&& left == Left::Blocked(end) <==> !finished
            &&& left == Left::Poisoned(end) <==> finished && panics
            &&& end matches JobEnd::Returned(value) ==> (left == Left::Returned(value)
                <==> finished && !panics)
            &&& end is Panicked ==> (left == Left::<R>::Unwind <==> finished && !panics)
            &&& finished ==> of_scope(started_jobs(pool, events), id) == of_scope(
                added_jobs(events),
                id,
            )
        }),
{
    let now = after_all(pool, events);
    let started = started_jobs(pool, events);
    assert(pool.accounted(id));
    law_owned_scope_stays_in_use(pool, events, id);
    lemma_owned_scope_is_not_opened(pool, events, id);
    law_scope_blocks_until_its_jobs_end(pool, events, id);
    law_join_reports_panics(pool, events, id);
    law_jobs_are_accounted_for(pool, events, id);
    law_jobs_start_in_order_and_once(pool, events);
    lemma_queued_jobs(pool.queue, id);
    lemma_queued_jobs(now.queue, id);
    Seq::filter_distributes_over_add(started, jobs(now.queue), counts_in(id));
    Seq::filter_distributes_over_add(jobs(pool.queue), added_jobs(events), counts_in(id));
    if ended(pool, events, id) == added(events, id) {
        assert(of_scope(started, id) + of_scope(jobs(now.queue), id) =~= of_scope(started, id));
        assert(of_scope(jobs(pool.queue), id) + of_scope(added_jobs(events), id) =~= of_scope(
            added_jobs(events),
            id,
        ));
    }
}

/// A job that a running job adds to its own scope is waited for: the scope blocks before the job
/// is added, after it was added, and after the job that added it ended, by whatever way.
pub proof fn law_recursive_job_is_waited_for<J>(
    pool: PoolState<J>,
    worker: int,
    id: u64,
    job: J,
)
    requires
        pool.consistent(),
        0 <= worker < pool.workers.len(),
        pool.workers[worker] == WorkerState::Running(id),
        pool.groups[id].wait.pending < usize::MAX,
    ensures
        enabled(pool, Event::Execute(id, job)),
        pool.joined(id) is Blocked,
        pool.executed(id, job).joined(id) is Blocked,
        pool.executed(id, job).finished(worker).has_scope(id),
        pool.executed(id, job).finished(worker).joined(id) is Blocked,
        pool.executed(id, job).panicked(worker).has_scope(id),
        pool.executed(id, job).panicked(worker).joined(id) is Blocked,
{
    law_running_job_holds_its_scope(pool, worker, id);
}

/// The settings of a configuration do not disturb each other, and the last one counts.
pub proof fn law_settings_commute(
    config: ConfigState,
    prefix: Seq<char>,
    stack_size: usize,
    earlier_prefix: Seq<char>,
    earlier_size: usize,
)
    ensures
        config.with_prefix(prefix).with_stack_size(stack_size) == config.with_stack_size(
            stack_size,
        ).with_prefix(prefix),
        config.with_stack_size(stack_size).prefix == config.prefix,
        config.with_prefix(prefix).stack_size == config.stack_size,
        config.with_prefix(earlier_prefix).with_prefix(prefix) == config.with_prefix(prefix),
        config.with_stack_size(earlier_size).with_stack_size(stack_size) == config.with_stack_size(
            stack_size,
        ),
{
}

/// Spawning a job makes nobody wait: it leaves every scope and the wait for the workers as they
/// are.
pub proof fn law_spawn_blocks_nobody<J>(pool: PoolState<J>, job: J, new: u64, id: u64)
    requires
        !pool.groups.contains_key(new),
        pool.groups.contains_key(id),
    ensures
        pool.opened(new).executed(new, job).closed(new).groups.contains_key(id),
        pool.opened(new).executed(new, job).closed(new).groups[id] == pool.groups[id],
{
}

/// A job can add jobs to its own scope: the scope is in use and blocks while the job is executed.
pub proof fn law_running_job_holds_its_scope<J>(pool: PoolState<J>, worker: int, id: u64)
    requires
        pool.consistent(),
        0 <= worker < pool.workers.len(),
        pool.workers[worker] == WorkerState::Running(id),
    ensures
        pool.has_scope(id),
        pool.joined(id) is Blocked,
{
    lemma_count_zero(pool.workers, runs_job_of(id));
    assert(pool.accounted(id));
}

proof fn lemma_digits_differ(a: nat, b: nat)
    requires
        a < 10,
        b < 10,
        digit(a) == digit(b),
    ensures
        a == b,
{
}

proof fn lemma_decimals_differ(a: nat, b: nat)
    requires
        decimal(a) == decimal(b),
    ensures
        a == b,
    decreases a,
{
    reveal_with_fuel(decimal, 2);
    assert(decimal(a).len() >= 1 && decimal(b).len() >= 1);
    assert(decimal(a).last() == digit(a % 10));
    assert(decimal(b).last() == digit(b % 10));
    lemma_digits_differ(a % 10, b % 10);
    if a >= 10 && b >= 10 {
        assert(decimal(a).drop_last() =~= decimal(a / 10));
        assert(decimal(b).drop_last() =~= decimal(b / 10));
        lemma_decimals_differ(a / 10, b / 10);
    } else if a >= 10 {
        assert(decimal(a / 10).len() >= 1);
    } else if b >= 10 {
        assert(decimal(b / 10).len() >= 1);
    }
}

/// The worker threads of a pool have different names.
pub proof fn law_worker_names_differ<J>(n: nat, config: ConfigState, a: int, b: int)
    requires
        0 <= a < n,
        0 <= b < n,
        a != b,
    ensures
        PoolState::<J>::initial(n, config).threads[a].name != PoolState::<J>::initial(
            n,
            config,
        ).threads[b].name,
{
    let x = (a + 1) as nat;
    let y = (b + 1) as nat;
    let first = worker_name_spec(config.prefix, x);
    let second = worker_name_spec(config.prefix, y);
    if first == second {
        let start = (match config.prefix {
            Some(prefix) => prefix,
            None => "worker-thread"@,
        }) + "-"@;
        assert(first.skip(start.len() as int) =~= decimal(x));
        assert(second.skip(start.len() as int) =~= decimal(y));
        lemma_decimals_differ(x, y);
    }
}

/// Something that happens to a wait group.
pub enum WaitEvent {
    Submit,
    Complete,
    Poison,
}

/// The state of a new wait group after a history of events.
pub open spec fn wait_after(events: Seq<WaitEvent>) -> WaitState
    decreases events.len(),
{
    if events.len() == 0 {
        WaitState::empty()
    } else {
        let before = wait_after(events.drop_last());
        match events.last() {
            WaitEvent::Submit => before.submitted(),
            WaitEvent::Complete => before.completed(),
            WaitEvent::Poison => before.poisoned(),
        }
    }
}

/// How many more jobs a history submits than it completes, a panic being a completion too.
pub open spec fn outstanding(events: Seq<WaitEvent>) -> int
    decreases events.len(),
{
    if events.len() == 0 {
        0
    } else {
        outstanding(events.drop_last()) + match events.last() {
            WaitEvent::Submit => 1int,
            _ => -1int,
        }
    }
}

/// A wait group counts right as long as no job is completed before it is submitted, and the jobs
/// fit into the counter. It blocks exactly while jobs are outstanding, and makes a thread panic
/// exactly if a job panicked.
pub proof fn law_wait_group_counts(events: Seq<WaitEvent>)
    requires
        forall|n: int|
            0 <= n <= events.len() ==> 0 <= #[trigger] outstanding(events.take(n)) <= usize::MAX,
    ensures
        wait_after(events).pending == outstanding(events),
        wait_after(events).poisoned <==> exists|i: int|
            0 <= i < events.len() && #[trigger] events[i] is Poison,
        wait_after(events).joined() is Blocked <==> outstanding(events) > 0,
        wait_after(events).joined() is Poisoned <==> outstanding(events) == 0 && exists|i: int|
            0 <= i < events.len() && #[trigger] events[i] is Poison,
    decreases events.len(),
{
    assert(events.take(events.len() as int) =~= events);
    assert(0 <= outstanding(events.take(events.len() as int)) <= usize::MAX);
    if events.len() > 0 {
        let earlier = events.drop_last();
        assert forall|n: int| 0 <= n <= earlier.len() implies 0 <= #[trigger] outstanding(
            earlier.take(n),
        ) <= usize::MAX by {
            assert(earlier.take(n) =~= events.take(n));
        }
        law_wait_group_counts(earlier);
        assert(forall|i: int| 0 <= i < earlier.len() ==> #[trigger] earlier[i] == events[i]);
        if exists|i: int| 0 <= i < earlier.len() && #[trigger] earlier[i] is Poison {
            let i = choose|i: int| 0 <= i < earlier.len() && #[trigger] earlier[i] is Poison;
            assert(events[i] is Poison);
        }
        if events.last() is Poison {
            assert(events[events.len() - 1] is Poison);
        } else if exists|i: int| 0 <= i < events.len() && #[trigger] events[i] is Poison {
            let i = choose|i: int| 0 <= i < events.len() && #[trigger] events[i] is Poison;
            assert(earlier[i] is Poison);
        }
    }
}

} // verus!
