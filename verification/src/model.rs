//! The state of a pool as a mathematical value, and how each operation changes it.

use crate::config::{worker_name_spec, ConfigState};
use crate::wait::{
    group_closed, group_completed, group_poisoned, group_submitted, GroupState, Joined, WaitState,
};
use vstd::prelude::*;

verus! {

/// How many items of a sequence have a property.
pub open spec fn count<T>(s: Seq<T>, p: spec_fn(T) -> bool) -> nat
    decreases s.len(),
{
    if s.len() == 0 {
        0
    } else {
        count(s.drop_last(), p) + if p(s.last()) {
            1nat
        } else {
            0
        }
    }
}

/// One more item at the end counts if it has the property.
pub proof fn lemma_count_push<T>(s: Seq<T>, x: T, p: spec_fn(T) -> bool)
    ensures
        count(s.push(x), p) == count(s, p) + if p(x) {
            1nat
        } else {
            0
        },
{
    assert(s.push(x).drop_last() =~= s);
}

/// The first item counts if it has the property.
pub proof fn lemma_count_drop_first<T>(s: Seq<T>, p: spec_fn(T) -> bool)
    requires
        s.len() > 0,
    ensures
        count(s, p) == count(s.drop_first(), p) + if p(s[0]) {
            1nat
        } else {
            0
        },
    decreases s.len(),
{
    if s.len() == 1 {
        assert(s.drop_last() =~= Seq::empty());
        assert(s.drop_first() =~= Seq::empty());
    } else {
        lemma_count_drop_first(s.drop_last(), p);
        assert(s.drop_last().drop_first() =~= s.drop_first().drop_last());
    }
}

/// Replacing an item replaces its share of the count.
pub proof fn lemma_count_update<T>(s: Seq<T>, i: int, x: T, p: spec_fn(T) -> bool)
    requires
        0 <= i < s.len(),
    ensures
        count(s.update(i, x), p) + if p(s[i]) {
            1nat
        } else {
            0
        } == count(s, p) + if p(x) {
            1nat
        } else {
            0
        },
    decreases s.len(),
{
    if i == s.len() - 1 {
        assert(s.update(i, x).drop_last() =~= s.drop_last());
    } else {
        lemma_count_update(s.drop_last(), i, x, p);
        assert(s.update(i, x).drop_last() =~= s.drop_last().update(i, x));
    }
}

/// The count is zero exactly if no item has the property.
pub proof fn lemma_count_zero<T>(s: Seq<T>, p: spec_fn(T) -> bool)
    ensures
        count(s, p) == 0 <==> forall|i: int| 0 <= i < s.len() ==> !p(#[trigger] s[i]),
    decreases s.len(),
{
    if s.len() > 0 {
        lemma_count_zero(s.drop_last(), p);
        assert(forall|i: int|
            0 <= i < s.len() - 1 ==> #[trigger] s[i] == s.drop_last()[i]);
        if count(s, p) == 0 {
            assert forall|i: int| 0 <= i < s.len() implies !p(#[trigger] s[i]) by {
                if i < s.len() - 1 {
                    assert(!p(s.drop_last()[i]));
                }
            }
        } else if forall|i: int| 0 <= i < s.len() ==> !p(#[trigger] s[i]) {
            assert forall|i: int| 0 <= i < s.drop_last().len() implies !p(
                #[trigger] s.drop_last()[i],
            ) by {
                assert(!p(s[i]));
            }
        }
    }
}

/// If all items have the property, they are counted.
pub proof fn lemma_count_all<T>(s: Seq<T>, p: spec_fn(T) -> bool)
    requires
        forall|i: int| 0 <= i < s.len() ==> p(#[trigger] s[i]),
    ensures
        count(s, p) == s.len(),
    decreases s.len(),
{
    if s.len() > 0 {
        assert forall|i: int| 0 <= i < s.drop_last().len() implies p(
            #[trigger] s.drop_last()[i],
        ) by {
            assert(p(s[i]));
        }
        lemma_count_all(s.drop_last(), p);
    }
}

/// At most all items are counted.
pub proof fn lemma_count_bound<T>(s: Seq<T>, p: spec_fn(T) -> bool)
    ensures
        count(s, p) <= s.len(),
    decreases s.len(),
{
    if s.len() > 0 {
        lemma_count_bound(s.drop_last(), p);
    }
}

/// Messages that are sent to the worker threads.
pub enum Message<J> {
    /// The worker that receives it terminates, and passes it on.
    Stop,
    /// A job, and the number of the wait group it counts in.
    Job(J, u64),
}

/// What a worker thread is doing.
#[derive(Clone, Copy, Debug, PartialEq, Eq, Structural)]
pub enum WorkerState {
    /// It is about to receive a message.
    Idle,
    /// It executes a job, which counts in the wait group with this number.
    Running(u64),
    /// It terminated, because it received the signal to stop.
    Stopped,
    /// It terminated by a panic, and another thread can take its place.
    Panicked,
}

/// What a worker thread that takes a turn has to do next.
pub enum Turn<J> {
    /// Sleep until a message was sent.
    Wait,
    /// Execute a job.
    Execute(J),
    /// Terminate, and wake the threads that wait for the workers if the flag is set.
    Exit(bool),
}

/// What a worker thread is spawned with.
pub struct ThreadState {
    pub name: Seq<char>,
    pub stack_size: Option<usize>,
}

/// The state of a pool.
pub struct PoolState<J> {
    /// What each worker thread was spawned with.
    pub threads: Seq<ThreadState>,
    /// What each worker thread is doing.
    pub workers: Seq<WorkerState>,
    /// The messages that no worker received yet, the oldest first.
    pub queue: Seq<Message<J>>,
    /// The wait groups in use.
    pub groups: Map<u64, GroupState>,
    /// The wait group that counts the worker threads.
    pub wait: u64,
}

/// Whether a message is a job of group `id`.
pub open spec fn job_of<J>(id: u64) -> spec_fn(Message<J>) -> bool {
    |message: Message<J>| message matches Message::Job(_, group) && group == id
}

/// Whether a worker executes a job of group `id`.
pub open spec fn runs_job_of(id: u64) -> spec_fn(WorkerState) -> bool {
    |worker: WorkerState| worker == WorkerState::Running(id)
}

/// Whether a worker did not terminate.
pub open spec fn alive() -> spec_fn(WorkerState) -> bool {
    |worker: WorkerState| worker is Idle || worker is Running
}

impl<J> PoolState<J> {
    /// A new pool with `n` worker threads, which are numbered from one. All of them count in the
    /// wait group of the pool.
    pub open spec fn initial(n: nat, config: ConfigState) -> PoolState<J> {
        PoolState {
            threads: Seq::new(
                n,
                |i: int|
                    ThreadState {
                        name: worker_name_spec(config.prefix, (i + 1) as nat),
                        stack_size: config.stack_size,
                    },
            ),
            workers: Seq::new(n, |i: int| WorkerState::Idle),
            queue: Seq::empty(),
            groups: Map::empty().insert(
                0,
                GroupState { wait: WaitState { pending: n, poisoned: false }, open: true },
            ),
            wait: 0,
        }
    }

    /// How many jobs of group `id` no worker received yet.
    pub open spec fn queued(self, id: u64) -> nat {
        count(self.queue, job_of(id))
    }

    /// How many jobs of group `id` are being executed.
    pub open spec fn running(self, id: u64) -> nat {
        count(self.workers, runs_job_of(id))
    }

    /// How many worker threads did not terminate.
    pub open spec fn alive(self) -> nat {
        count(self.workers, alive())
    }

    /// Whether `id` is the wait group of a scope.
    pub open spec fn has_scope(self, id: u64) -> bool {
        id != self.wait && self.groups.contains_key(id)
    }

    /// Whether the jobs of group `id` are accounted for: the wait group of a scope counts exactly
    /// the jobs of the scope that are queued or being executed, and is in use while it has an
    /// owner or such a job. A group that is not in use has no job.
    pub open spec fn accounted(self, id: u64) -> bool {
        if self.has_scope(id) {
            &&& self.groups[id].wait.pending == self.queued(id) + self.running(id)
            &&& self.groups[id].open || self.groups[id].wait.pending > 0
        } else {
            self.queued(id) == 0 && self.running(id) == 0
        }
    }

    /// What every operation keeps: the jobs of every scope are accounted for, and the wait group
    /// of the pool counts exactly the worker threads that did not terminate.
    pub open spec fn consistent(self) -> bool {
        &&& self.threads.len() == self.workers.len() <= usize::MAX
        &&& self.groups.contains_key(self.wait)
        &&& self.groups[self.wait].open
        &&& self.groups[self.wait].wait.pending == self.alive()
        &&& forall|id: u64| #[trigger] self.accounted(id)
    }

    /// A new scope without jobs, with the wait group `id`, which was not in use.
    pub open spec fn opened(self, id: u64) -> PoolState<J> {
        PoolState {
            groups: self.groups.insert(
                id,
                GroupState { wait: WaitState::empty(), open: true },
            ),
            ..self
        }
    }

    /// A job is added to a scope.
    pub open spec fn executed(self, id: u64, job: J) -> PoolState<J> {
        PoolState {
            groups: group_submitted(self.groups, id),
            queue: self.queue.push(Message::Job(job, id)),
            ..self
        }
    }

    /// The owner of a scope is gone.
    pub open spec fn closed(self, id: u64) -> PoolState<J> {
        PoolState { groups: group_closed(self.groups, id), ..self }
    }

    /// The signal to stop is sent.
    pub open spec fn stop_sent(self) -> PoolState<J> {
        PoolState { queue: self.queue.push(Message::Stop), ..self }
    }

    /// A worker receives the oldest message. If it is a job, the worker executes it. If it is the
    /// signal to stop, the worker sends it again and terminates.
    pub open spec fn received(self, worker: int) -> PoolState<J> {
        if self.queue.len() == 0 {
            self
        } else {
            match self.queue[0] {
                Message::Stop => PoolState {
                    queue: self.queue.drop_first().push(Message::Stop),
                    workers: self.workers.update(worker, WorkerState::Stopped),
                    groups: group_completed(self.groups, self.wait),
                    ..self
                },
                Message::Job(_, id) => PoolState {
                    queue: self.queue.drop_first(),
                    workers: self.workers.update(worker, WorkerState::Running(id)),
                    ..self
                },
            }
        }
    }

    /// The job of a worker is done.
    pub open spec fn finished(self, worker: int) -> PoolState<J> {
        PoolState {
            workers: self.workers.update(worker, WorkerState::Idle),
            groups: match self.workers[worker] {
                WorkerState::Running(id) => group_completed(self.groups, id),
                _ => self.groups,
            },
            ..self
        }
    }

    /// A worker panics, which terminates it: the scope of the job it executes is poisoned, and so
    /// is the pool.
    pub open spec fn panicked(self, worker: int) -> PoolState<J> {
        PoolState {
            workers: self.workers.update(worker, WorkerState::Panicked),
            groups: group_poisoned(
                match self.workers[worker] {
                    WorkerState::Running(id) => group_poisoned(self.groups, id),
                    _ => self.groups,
                },
                self.wait,
            ),
            ..self
        }
    }

    /// Another thread takes the place of a worker that panicked.
    pub open spec fn replaced(self, worker: int) -> PoolState<J> {
        PoolState {
            workers: self.workers.update(worker, WorkerState::Idle),
            groups: group_submitted(self.groups, self.wait),
            ..self
        }
    }

    /// What a worker that receives the oldest message has to do.
    pub open spec fn turn(self) -> Turn<J> {
        if self.queue.len() == 0 {
            Turn::Wait
        } else {
            match self.queue[0] {
                Message::Stop => Turn::Exit(self.groups[self.wait].wait.pending == 1),
                Message::Job(job, _) => Turn::Execute(job),
            }
        }
    }

    /// What a thread that joins a wait group is told.
    pub open spec fn joined(self, id: u64) -> Joined {
        self.groups[id].wait.joined()
    }
}

impl<J> PoolState<J> {
    /// A new pool is consistent.
    pub proof fn lemma_initial(n: nat, config: ConfigState)
        requires
            n <= usize::MAX,
        ensures
            PoolState::<J>::initial(n, config).consistent(),
    {
        let pool = PoolState::<J>::initial(n, config);
        lemma_count_all(pool.workers, alive());
        assert forall|id: u64| #[trigger] pool.accounted(id) by {
            lemma_count_zero(pool.queue, job_of(id));
            lemma_count_zero(pool.workers, runs_job_of(id));
        }
    }

    /// Opening a scope keeps a pool consistent.
    pub proof fn lemma_opened(self, id: u64)
        requires
            self.consistent(),
            !self.groups.contains_key(id),
        ensures
            self.opened(id).consistent(),
    {
        let after = self.opened(id);
        assert forall|other: u64| #[trigger] after.accounted(other) by {
            assert(self.accounted(other));
        }
    }

    /// Adding a job to a scope keeps a pool consistent.
    pub proof fn lemma_executed(self, id: u64, job: J)
        requires
            self.consistent(),
            self.has_scope(id),
            self.groups[id].wait.pending < usize::MAX,
        ensures
            self.executed(id, job).consistent(),
    {
        let after = self.executed(id, job);
        assert forall|other: u64| #[trigger] after.accounted(other) by {
            assert(self.accounted(other));
            lemma_count_push(self.queue, Message::Job(job, id), job_of(other));
        }
    }

    /// Giving up a scope keeps a pool consistent.
    pub proof fn lemma_closed(self, id: u64)
        requires
            self.consistent(),
            self.has_scope(id),
        ensures
            self.closed(id).consistent(),
    {
        let after = self.closed(id);
        assert forall|other: u64| #[trigger] after.accounted(other) by {
            assert(self.accounted(other));
        }
    }

    /// Sending the signal to stop keeps a pool consistent.
    pub proof fn lemma_stop_sent(self)
        requires
            self.consistent(),
        ensures
            self.stop_sent().consistent(),
    {
        let after = self.stop_sent();
        assert forall|id: u64| #[trigger] after.accounted(id) by {
            assert(self.accounted(id));
            lemma_count_push(self.queue, Message::<J>::Stop, job_of(id));
        }
    }

    /// A turn of a worker keeps a pool consistent, and a job that is received has a scope.
    pub proof fn lemma_received(self, worker: int)
        requires
            self.consistent(),
            0 <= worker < self.workers.len(),
            self.workers[worker] == WorkerState::Idle,
        ensures
            self.received(worker).consistent(),
            self.queue.len() > 0 ==> (self.queue[0] matches Message::Job(_, id) ==> self.has_scope(
                id,
            )),
    {
        let after = self.received(worker);
        if self.queue.len() > 0 {
            lemma_count_update(self.workers, worker, after.workers[worker], alive());
            assert forall|id: u64| #[trigger] after.accounted(id) by {
                assert(self.accounted(id));
                lemma_count_drop_first(self.queue, job_of(id));
                lemma_count_push(self.queue.drop_first(), Message::<J>::Stop, job_of(id));
                lemma_count_update(self.workers, worker, after.workers[worker], runs_job_of(id));
            }
            if let Message::Job(_, id) = self.queue[0] {
                assert(self.accounted(id));
                lemma_count_drop_first(self.queue, job_of(id));
            }
        }
    }

    /// The end of a job keeps a pool consistent, and the job has a scope until then.
    pub proof fn lemma_finished(self, worker: int)
        requires
            self.consistent(),
            0 <= worker < self.workers.len(),
            self.workers[worker] is Running,
        ensures
            self.finished(worker).consistent(),
            self.has_scope(self.workers[worker]->Running_0),
    {
        let after = self.finished(worker);
        let id = self.workers[worker]->Running_0;
        lemma_count_zero(self.workers, runs_job_of(id));
        assert(self.accounted(id));
        lemma_count_update(self.workers, worker, WorkerState::Idle, alive());
        assert forall|other: u64| #[trigger] after.accounted(other) by {
            assert(self.accounted(other));
            lemma_count_update(self.workers, worker, WorkerState::Idle, runs_job_of(other));
        }
    }

    /// A panic of a worker keeps a pool consistent, and its job has a scope until then.
    pub proof fn lemma_panicked(self, worker: int)
        requires
            self.consistent(),
            0 <= worker < self.workers.len(),
            alive()(self.workers[worker]),
        ensures
            self.panicked(worker).consistent(),
            self.workers[worker] matches WorkerState::Running(id) ==> self.has_scope(id),
    {
        let after = self.panicked(worker);
        lemma_count_update(self.workers, worker, WorkerState::Panicked, alive());
        if let WorkerState::Running(id) = self.workers[worker] {
            lemma_count_zero(self.workers, runs_job_of(id));
            assert(self.accounted(id));
        }
        assert forall|other: u64| #[trigger] after.accounted(other) by {
            assert(self.accounted(other));
            lemma_count_update(self.workers, worker, WorkerState::Panicked, runs_job_of(other));
        }
    }

    /// Replacing a worker keeps a pool consistent.
    pub proof fn lemma_replaced(self, worker: int)
        requires
            self.consistent(),
            0 <= worker < self.workers.len(),
            self.workers[worker] is Panicked,
        ensures
            self.replaced(worker).consistent(),
    {
        let after = self.replaced(worker);
        lemma_count_update(self.workers, worker, WorkerState::Idle, alive());
        lemma_count_bound(after.workers, alive());
        assert forall|id: u64| #[trigger] after.accounted(id) by {
            assert(self.accounted(id));
            lemma_count_update(self.workers, worker, WorkerState::Idle, runs_job_of(id));
        }
    }
}

} // verus!
