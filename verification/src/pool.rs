//! The pool: worker threads that take messages from a channel.

use crate::channel::{Channel, Ticket};
use crate::config::{ConfigState, ThreadConfig};
use crate::model::{
    alive, count, lemma_count_drop_first, lemma_count_update, Message, PoolState, ThreadState, Turn,
    WorkerState,
};
use crate::scope::Scope;
use crate::wait::{Joined, Sentinel, WaitGroups};
use std::collections::VecDeque;
use vstd::prelude::*;

verus! {

/// The messages that tickets stand for: the jobs are parked in the order of their tickets.
spec fn messages<J>(tickets: Seq<Ticket>, jobs: Seq<J>) -> Seq<Message<J>>
    decreases tickets.len(),
{
    if tickets.len() == 0 {
        Seq::empty()
    } else {
        match tickets.last() {
            Ticket::Stop => messages(tickets.drop_last(), jobs).push(Message::Stop),
            Ticket::Job(group) => messages(tickets.drop_last(), jobs.drop_last()).push(
                Message::Job(jobs.last(), group),
            ),
        }
    }
}

/// Whether a ticket stands for a job.
spec fn job_ticket() -> spec_fn(Ticket) -> bool {
    |ticket: Ticket| ticket is Job
}

/// Taking the first ticket, and the first job if it is the ticket of one, takes the first message.
proof fn lemma_messages_drop_first<J>(tickets: Seq<Ticket>, jobs: Seq<J>)
    requires
        tickets.len() > 0,
        jobs.len() == count(tickets, job_ticket()),
    ensures
        match tickets[0] {
            Ticket::Stop => messages(tickets, jobs) == seq![Message::<J>::Stop] + messages(
                tickets.drop_first(),
                jobs,
            ),
            Ticket::Job(group) => messages(tickets, jobs) == seq![Message::Job(jobs[0], group)]
                + messages(tickets.drop_first(), jobs.drop_first()),
        },
    decreases tickets.len(),
{
    let front = tickets.drop_last();
    let rest = tickets.drop_first();
    lemma_count_drop_first(tickets, job_ticket());
    if tickets.len() == 1 {
        assert(front =~= Seq::empty());
        assert(rest =~= Seq::empty());
        assert(messages(front, jobs.drop_last()) =~= Seq::empty());
        assert(messages(rest, jobs.drop_first()) =~= Seq::empty());
        assert(tickets[0] is Job ==> jobs.len() == 1);
    } else {
        assert(front.drop_first() =~= rest.drop_last());
        assert(rest.last() == tickets.last());
        lemma_count_drop_first(front, job_ticket());
        match tickets.last() {
            Ticket::Stop => {
                lemma_messages_drop_first(front, jobs);
                assert(messages(rest, jobs.drop_first()) == messages(
                    rest.drop_last(),
                    jobs.drop_first(),
                ).push(Message::Stop));
            },
            Ticket::Job(group) => {
                lemma_messages_drop_first(front, jobs.drop_last());
                if tickets[0] is Job {
                    let others = jobs.drop_first();
                    assert(jobs.drop_last().drop_first() =~= others.drop_last());
                    assert(others.last() == jobs.last());
                    assert(messages(rest, others) == messages(rest.drop_last(), others.drop_last()).push(
                        Message::Job(others.last(), group),
                    ));
                }
            },
        }
    }
    match tickets[0] {
        Ticket::Stop => {
            assert(messages(tickets, jobs) =~= seq![Message::<J>::Stop] + messages(rest, jobs));
        },
        Ticket::Job(group) => {
            assert(messages(tickets, jobs) =~= seq![Message::Job(jobs[0], group)] + messages(
                rest,
                jobs.drop_first(),
            ));
        },
    }
}

/// The part of a pool that moves messages: the channel, and the jobs whose tickets are in the
/// channel.
struct PoolInner<J> {
    channel: Channel,
    config: ThreadConfig,
    /// The jobs, in the order of their tickets.
    jobs: VecDeque<J>,
}

impl<J> PoolInner<J> {
    /// The messages that no worker received yet.
    spec fn queue(self) -> Seq<Message<J>> {
        messages(self.channel@, self.jobs@)
    }

    /// Every ticket of a job in the channel stands for a parked job.
    spec fn wf(self) -> bool {
        &&& self.channel.wf()
        &&& self.jobs@.len() == count(self.channel@, job_ticket())
    }

    /// A channel without messages.
    fn with_config(config: ThreadConfig) -> (inner: Self)
        ensures
            inner.wf(),
            inner.queue() == Seq::<Message<J>>::empty(),
            inner.config == config,
    {
        PoolInner { channel: Channel::new(), config, jobs: VecDeque::new() }
    }

    /// Sends the signal to stop. The receiver is there, so sending does not fail.
    fn send_stop(&mut self)
        requires
            old(self).wf(),
        ensures
            final(self).wf(),
            final(self).queue() == old(self).queue().push(Message::Stop),
            final(self).config == old(self).config,
    {
        let _sent = self.channel.send(Ticket::Stop);
        assert(self.channel@.drop_last() =~= old(self).channel@);
    }

    /// Parks a job and sends a ticket for it.
    fn send_job(&mut self, job: J, group: u64)
        requires
            old(self).wf(),
        ensures
            final(self).wf(),
            final(self).queue() == old(self).queue().push(Message::Job(job, group)),
            final(self).config == old(self).config,
    {
        self.jobs.push_back(job);
        let _sent = self.channel.send(Ticket::Job(group));
        assert(self.channel@.drop_last() =~= old(self).channel@);
        assert(self.jobs@.drop_last() =~= old(self).jobs@);
    }

    /// Takes the oldest message, if there is one.
    fn recv(&mut self) -> (message: Option<Message<J>>)
        requires
            old(self).wf(),
        ensures
            final(self).wf(),
            final(self).config == old(self).config,
            old(self).queue().len() == 0 ==> message is None && final(self).queue() == old(
                self,
            ).queue(),
            old(self).queue().len() > 0 ==> message == Some(old(self).queue()[0])
                && final(self).queue() == old(self).queue().drop_first(),
    {
        if self.channel.is_empty() {
            return None;
        }
        proof {
            lemma_count_drop_first(self.channel@, job_ticket());
            lemma_messages_drop_first(self.channel@, self.jobs@);
        }
        match self.channel.recv() {
            Ok(Ticket::Stop) => {
                assert(self.queue() =~= old(self).queue().drop_first());
                Some(Message::Stop)
            },
            Ok(Ticket::Job(group)) => match self.jobs.pop_front() {
                Some(job) => {
                    assert(self.jobs@ =~= old(self).jobs@.drop_first());
                    assert(self.queue() =~= old(self).queue().drop_first());
                    Some(Message::Job(job, group))
                },
                None => None,
            },
            // the channel has a sender as long as the pool is there
            Err(_) => None,
        }
    }
}

/// A worker thread of a pool: what it is spawned with, and the sentinels that watch over the
/// thread and over the job that it executes.
struct Worker {
    name: String,
    stack_size: Option<usize>,
    thread_sentinel: Sentinel,
    sentinel: Sentinel,
    /// Whether the thread terminated by a panic.
    panicked: bool,
}

impl Worker {
    /// What the thread is spawned with.
    spec fn thread(self) -> ThreadState {
        ThreadState { name: self.name@, stack_size: self.stack_size }
    }

    /// What the thread is doing.
    spec fn state(self) -> WorkerState {
        match (self.thread_sentinel.0, self.sentinel.0) {
            (None, _) => if self.panicked {
                WorkerState::Panicked
            } else {
                WorkerState::Stopped
            },
            (_, Some(group)) => WorkerState::Running(group),
            (_, None) => WorkerState::Idle,
        }
    }

    /// The thread counts in the wait group of the pool, and executes no job once it terminated.
    spec fn wf(self, wait: u64) -> bool {
        &&& self.thread_sentinel.0 matches Some(group) ==> group == wait
        &&& self.thread_sentinel.0 is None ==> self.sentinel.0 is None
        &&& self.panicked ==> self.thread_sentinel.0 is None
    }
}

/// A structure providing access to a pool of worker threads and a way to spawn jobs.
///
/// A `Pool` decides and keeps account, it does not block and spawns no thread. Whoever runs the
/// worker threads guards it by a lock, has each worker take its turns by [`Pool::run_thread`], and
/// lets threads sleep that are told to wait.
pub struct Pool<J> {
    inner: PoolInner<J>,
    groups: WaitGroups,
    wait: u64,
    workers: Vec<Worker>,
}

impl<J> View for Pool<J> {
    type V = PoolState<J>;

    closed spec fn view(&self) -> PoolState<J> {
        PoolState {
            threads: self.workers@.map_values(|worker: Worker| worker.thread()),
            workers: self.workers@.map_values(|worker: Worker| worker.state()),
            queue: self.inner.queue(),
            groups: self.groups@,
            wait: self.wait,
        }
    }
}

impl<J> Pool<J> {
    /// Whether the pool is well-formed. Every pool that can be made is.
    pub closed spec fn wf(&self) -> bool {
        &&& self@.consistent()
        &&& self.inner.wf()
        &&& forall|i: int|
            0 <= i < self.workers@.len() ==> (#[trigger] self.workers@[i]).wf(self.wait)
    }

    /// The state of a well-formed pool is consistent.
    pub proof fn lemma_consistent(&self)
        requires
            self.wf(),
        ensures
            self@.consistent(),
    {
    }

    /// Create a new `Pool` that will execute its tasks on `n` worker threads.
    ///
    /// There has to be at least one worker thread.
    pub fn new(n: usize) -> (pool: Self)
        requires
            n > 0,
        ensures
            pool.wf(),
            pool@ == PoolState::<J>::initial(n as nat, ConfigState::empty()),
            pool@.workers.len() == n,
            pool@.threads.len() == n,
            pool@.alive() == n,
    {
        Self::with_config(n, ThreadConfig::new())
    }

    /// Create a new `Pool` that will execute its tasks on `n` worker threads which are spawned
    /// using the given config.
    ///
    /// There has to be at least one worker thread.
    pub fn with_config(n: usize, config: ThreadConfig) -> (pool: Self)
        requires
            n > 0,
        ensures
            pool.wf(),
            pool@ == PoolState::<J>::initial(n as nat, config@),
            pool@.workers.len() == n,
            pool@.threads.len() == n,
            pool@.alive() == n,
            forall|i: int|
                0 <= i < n ==> (#[trigger] pool@.threads[i]).stack_size == config@.stack_size,
    {
        let mut groups = WaitGroups::new();
        let wait = groups.open();
        let mut pool = Pool {
            inner: PoolInner::with_config(config),
            groups,
            wait,
            workers: Vec::new(),
        };
        proof {
            let initial = PoolState::<J>::initial(0, config@);
            assert(pool@.threads =~= initial.threads);
            assert(pool@.workers =~= initial.workers);
            assert(pool@.groups =~= initial.groups);
        }
        for id in 0..n
            invariant
                pool@ == PoolState::<J>::initial(id as nat, config@),
                pool.inner.wf(),
                pool.inner.config == config,
                forall|i: int|
                    0 <= i < pool.workers@.len() ==> (#[trigger] pool.workers@[i]).wf(pool.wait),
        {
            let ghost before = pool;
            let name = pool.inner.config.worker_name(id + 1);
            let stack_size = pool.inner.config.worker_stack_size();
            pool.groups.submit(pool.wait);
            pool.workers.push(
                Worker {
                    name,
                    stack_size,
                    thread_sentinel: Sentinel(Some(pool.wait)),
                    sentinel: Sentinel(None),
                    panicked: false,
                },
            );
            proof {
                let after = PoolState::<J>::initial((id + 1) as nat, config@);
                assert(pool@.threads =~= before@.threads.push(after.threads[id as int]));
                assert(pool@.workers =~= before@.workers.push(WorkerState::Idle));
                assert(pool@.threads =~= after.threads);
                assert(pool@.workers =~= after.workers);
                assert(pool@.groups =~= after.groups);
            }
        }
        proof {
            PoolState::<J>::lemma_initial(n as nat, config@);
        }
        pool
    }

    /// Spawn an unscoped job onto this thread pool.
    ///
    /// This method doesn't wait until the job finishes. The job counts in a wait group of its own.
    pub fn spawn(&mut self, job: J)
        requires
            old(self).wf(),
        ensures
            final(self).wf(),
            exists|id: u64|
                !old(self)@.groups.contains_key(id) && final(self)@ == #[trigger] old(self)@.opened(
                    id,
                ).executed(id, job).closed(id),
    {
        let scope = Scope::forever(self);
        scope.execute(self, job);
        scope.close(self);
    }

    /// Opens a scope for jobs which are guaranteed to be finished before the scope is left, and
    /// which are thus allowed to borrow local variables.
    ///
    /// The scope is left by [`Scope::leave`].
    pub fn scoped(&mut self) -> (scope: Scope)
        requires
            old(self).wf(),
        ensures
            final(self).wf(),
            !old(self)@.groups.contains_key(scope@),
            final(self)@ == old(self)@.opened(scope@),
    {
        let forever = Scope::forever(self);
        let scope = forever.zoom(self);
        forever.close(self);
        assert(self@.groups =~= old(self)@.opened(scope@).groups);
        scope
    }

    /// Send a shutdown signal to every worker thread and wait for their termination: tells whether
    /// the calling thread has to sleep, may go on, or has to panic. [`Pool::join`] tells it again
    /// later.
    ///
    /// The signal is sent once. Every worker that receives it passes it on.
    pub fn shutdown(&mut self) -> (answer: Joined)
        requires
            old(self).wf(),
        ensures
            final(self).wf(),
            final(self)@ == old(self)@.stop_sent(),
            final(self)@.queue == old(self)@.queue.push(Message::Stop),
            answer == final(self)@.joined(final(self)@.wait),
    {
        self.inner.send_stop();
        proof {
            old(self)@.lemma_stop_sent();
        }
        self.join()
    }

    /// What a thread that waits for the termination of all worker threads is told.
    pub fn join(&self) -> (answer: Joined)
        requires
            self.wf(),
        ensures
            answer == self@.joined(self@.wait),
            answer is Blocked <==> self@.alive() > 0,
    {
        self.groups.join(self.wait)
    }

    /// A turn of an idle worker thread: receives a message and tells what to do.
    ///
    /// A worker that executes a job reports the end of it by [`Pool::job_finished`], and a panic by
    /// [`Pool::thread_panicked`].
    pub fn run_thread(&mut self, id: usize) -> (turn: Turn<J>)
        requires
            old(self).wf(),
            id < old(self)@.workers.len(),
            old(self)@.workers[id as int] == WorkerState::Idle,
        ensures
            final(self).wf(),
            final(self)@ == old(self)@.received(id as int),
            turn == old(self)@.turn(),
            old(self)@.queue.len() == 0 ==> turn is Wait && final(self)@ == old(self)@,
            old(self)@.queue.len() > 0 ==> match old(self)@.queue[0] {
                Message::Job(job, group) => turn == Turn::Execute(job) && final(self)@.workers
                    == old(self)@.workers.update(id as int, WorkerState::Running(group)),
                Message::Stop => turn == Turn::<J>::Exit(old(self)@.alive() == 1)
                    && final(self)@.workers == old(self)@.workers.update(
                    id as int,
                    WorkerState::Stopped,
                ),
            },
    {
        proof {
            old(self)@.lemma_received(id as int);
        }
        match self.inner.recv() {
            Some(Message::Stop) => {
                // the pool only sends one `Stop` message so we duplicate it
                // to propagate the stops into other threads too
                self.inner.send_stop();
                let thread_sentinel = Sentinel(self.workers[id].thread_sentinel.0.take());
                let wake = thread_sentinel.cancel(&mut self.groups);
                assert(self@.threads =~= old(self)@.threads);
                assert(self@.workers =~= old(self)@.received(id as int).workers);
                Turn::Exit(wake)
            },
            Some(Message::Job(job, group)) => {
                self.workers[id].sentinel = Sentinel(Some(group));
                assert(self@.threads =~= old(self)@.threads);
                assert(self@.workers =~= old(self)@.received(id as int).workers);
                Turn::Execute(job)
            },
            None => Turn::Wait,
        }
    }

    /// Takes down that the job of a worker thread is done, which makes the worker idle. Returns
    /// whether the threads that wait for the scope of the job have to be woken.
    pub fn job_finished(&mut self, id: usize) -> (wake: bool)
        requires
            old(self).wf(),
            id < old(self)@.workers.len(),
            old(self)@.workers[id as int] is Running,
        ensures
            final(self).wf(),
            final(self)@ == old(self)@.finished(id as int),
            final(self)@.workers == old(self)@.workers.update(id as int, WorkerState::Idle),
            final(self)@.alive() == old(self)@.alive(),
            wake == (old(self)@.groups[old(
                self,
            )@.workers[id as int]->Running_0].wait.pending == 1),
    {
        proof {
            old(self)@.lemma_finished(id as int);
            lemma_count_update(old(self)@.workers, id as int, WorkerState::Idle, alive());
        }
        let sentinel = Sentinel(self.workers[id].sentinel.0.take());
        let wake = sentinel.cancel(&mut self.groups);
        assert(self@.threads =~= old(self)@.threads);
        assert(self@.workers =~= old(self)@.finished(id as int).workers);
        wake
    }

    /// Takes down that a worker thread panicked, which terminates it. Returns whether the threads
    /// that wait for the scope of its job, and those that wait for the worker threads, have to be
    /// woken.
    ///
    /// Another thread takes its place by [`Pool::thread_replaced`].
    pub fn thread_panicked(&mut self, id: usize) -> (wake: (bool, bool))
        requires
            old(self).wf(),
            id < old(self)@.workers.len(),
            old(self)@.workers[id as int] is Idle || old(self)@.workers[id as int] is Running,
        ensures
            final(self).wf(),
            final(self)@ == old(self)@.panicked(id as int),
            final(self)@.workers == old(self)@.workers.update(id as int, WorkerState::Panicked),
            wake.0 == (old(self)@.workers[id as int] matches WorkerState::Running(group) && old(
                self,
            )@.groups[group].wait.pending == 1),
            wake.1 == (old(self)@.alive() == 1),
    {
        proof {
            old(self)@.lemma_panicked(id as int);
        }
        let mut sentinel = Sentinel(self.workers[id].sentinel.0.take());
        let wake_scope = sentinel.drop(&mut self.groups);
        let mut thread_sentinel = Sentinel(self.workers[id].thread_sentinel.0.take());
        let wake_pool = thread_sentinel.drop(&mut self.groups);
        self.workers[id].panicked = true;
        assert(self@.threads =~= old(self)@.threads);
        assert(self@.workers =~= old(self)@.panicked(id as int).workers);
        (wake_scope, wake_pool)
    }

    /// Takes down that another thread, with the same name and stack size, was spawned in the place
    /// of a worker thread that panicked. A worker that received the signal to stop is not replaced.
    pub fn thread_replaced(&mut self, id: usize)
        requires
            old(self).wf(),
            id < old(self)@.workers.len(),
            old(self)@.workers[id as int] is Panicked,
        ensures
            final(self).wf(),
            final(self)@ == old(self)@.replaced(id as int),
            final(self)@.workers == old(self)@.workers.update(id as int, WorkerState::Idle),
    {
        proof {
            old(self)@.lemma_replaced(id as int);
        }
        self.groups.submit(self.wait);
        self.workers[id].thread_sentinel = Sentinel(Some(self.wait));
        self.workers[id].panicked = false;
        assert(self@.threads =~= old(self)@.threads);
        assert(self@.workers =~= old(self)@.replaced(id as int).workers);
    }

    /// The number of worker threads of this pool.
    pub fn worker_count(&self) -> (n: usize)
        requires
            self.wf(),
        ensures
            n == self@.workers.len(),
    {
        self.workers.len()
    }

    /// What a worker thread is doing.
    pub fn worker_state(&self, id: usize) -> (state: WorkerState)
        requires
            self.wf(),
            id < self@.workers.len(),
        ensures
            state == self@.workers[id as int],
    {
        let worker = &self.workers[id];
        if worker.thread_sentinel.0.is_none() {
            return if worker.panicked {
                WorkerState::Panicked
            } else {
                WorkerState::Stopped
            };
        }
        match worker.sentinel.0 {
            Some(group) => WorkerState::Running(group),
            None => WorkerState::Idle,
        }
    }

    /// The name and the stack size to spawn a worker thread with.
    pub fn worker_thread(&self, id: usize) -> (thread: (&str, Option<usize>))
        requires
            self.wf(),
            id < self@.workers.len(),
        ensures
            thread.0@ == self@.threads[id as int].name,
            thread.1 == self@.threads[id as int].stack_size,
    {
        let worker = &self.workers[id];
        (worker.name.as_str(), worker.stack_size)
    }

    /// Whether a wait group is in use, and is that of a scope.
    pub(crate) fn has_group(&self, group: u64) -> (answer: bool)
        requires
            self.wf(),
        ensures
            answer == self@.has_scope(group),
    {
        group != self.wait && self.groups.contains(group)
    }

    /// Whether a wait group is that of a scope, and has room for another job.
    pub(crate) fn has_room_for(&self, group: u64) -> (answer: bool)
        requires
            self.wf(),
        ensures
            answer == (self@.has_scope(group) && self@.groups[group].wait.pending < usize::MAX),
    {
        self.has_group(group) && self.groups.pending(group) < usize::MAX
    }

    /// Opens the wait group of a new scope.
    pub(crate) fn open_group(&mut self) -> (group: u64)
        requires
            old(self).wf(),
        ensures
            final(self).wf(),
            !old(self)@.groups.contains_key(group),
            final(self)@ == old(self)@.opened(group),
    {
        let group = self.groups.open();
        proof {
            old(self)@.lemma_opened(group);
        }
        group
    }

    /// Gives up the wait group of a scope.
    pub(crate) fn close_group(&mut self, group: u64)
        requires
            old(self).wf(),
            old(self)@.has_scope(group),
        ensures
            final(self).wf(),
            final(self)@ == old(self)@.closed(group),
    {
        proof {
            old(self)@.lemma_closed(group);
        }
        self.groups.close(group);
    }

    /// What a thread that joins the wait group of a scope is told.
    pub(crate) fn join_group(&self, group: u64) -> (answer: Joined)
        requires
            self.wf(),
            self@.has_scope(group),
        ensures
            answer == self@.joined(group),
    {
        self.groups.join(group)
    }

    /// Counts a job in the wait group of a scope, and sends it to the workers.
    pub(crate) fn submit(&mut self, group: u64, job: J)
        requires
            old(self).wf(),
            old(self)@.has_scope(group),
            old(self)@.groups[group].wait.pending < usize::MAX,
        ensures
            final(self).wf(),
            final(self)@ == old(self)@.executed(group, job),
    {
        proof {
            old(self)@.lemma_executed(group, job);
        }
        self.groups.submit(group);
        self.inner.send_job(job, group);
    }
}

} // verus!
