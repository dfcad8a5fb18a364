//! Scopes: sets of jobs that are awaited together.

use crate::model::Message;
use crate::pool::Pool;
use crate::wait::Joined;
use vstd::prelude::*;

verus! {

/// A scope represents a bunch of jobs that must be finished if this scope is left.
///
/// It is known by the number of the wait group that its jobs count in, and belongs to the pool
/// that it was opened on.
#[derive(Debug)]
pub struct Scope {
    wait: u64,
}

/// How the job of a [`Scope::zoom`] ended: the scheduling job, which runs on the thread that opened
/// the subscope.
pub enum JobEnd<R> {
    Returned(R),
    Panicked,
}

/// What the thread that leaves a subscope has to do.
pub enum Left<R> {
    /// Sleep, and try to leave again. Jobs of the subscope are not finished.
    Blocked(JobEnd<R>),
    /// Return the value of the scheduling job.
    Returned(R),
    /// Go on with the panic of the scheduling job.
    Unwind,
    /// Panic, because a job of the subscope did. What became of the scheduling job is handed back.
    Poisoned(JobEnd<R>),
}

/// What to do about a subscope whose scheduling job ended as given, and whose wait group gives the
/// answer `joined`.
pub open spec fn left_spec<R>(end: JobEnd<R>, joined: Joined) -> Left<R> {
    match (joined, end) {
        (Joined::Blocked, end) => Left::Blocked(end),
        (Joined::Done, JobEnd::Returned(value)) => Left::Returned(value),
        (Joined::Done, JobEnd::Panicked) => Left::Unwind,
        (Joined::Poisoned, end) => Left::Poisoned(end),
    }
}

impl View for Scope {
    type V = u64;

    closed spec fn view(&self) -> u64 {
        self.wait
    }
}

impl Scope {
    /// Create a Scope which lasts forever, that is, until it is closed.
    pub fn forever<J>(pool: &mut Pool<J>) -> (scope: Scope)
        requires
            old(pool).wf(),
        ensures
            final(pool).wf(),
            !old(pool)@.groups.contains_key(scope@),
            final(pool)@ == old(pool)@.opened(scope@),
    {
        Scope { wait: pool.open_group() }
    }

    /// Whether this scope is in use: it was not closed, or jobs of it are not finished.
    pub fn in_use<J>(&self, pool: &Pool<J>) -> (answer: bool)
        requires
            pool.wf(),
        ensures
            answer == pool@.has_scope(self@),
    {
        pool.has_group(self.wait)
    }

    /// Whether another job can be added to this scope, that is, whether the scope is in use and
    /// its counter has room.
    pub fn has_room<J>(&self, pool: &Pool<J>) -> (answer: bool)
        requires
            pool.wf(),
        ensures
            answer == (pool@.has_scope(self@) && pool@.groups[self@].wait.pending < usize::MAX),
    {
        pool.has_room_for(self.wait)
    }

    /// Add a job to this scope.
    ///
    /// Subsequent calls to `join` will wait for this job to complete.
    pub fn execute<J>(&self, pool: &mut Pool<J>, job: J)
        requires
            old(pool).wf(),
            old(pool)@.has_scope(self@),
            old(pool)@.groups[self@].wait.pending < usize::MAX,
        ensures
            final(pool).wf(),
            final(pool)@ == old(pool)@.executed(self@, job),
            final(pool)@.queue == old(pool)@.queue.push(Message::Job(job, self@)),
    {
        pool.submit(self.wait, job);
    }

    /// Add a job to this scope, which will also get access to this scope and thus can spawn more
    /// jobs that belong to this scope.
    pub fn recurse<J, F: FnOnce(Scope) -> J>(&self, pool: &mut Pool<J>, job: F)
        requires
            old(pool).wf(),
            old(pool)@.has_scope(self@),
            old(pool)@.groups[self@].wait.pending < usize::MAX,
            forall|scope: Scope| scope@ == self@ ==> #[trigger] call_requires(job, (scope,)),
        ensures
            final(pool).wf(),
            exists|scope: Scope, made: J|
                scope@ == self@ && #[trigger] call_ensures(job, (scope,), made) && final(pool)@
                    == old(pool)@.executed(self@, made),
    {
        let this = self.private_clone();
        let made = job(this);
        self.execute(pool, made);
    }

    /// Awaits all jobs submitted on this Scope to be completed: tells whether the calling thread
    /// has to sleep, may go on, or has to panic.
    pub fn join<J>(&self, pool: &Pool<J>) -> (answer: Joined)
        requires
            pool.wf(),
            pool@.has_scope(self@),
        ensures
            answer == pool@.joined(self@),
            answer is Blocked <==> pool@.queued(self@) + pool@.running(self@) > 0,
    {
        proof {
            pool.lemma_consistent();
            assert(pool@.accounted(self@));
        }
        pool.join_group(self.wait)
    }

    /// Create a new subscope.
    ///
    /// The subscope has a different job set. It is left by [`Scope::leave`] once the scheduling
    /// job has ended, and is joined thereby.
    pub fn zoom<J>(&self, pool: &mut Pool<J>) -> (scope: Scope)
        requires
            old(pool).wf(),
        ensures
            final(pool).wf(),
            !old(pool)@.groups.contains_key(scope@),
            final(pool)@ == old(pool)@.opened(scope@),
    {
        self.refine(pool)
    }

    /// Leaves this subscope after its scheduling job has ended, by whatever way: tells whether the
    /// calling thread has to sleep, or how it goes on. The subscope is closed unless the thread
    /// has to sleep.
    pub fn leave<J, R>(&self, pool: &mut Pool<J>, end: JobEnd<R>) -> (left: Left<R>)
        requires
            old(pool).wf(),
            old(pool)@.has_scope(self@),
        ensures
            final(pool).wf(),
            left == left_spec(end, old(pool)@.joined(self@)),
            left is Blocked <==> old(pool)@.queued(self@) + old(pool)@.running(self@) > 0,
            final(pool)@ == if left is Blocked {
                old(pool)@
            } else {
                old(pool)@.closed(self@)
            },
    {
        match self.join(pool) {
            Joined::Blocked => Left::Blocked(end),
            Joined::Done => {
                pool.close_group(self.wait);
                match end {
                    JobEnd::Returned(value) => Left::Returned(value),
                    JobEnd::Panicked => Left::Unwind,
                }
            },
            Joined::Poisoned => {
                pool.close_group(self.wait);
                Left::Poisoned(end)
            },
        }
    }

    /// Gives up this scope. Jobs of it that are not finished stay accounted for until they are.
    pub fn close<J>(self, pool: &mut Pool<J>)
        requires
            old(pool).wf(),
            old(pool)@.has_scope(self@),
        ensures
            final(pool).wf(),
            final(pool)@ == old(pool)@.closed(self@),
    {
        pool.close_group(self.wait);
    }

    /// Clone this scope, but don't expose this functionality to the user.
    fn private_clone(&self) -> (scope: Scope)
        ensures
            scope@ == self@,
    {
        Scope { wait: self.wait }
    }

    /// Create a new scope with a job set of its own.
    fn refine<J>(&self, pool: &mut Pool<J>) -> (scope: Scope)
        requires
            old(pool).wf(),
        ensures
            final(pool).wf(),
            !old(pool)@.groups.contains_key(scope@),
            final(pool)@ == old(pool)@.opened(scope@),
    {
        Scope { wait: pool.open_group() }
    }
}

} // verus!
