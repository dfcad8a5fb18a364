//! What each operation does, told by what is there before and after it: which worker, message,
//! group or setting changes, to what, and that everything else stays.

use crate::config::{decimal, digit, worker_name_spec, ConfigState};
use crate::laws::{after_all, possible, Event};
use crate::model::{
    alive, count, job_of, lemma_count_all, lemma_count_update, runs_job_of, Message, PoolState, Turn,
    WorkerState,
};
use crate::scope::{left_spec, JobEnd, Left};
use crate::wait::{
    group_closed, group_completed, group_poisoned, group_submitted, GroupState, Joined, WaitState,
};
use vstd::arithmetic::div_mod::lemma_fundamental_div_mod_converse;
use vstd::prelude::*;

verus! {

/// A new configuration sets nothing.
pub proof fn law_new_config_sets_nothing()
    ensures
        ConfigState::empty().prefix is None,
        ConfigState::empty().stack_size is None,
{
}

/// Setting a prefix sets exactly that one, whatever was set before, and no other setting. Every
/// worker name made from it begins with all of the prefix, goes on with a dash, and ends with the
/// number. So do the names of the threads of a pool made with it, numbered from one.
pub proof fn law_prefix_is_set<J>(
    config: ConfigState,
    prefix: Seq<char>,
    number: nat,
    n: nat,
    worker: int,
)
    requires
        0 <= worker < n,
    ensures
        config.with_prefix(prefix).prefix == Some(prefix),
        config.with_prefix(prefix).stack_size == config.stack_size,
        worker_name_spec(config.with_prefix(prefix).prefix, number) =~= prefix + seq!['-'] + decimal(
            number,
        ),
        PoolState::<J>::initial(n, config.with_prefix(prefix)).threads[worker].name =~= prefix
            + seq!['-'] + decimal((worker + 1) as nat),
{
    reveal_strlit("-");
}

/// Of several settings of the same kind, the last one counts.
pub proof fn law_last_setting_counts(
    config: ConfigState,
    prefixes: (Seq<char>, Seq<char>),
    stack_sizes: (usize, usize),
)
    ensures
        config.with_prefix(prefixes.0).with_prefix(prefixes.1) == config.with_prefix(prefixes.1),
        config.with_stack_size(stack_sizes.0).with_stack_size(stack_sizes.1)
            == config.with_stack_size(stack_sizes.1),
{
}

/// Without a prefix, the names begin with `worker-thread`.
pub proof fn law_default_prefix(number: nat)
    ensures
        worker_name_spec(None, number) =~= "worker-thread"@ + seq!['-'] + decimal(number),
{
    reveal_strlit("-");
}

/// Setting a stack size sets exactly that one, whatever was set before, and no other setting. Every
/// thread of a pool made with it gets that stack size.
pub proof fn law_stack_size_is_set<J>(
    config: ConfigState,
    stack_size: usize,
    n: nat,
    worker: int,
)
    requires
        0 <= worker < n,
    ensures
        config.with_stack_size(stack_size).stack_size == Some(stack_size),
        config.with_stack_size(stack_size).prefix == config.prefix,
        PoolState::<J>::initial(n, config.with_stack_size(stack_size)).threads[worker].stack_size
            == Some(stack_size),
{
}

/// The number that a row of decimal digits is read as.
pub open spec fn read_decimal(digits: Seq<char>) -> int
    decreases digits.len(),
{
    if digits.len() == 0 {
        0
    } else {
        10 * read_decimal(digits.drop_last()) + (digits.last() as int - '0' as int)
    }
}

/// A number in decimal notation consists of digits, does not begin with a zero unless it is the
/// only digit, and is read as that number.
pub proof fn law_decimal_reads_back(n: nat)
    ensures
        decimal(n).len() > 0,
        forall|i: int|
            0 <= i < decimal(n).len() ==> '0' as int <= #[trigger] decimal(n)[i] as int <= '9' as int,
        decimal(n).len() > 1 ==> decimal(n)[0] != '0',
        read_decimal(decimal(n)) == n,
    decreases n,
{
    reveal_with_fuel(read_decimal, 2);
    if n < 10 {
        assert(decimal(n).drop_last() =~= Seq::empty());
        assert(digit(n) as int - '0' as int == n);
        assert(n > 0 ==> decimal(n)[0] != '0');
    } else {
        law_decimal_reads_back(n / 10);
        assert(decimal(n).drop_last() =~= decimal(n / 10));
        assert(digit(n % 10) as int - '0' as int == n % 10);
        assert(decimal(n)[0] == decimal(n / 10)[0]);
        if n / 10 < 10 {
            assert(decimal(n / 10) =~= seq![digit(n / 10)]);
        }
    }
}

/// A pool made for `n` workers has exactly `n` of them. All are idle and count in the wait group of
/// the pool, which is the only group. No message waits. The threads are named by the configured
/// prefix and numbered from one, and have the configured stack size.
pub proof fn law_new_pool<J>(n: nat, config: ConfigState, worker: int, id: u64)
    ensures
        PoolState::<J>::initial(n, config).workers.len() == n,
        PoolState::<J>::initial(n, config).threads.len() == n,
        0 <= worker < n ==> PoolState::<J>::initial(n, config).workers[worker] is Idle,
        0 <= worker < n ==> PoolState::<J>::initial(n, config).threads[worker].stack_size
            == config.stack_size,
        0 <= worker < n ==> PoolState::<J>::initial(n, config).threads[worker].name =~= (
        match config.prefix {
            Some(prefix) => prefix,
            None => "worker-thread"@,
        }) + seq!['-'] + decimal((worker + 1) as nat),
        PoolState::<J>::initial(n, config).queue.len() == 0,
        PoolState::<J>::initial(n, config).groups.contains_key(id) <==> id
            == PoolState::<J>::initial(n, config).wait,
        ({
            let group = PoolState::<J>::initial(n, config).groups[PoolState::<J>::initial(
                n,
                config,
            ).wait];
            group.wait.pending == n && !group.wait.poisoned && group.open
        }),
{
    reveal_strlit("-");
}

/// A new wait group has no jobs. Submitting a job adds one, completing or poisoning takes one away,
/// each of them modulo the range of the counter. Only poisoning changes the flag, and sets it.
pub proof fn law_wait_group_steps(wait: WaitState)
    requires
        wait.pending <= usize::MAX,
    ensures
        WaitState::empty().pending == 0,
        !WaitState::empty().poisoned,
        wait.submitted().pending == (wait.pending as int + 1) % (usize::MAX + 1),
        wait.submitted().poisoned == wait.poisoned,
        wait.completed().pending == (wait.pending as int - 1) % (usize::MAX + 1),
        wait.completed().poisoned == wait.poisoned,
        wait.poisoned().pending == (wait.pending as int - 1) % (usize::MAX + 1),
        wait.poisoned().poisoned,
{
    let range: int = usize::MAX + 1;
    let more: int = wait.pending as int + 1;
    let less: int = wait.pending - 1;
    if more == range {
        lemma_fundamental_div_mod_converse(more, range, 1, 0);
    } else {
        lemma_fundamental_div_mod_converse(more, range, 0, more);
    }
    if less < 0 {
        lemma_fundamental_div_mod_converse(less, range, -1, range - 1);
    } else {
        lemma_fundamental_div_mod_converse(less, range, 0, less);
    }
}

/// Joining blocks while jobs are outstanding, and otherwise panics exactly if the group is poisoned.
pub proof fn law_join_answers(wait: WaitState)
    ensures
        wait.joined() is Blocked <==> wait.pending != 0,
        wait.joined() is Poisoned <==> wait.pending == 0 && wait.poisoned,
        wait.joined() is Done <==> wait.pending == 0 && !wait.poisoned,
{
}

/// The operations on one group of a table leave all other groups as they are.
pub proof fn law_groups_do_not_mix(groups: Map<u64, GroupState>, id: u64, other: u64)
    requires
        id != other,
    ensures
        group_submitted(groups, id).contains_key(other) == groups.contains_key(other),
        group_submitted(groups, id)[other] == groups[other],
        group_completed(groups, id).contains_key(other) == groups.contains_key(other),
        group_completed(groups, id)[other] == groups[other] || !groups.contains_key(other),
        group_poisoned(groups, id).contains_key(other) == groups.contains_key(other),
        group_poisoned(groups, id)[other] == groups[other] || !groups.contains_key(other),
        group_closed(groups, id).contains_key(other) == groups.contains_key(other),
        group_closed(groups, id)[other] == groups[other] || !groups.contains_key(other),
{
}

/// What happens to the group itself: submitting keeps it in use with one job more. Completing and
/// poisoning leave it with one job less, or drop it if that was the last one and it has no owner.
/// Closing takes its owner, and drops it if it has no job. Nothing else of it changes.
pub proof fn law_group_steps(groups: Map<u64, GroupState>, id: u64)
    requires
        groups.contains_key(id),
        groups[id].wait.pending <= usize::MAX,
    ensures
        groups[id].wait.pending < usize::MAX ==> {
            &&& group_submitted(groups, id).contains_key(id)
            &&& group_submitted(groups, id)[id].wait.pending == groups[id].wait.pending + 1
            &&& group_submitted(groups, id)[id].wait.poisoned == groups[id].wait.poisoned
            &&& group_submitted(groups, id)[id].open == groups[id].open
        },
        groups[id].wait.pending > 0 ==> {
            &&& group_completed(groups, id).contains_key(id) <==> groups[id].open
                || groups[id].wait.pending > 1
            &&& group_completed(groups, id).contains_key(id) ==> {
                &&& group_completed(groups, id)[id].wait.pending == groups[id].wait.pending - 1
                &&& group_completed(groups, id)[id].wait.poisoned == groups[id].wait.poisoned
                &&& group_completed(groups, id)[id].open == groups[id].open
            }
            &&& group_poisoned(groups, id).contains_key(id) <==> groups[id].open
                || groups[id].wait.pending > 1
            &&& group_poisoned(groups, id).contains_key(id) ==> {
                &&& group_poisoned(groups, id)[id].wait.pending == groups[id].wait.pending - 1
                &&& group_poisoned(groups, id)[id].wait.poisoned
                &&& group_poisoned(groups, id)[id].open == groups[id].open
            }
        },
        groups[id].wait.pending == 0 ==> {
            &&& group_completed(groups, id).contains_key(id)
            &&& group_completed(groups, id)[id].wait.pending == usize::MAX
            &&& group_completed(groups, id)[id].wait.poisoned == groups[id].wait.poisoned
            &&& group_completed(groups, id)[id].open == groups[id].open
            &&& group_poisoned(groups, id).contains_key(id)
            &&& group_poisoned(groups, id)[id].wait.pending == usize::MAX
            &&& group_poisoned(groups, id)[id].wait.poisoned
            &&& group_poisoned(groups, id)[id].open == groups[id].open
        },
        group_closed(groups, id).contains_key(id) <==> groups[id].wait.pending > 0,
        group_closed(groups, id).contains_key(id) ==> {
            &&& group_closed(groups, id)[id].wait.pending == groups[id].wait.pending
            &&& group_closed(groups, id)[id].wait.poisoned == groups[id].wait.poisoned
            &&& !group_closed(groups, id)[id].open
        },
{
}

/// A count is the number of items that have the property. A worker is alive if it is idle or
/// executes a job.
pub proof fn law_counts<T, J>(s: Seq<T>, p: spec_fn(T) -> bool, pool: PoolState<J>, id: u64)
    ensures
        count(s, p) == s.filter(p).len(),
        pool.queued(id) == pool.queue.filter(
            |message: Message<J>| message matches Message::Job(_, group) && group == id,
        ).len(),
        pool.running(id) == pool.workers.filter(
            |worker: WorkerState| worker == WorkerState::Running(id),
        ).len(),
        pool.alive() == pool.workers.filter(
            |worker: WorkerState| worker is Idle || worker is Running,
        ).len(),
{
    lemma_count_is_filter(s, p);
    let queued = |message: Message<J>| message matches Message::Job(_, group) && group == id;
    let running = |worker: WorkerState| worker == WorkerState::Running(id);
    let living = |worker: WorkerState| worker is Idle || worker is Running;
    assert(job_of::<J>(id) =~= queued);
    assert(runs_job_of(id) =~= running);
    assert(alive() =~= living);
    lemma_count_is_filter(pool.queue, queued);
    lemma_count_is_filter(pool.workers, running);
    lemma_count_is_filter(pool.workers, living);
}

proof fn lemma_count_is_filter<T>(s: Seq<T>, p: spec_fn(T) -> bool)
    ensures
        count(s, p) == s.filter(p).len(),
    decreases s.len(),
{
    reveal(Seq::filter);
    if s.len() > 0 {
        lemma_count_is_filter(s.drop_last(), p);
    }
}

/// The groups in use are those of scopes, and the one that the workers count in.
pub proof fn law_groups_in_use<J>(pool: PoolState<J>, id: u64)
    ensures
        pool.groups.contains_key(id) && id != pool.wait <==> pool.has_scope(id),
        !pool.has_scope(pool.wait),
{
}

/// What a turn tells follows from the oldest message alone: the worker waits exactly if there is no
/// message, executes exactly the job that the message holds, and terminates exactly if the message
/// is the signal to stop.
pub proof fn law_turn_follows_oldest_message<J>(pool: PoolState<J>, job: J)
    ensures
        pool.turn() is Wait <==> pool.queue.len() == 0,
        pool.turn() == Turn::Execute(job) <==> pool.queue.len() > 0 && (
        pool.queue[0] matches Message::Job(oldest, _) && oldest == job),
        pool.turn() is Exit <==> pool.queue.len() > 0 && pool.queue[0] is Stop,
{
}

/// A turn of an idle worker with no message changes nothing, and tells the worker to wait.
pub proof fn law_turn_without_message<J>(pool: PoolState<J>, worker: int)
    requires
        pool.queue.len() == 0,
    ensures
        pool.turn() is Wait,
        pool.received(worker) == pool,
{
}

/// A turn of an idle worker whose oldest message is a job hands out that very job, whatever the
/// other workers do. The message leaves the queue, and the worker executes a job of the group of
/// the message. Nothing else changes.
pub proof fn law_turn_hands_out_oldest_job<J>(
    pool: PoolState<J>,
    worker: int,
    job: J,
    id: u64,
    other: int,
    i: int,
)
    requires
        0 <= worker < pool.workers.len(),
        pool.queue.len() > 0,
        pool.queue[0] == Message::Job(job, id),
    ensures
        pool.turn() == Turn::Execute(job),
        pool.received(worker).workers[worker] == WorkerState::Running(id),
        pool.received(worker).workers.len() == pool.workers.len(),
        0 <= other < pool.workers.len() && other != worker ==> pool.received(worker).workers[other]
            == pool.workers[other],
        pool.received(worker).queue.len() + 1 == pool.queue.len(),
        0 <= i < pool.queue.len() - 1 ==> pool.received(worker).queue[i] == pool.queue[i + 1],
        pool.received(worker).groups == pool.groups,
        pool.received(worker).threads == pool.threads,
        pool.received(worker).wait == pool.wait,
{
}

/// A turn of an idle worker whose oldest message is the signal to stop terminates the worker, which
/// counts no longer, and brings the signal behind all other messages. Those who wait for the workers
/// are woken if it was the last one. Nothing else changes.
pub proof fn law_turn_stops_worker<J>(
    pool: PoolState<J>,
    worker: int,
    other: int,
    i: int,
    id: u64,
)
    requires
        0 <= worker < pool.workers.len(),
        pool.queue.len() > 0,
        pool.queue[0] is Stop,
        pool.groups.contains_key(pool.wait),
        pool.groups[pool.wait].open,
        pool.groups[pool.wait].wait.pending > 0,
    ensures
        pool.turn() == Turn::<J>::Exit(pool.groups[pool.wait].wait.pending == 1),
        pool.received(worker).workers[worker] is Stopped,
        pool.received(worker).workers.len() == pool.workers.len(),
        0 <= other < pool.workers.len() && other != worker ==> pool.received(worker).workers[other]
            == pool.workers[other],
        pool.received(worker).queue.len() == pool.queue.len(),
        0 <= i < pool.queue.len() - 1 ==> pool.received(worker).queue[i] == pool.queue[i + 1],
        pool.received(worker).queue[pool.queue.len() - 1] is Stop,
        pool.received(worker).groups.contains_key(pool.wait),
        pool.received(worker).groups[pool.wait].wait.pending + 1
            == pool.groups[pool.wait].wait.pending,
        pool.received(worker).groups[pool.wait].wait.poisoned
            == pool.groups[pool.wait].wait.poisoned,
        pool.received(worker).groups[pool.wait].open,
        id != pool.wait ==> pool.received(worker).groups.contains_key(id)
            == pool.groups.contains_key(id) && pool.received(worker).groups[id] == pool.groups[id],
        pool.received(worker).threads == pool.threads,
        pool.received(worker).wait == pool.wait,
{
}

/// The end of a job by returning makes its worker idle, and terminates none: every other worker
/// does what it did, and as many are alive as before. The group of the job has one job less, or is
/// dropped if that was the last one and it has no owner. Nothing else changes.
pub proof fn law_finished_job<J>(pool: PoolState<J>, worker: int, id: u64, other: int, group: u64)
    requires
        0 <= worker < pool.workers.len(),
        pool.workers[worker] == WorkerState::Running(id),
        pool.groups.contains_key(id),
        pool.groups[id].wait.pending > 0,
    ensures
        pool.finished(worker).workers[worker] is Idle,
        pool.finished(worker).workers.len() == pool.workers.len(),
        0 <= other < pool.workers.len() && other != worker ==> pool.finished(worker).workers[other]
            == pool.workers[other],
        pool.finished(worker).alive() == pool.alive(),
        pool.finished(worker).groups.contains_key(id) <==> pool.groups[id].open
            || pool.groups[id].wait.pending > 1,
        pool.finished(worker).groups.contains_key(id) ==> {
            &&& pool.finished(worker).groups[id].wait.pending + 1 == pool.groups[id].wait.pending
            &&& pool.finished(worker).groups[id].wait.poisoned == pool.groups[id].wait.poisoned
            &&& pool.finished(worker).groups[id].open == pool.groups[id].open
        },
        group != id ==> pool.finished(worker).groups.contains_key(group)
            == pool.groups.contains_key(group) && (pool.groups.contains_key(group)
            ==> pool.finished(worker).groups[group] == pool.groups[group]),
        pool.finished(worker).queue == pool.queue,
        pool.finished(worker).threads == pool.threads,
        pool.finished(worker).wait == pool.wait,
{
    lemma_count_update(pool.workers, worker, pool.finished(worker).workers[worker], alive());
}

/// A panic of a worker terminates it and no other. The group of its job, if it executes one, and
/// the group of the pool are poisoned, and each has one less to wait for. Nothing else changes.
pub proof fn law_panicked_worker<J>(pool: PoolState<J>, worker: int, other: int, group: u64)
    requires
        0 <= worker < pool.workers.len(),
        pool.workers[worker] is Idle || pool.workers[worker] is Running,
        pool.groups.contains_key(pool.wait),
        pool.groups[pool.wait].open,
        pool.groups[pool.wait].wait.pending > 0,
        pool.workers[worker] matches WorkerState::Running(id) ==> id != pool.wait
            && pool.groups.contains_key(id) && pool.groups[id].wait.pending > 0,
    ensures
        pool.panicked(worker).workers[worker] is Panicked,
        pool.panicked(worker).workers.len() == pool.workers.len(),
        0 <= other < pool.workers.len() && other != worker ==> pool.panicked(worker).workers[other]
            == pool.workers[other],
        pool.panicked(worker).alive() + 1 == pool.alive(),
        pool.panicked(worker).groups.contains_key(pool.wait),
        pool.panicked(worker).groups[pool.wait].wait.pending + 1
            == pool.groups[pool.wait].wait.pending,
        pool.panicked(worker).groups[pool.wait].wait.poisoned,
        pool.panicked(worker).groups[pool.wait].open,
        pool.workers[worker] matches WorkerState::Running(id) ==> {
            &&& pool.panicked(worker).groups.contains_key(id) <==> pool.groups[id].open
                || pool.groups[id].wait.pending > 1
            &&& pool.panicked(worker).groups.contains_key(id) ==> {
                &&& pool.panicked(worker).groups[id].wait.pending + 1
                    == pool.groups[id].wait.pending
                &&& pool.panicked(worker).groups[id].wait.poisoned
                &&& pool.panicked(worker).groups[id].open == pool.groups[id].open
            }
        },
        group != pool.wait && pool.workers[worker] != WorkerState::Running(group) ==> pool.panicked(
            worker,
        ).groups.contains_key(group) == pool.groups.contains_key(group)
            && (pool.groups.contains_key(group) ==> pool.panicked(worker).groups[group]
            == pool.groups[group]),
        pool.panicked(worker).queue == pool.queue,
        pool.panicked(worker).threads == pool.threads,
        pool.panicked(worker).wait == pool.wait,
{
    lemma_count_update(pool.workers, worker, pool.panicked(worker).workers[worker], alive());
}

/// Replacing a worker that panicked makes it idle, and the group of the pool counts one more. The
/// pool stays poisoned if it was. Nothing else changes.
pub proof fn law_replaced_worker<J>(pool: PoolState<J>, worker: int, other: int, group: u64)
    requires
        0 <= worker < pool.workers.len(),
        pool.workers[worker] is Panicked,
        pool.groups.contains_key(pool.wait),
        pool.groups[pool.wait].wait.pending < usize::MAX,
    ensures
        pool.replaced(worker).workers[worker] is Idle,
        pool.replaced(worker).workers.len() == pool.workers.len(),
        0 <= other < pool.workers.len() && other != worker ==> pool.replaced(worker).workers[other]
            == pool.workers[other],
        pool.replaced(worker).alive() == pool.alive() + 1,
        pool.replaced(worker).groups.contains_key(pool.wait),
        pool.replaced(worker).groups[pool.wait].wait.pending
            == pool.groups[pool.wait].wait.pending + 1,
        pool.replaced(worker).groups[pool.wait].wait.poisoned
            == pool.groups[pool.wait].wait.poisoned,
        pool.replaced(worker).groups[pool.wait].open == pool.groups[pool.wait].open,
        group != pool.wait ==> pool.replaced(worker).groups.contains_key(group)
            == pool.groups.contains_key(group) && pool.replaced(worker).groups[group]
            == pool.groups[group],
        pool.replaced(worker).queue == pool.queue,
        pool.replaced(worker).threads == pool.threads,
        pool.replaced(worker).wait == pool.wait,
{
    lemma_count_update(pool.workers, worker, pool.replaced(worker).workers[worker], alive());
}

/// Opening a scope puts an empty, unpoisoned group with an owner into use. Nothing else changes.
pub proof fn law_opened_scope<J>(pool: PoolState<J>, id: u64, group: u64)
    ensures
        pool.opened(id).groups.contains_key(id),
        pool.opened(id).groups[id].wait.pending == 0,
        !pool.opened(id).groups[id].wait.poisoned,
        pool.opened(id).groups[id].open,
        group != id ==> pool.opened(id).groups.contains_key(group) == pool.groups.contains_key(
            group,
        ) && pool.opened(id).groups[group] == pool.groups[group],
        pool.opened(id).workers == pool.workers,
        pool.opened(id).queue == pool.queue,
        pool.opened(id).threads == pool.threads,
        pool.opened(id).wait == pool.wait,
{
}

/// Adding a job to a scope brings the job behind all messages, under the group of the scope, which
/// counts one more. Nothing else changes.
pub proof fn law_executed_job<J>(pool: PoolState<J>, id: u64, job: J, i: int, group: u64)
    requires
        pool.groups.contains_key(id),
        pool.groups[id].wait.pending < usize::MAX,
    ensures
        pool.executed(id, job).queue.len() == pool.queue.len() + 1,
        pool.executed(id, job).queue[pool.queue.len() as int] == Message::Job(job, id),
        0 <= i < pool.queue.len() ==> pool.executed(id, job).queue[i] == pool.queue[i],
        pool.executed(id, job).groups.contains_key(id),
        pool.executed(id, job).groups[id].wait.pending == pool.groups[id].wait.pending + 1,
        pool.executed(id, job).groups[id].wait.poisoned == pool.groups[id].wait.poisoned,
        pool.executed(id, job).groups[id].open == pool.groups[id].open,
        group != id ==> pool.executed(id, job).groups.contains_key(group)
            == pool.groups.contains_key(group) && pool.executed(id, job).groups[group]
            == pool.groups[group],
        pool.executed(id, job).workers == pool.workers,
        pool.executed(id, job).threads == pool.threads,
        pool.executed(id, job).wait == pool.wait,
{
}

/// Giving up a scope takes the owner of its group, and drops the group if it has no job. Nothing
/// else changes.
pub proof fn law_given_up_scope<J>(pool: PoolState<J>, id: u64, group: u64)
    requires
        pool.groups.contains_key(id),
    ensures
        pool.closed(id).groups.contains_key(id) <==> pool.groups[id].wait.pending > 0,
        pool.closed(id).groups.contains_key(id) ==> {
            &&& pool.closed(id).groups[id].wait.pending == pool.groups[id].wait.pending
            &&& pool.closed(id).groups[id].wait.poisoned == pool.groups[id].wait.poisoned
            &&& !pool.closed(id).groups[id].open
        },
        group != id ==> pool.closed(id).groups.contains_key(group) == pool.groups.contains_key(
            group,
        ) && (pool.groups.contains_key(group) ==> pool.closed(id).groups[group]
            == pool.groups[group]),
        pool.closed(id).workers == pool.workers,
        pool.closed(id).queue == pool.queue,
        pool.closed(id).threads == pool.threads,
        pool.closed(id).wait == pool.wait,
{
}

/// A shutdown brings one signal to stop behind all messages. Nothing else changes.
pub proof fn law_sent_stop<J>(pool: PoolState<J>, i: int)
    ensures
        pool.stop_sent().queue.len() == pool.queue.len() + 1,
        pool.stop_sent().queue[pool.queue.len() as int] is Stop,
        0 <= i < pool.queue.len() ==> pool.stop_sent().queue[i] == pool.queue[i],
        pool.stop_sent().workers == pool.workers,
        pool.stop_sent().groups == pool.groups,
        pool.stop_sent().threads == pool.threads,
        pool.stop_sent().wait == pool.wait,
{
}

/// Joining a group of a pool blocks while the group has something to wait for, and otherwise panics
/// exactly if the group is poisoned.
pub proof fn law_pool_join_answers<J>(pool: PoolState<J>, id: u64)
    ensures
        pool.joined(id) is Blocked <==> pool.groups[id].wait.pending != 0,
        pool.joined(id) is Poisoned <==> pool.groups[id].wait.pending == 0
            && pool.groups[id].wait.poisoned,
        pool.joined(id) is Done <==> pool.groups[id].wait.pending == 0
            && !pool.groups[id].wait.poisoned,
{
}

/// Leaving a scope: the thread sleeps if the scope blocks, and keeps what its scheduling job gave.
/// It panics if the scope is poisoned. Otherwise it returns the value of the scheduling job, or goes
/// on with its panic.
pub proof fn law_leave_answers<R>(end: JobEnd<R>, value: R)
    ensures
        left_spec(end, Joined::Blocked) == Left::Blocked(end),
        left_spec(end, Joined::Poisoned) == Left::Poisoned(end),
        left_spec(JobEnd::Returned(value), Joined::Done) == Left::Returned(value),
        left_spec(JobEnd::<R>::Panicked, Joined::Done) == Left::<R>::Unwind,
{
}

/// A spawned job comes behind all messages, under a group of its own that has no owner and only this
/// job. Every other group stays as it is.
pub proof fn law_spawned_job<J>(pool: PoolState<J>, id: u64, job: J, i: int, group: u64)
    requires
        !pool.groups.contains_key(id),
    ensures
        ({
            let after = pool.opened(id).executed(id, job).closed(id);
            &&& after.queue.len() == pool.queue.len() + 1
            &&& after.queue[pool.queue.len() as int] == Message::Job(job, id)
            &&& 0 <= i < pool.queue.len() ==> after.queue[i] == pool.queue[i]
            &&& after.groups.contains_key(id)
            &&& after.groups[id].wait.pending == 1
            &&& !after.groups[id].wait.poisoned
            &&& !after.groups[id].open
            &&& group != id ==> after.groups.contains_key(group) == pool.groups.contains_key(group)
                && (pool.groups.contains_key(group) ==> after.groups[group] == pool.groups[group])
            &&& after.workers == pool.workers
            &&& after.threads == pool.threads
            &&& after.wait == pool.wait
        }),
{
}

/// How many workers a history tells to terminate.
pub open spec fn exits<J>(pool: PoolState<J>, events: Seq<Event<J>>) -> nat
    decreases events.len(),
{
    if events.len() == 0 {
        0
    } else {
        exits(pool, events.drop_last()) + if events.last() is Receive && after_all(
            pool,
            events.drop_last(),
        ).turn() is Exit {
            1nat
        } else {
            0
        }
    }
}

/// How many workers panic in a history.
pub open spec fn panics<J>(events: Seq<Event<J>>) -> nat
    decreases events.len(),
{
    if events.len() == 0 {
        0
    } else {
        panics(events.drop_last()) + if events.last() is Panic {
            1nat
        } else {
            0
        }
    }
}

/// How many workers are replaced in a history.
pub open spec fn replacements<J>(events: Seq<Event<J>>) -> nat
    decreases events.len(),
{
    if events.len() == 0 {
        0
    } else {
        replacements(events.drop_last()) + if events.last() is Replace {
            1nat
        } else {
            0
        }
    }
}

/// A pool keeps its workers: the number of those alive drops only by a panic or by the signal to
/// stop, once for each, and every replacement makes up for one. In all, there are always as many
/// workers as at the beginning.
pub proof fn law_workers_stay_in_service<J>(pool: PoolState<J>, events: Seq<Event<J>>)
    requires
        possible(pool, events),
    ensures
        after_all(pool, events).alive() + panics(events) + exits(pool, events) == pool.alive()
            + replacements(events),
        after_all(pool, events).workers.len() == pool.workers.len(),
        after_all(pool, events).threads == pool.threads,
    decreases events.len(),
{
    if events.len() > 0 {
        let before = after_all(pool, events.drop_last());
        let now = after_all(pool, events);
        law_workers_stay_in_service(pool, events.drop_last());
        match events.last() {
            Event::Receive(worker) => {
                lemma_count_update(before.workers, worker, now.workers[worker], alive());
            },
            Event::Finish(worker) => {
                lemma_count_update(before.workers, worker, now.workers[worker], alive());
            },
            Event::Panic(worker) => {
                lemma_count_update(before.workers, worker, now.workers[worker], alive());
            },
            Event::Replace(worker) => {
                lemma_count_update(before.workers, worker, now.workers[worker], alive());
            },
            _ => {},
        }
    }
}

/// A worker is found panicked only if it panicked, in the history or before.
pub proof fn law_only_a_panic_makes_panicked<J>(
    pool: PoolState<J>,
    events: Seq<Event<J>>,
    worker: int,
)
    requires
        possible(pool, events),
        0 <= worker < pool.workers.len(),
        after_all(pool, events).workers[worker] is Panicked,
    ensures
        pool.workers[worker] is Panicked || exists|i: int|
            0 <= i < events.len() && #[trigger] events[i] == Event::<J>::Panic(worker),
    decreases events.len(),
{
    if events.len() > 0 {
        let earlier = events.drop_last();
        law_workers_stay_in_service(pool, earlier);
        if events.last() == Event::<J>::Panic(worker) {
            assert(events[events.len() - 1] == Event::<J>::Panic(worker));
        } else {
            law_only_a_panic_makes_panicked(pool, earlier, worker);
            if !(pool.workers[worker] is Panicked) {
                let i = choose|i: int|
                    0 <= i < earlier.len() && #[trigger] earlier[i] == Event::<J>::Panic(worker);
                assert(events[i] == Event::<J>::Panic(worker));
            }
        }
    }
}

/// Whatever happens to a pool made for `n` workers, it has `n` workers, and their threads have the
/// configured names and stack size. All of them are alive but those that panicked without being
/// replaced, and those that were told to terminate.
pub proof fn law_pool_of_n_workers<J>(
    n: nat,
    config: ConfigState,
    events: Seq<Event<J>>,
    worker: int,
)
    requires
        possible(PoolState::<J>::initial(n, config), events),
    ensures
        after_all(PoolState::<J>::initial(n, config), events).workers.len() == n,
        after_all(PoolState::<J>::initial(n, config), events).threads.len() == n,
        after_all(PoolState::<J>::initial(n, config), events).alive() + panics(events) + exits(
            PoolState::<J>::initial(n, config),
            events,
        ) == n + replacements(events),
        0 <= worker < n ==> after_all(
            PoolState::<J>::initial(n, config),
            events,
        ).threads[worker].stack_size == config.stack_size,
        0 <= worker < n ==> after_all(
            PoolState::<J>::initial(n, config),
            events,
        ).threads[worker].name =~= (match config.prefix {
            Some(prefix) => prefix,
            None => "worker-thread"@,
        }) + seq!['-'] + decimal((worker + 1) as nat),
{
    let pool = PoolState::<J>::initial(n, config);
    lemma_count_all(pool.workers, alive());
    law_workers_stay_in_service(pool, events);
    law_new_pool::<J>(n, config, worker, 0);
}

/// A worker that took a job and is done with it is idle again. In all, the message is gone, its
/// group has one job less to wait for, and all workers are as before.
pub proof fn law_job_is_one_round_trip<J>(pool: PoolState<J>, worker: int, job: J, id: u64)
    requires
        0 <= worker < pool.workers.len(),
        pool.workers[worker] is Idle,
        pool.queue.len() > 0,
        pool.queue[0] == Message::Job(job, id),
        pool.groups.contains_key(id),
        pool.groups[id].wait.pending > 1,
    ensures
        pool.received(worker).finished(worker).workers =~= pool.workers,
        pool.received(worker).finished(worker).queue =~= pool.queue.subrange(
            1,
            pool.queue.len() as int,
        ),
        pool.received(worker).finished(worker).groups.dom() =~= pool.groups.dom(),
        pool.received(worker).finished(worker).groups[id].wait.pending + 1
            == pool.groups[id].wait.pending,
        pool.received(worker).finished(worker).threads == pool.threads,
{
}

/// Replacing an idle worker that panicked restores all workers and their number, but the pool
/// remembers the panic.
pub proof fn law_replacing_makes_up_for_panic<J>(pool: PoolState<J>, worker: int)
    requires
        0 <= worker < pool.workers.len(),
        pool.workers[worker] is Idle,
        pool.groups.contains_key(pool.wait),
        pool.groups[pool.wait].open,
        0 < pool.groups[pool.wait].wait.pending <= usize::MAX,
    ensures
        pool.panicked(worker).replaced(worker).workers =~= pool.workers,
        pool.panicked(worker).replaced(worker).groups[pool.wait].wait.pending
            == pool.groups[pool.wait].wait.pending,
        pool.panicked(worker).replaced(worker).groups[pool.wait].wait.poisoned,
        pool.panicked(worker).replaced(worker).queue == pool.queue,
        pool.panicked(worker).replaced(worker).threads == pool.threads,
{
}

} // verus!
