//! Wait groups: counting outstanding jobs, remembering whether one of them panicked, and deciding
//! when whoever waits for them may go on.

use std::collections::HashMap;
use vstd::prelude::*;

verus! {

broadcast use vstd::std_specs::hash::group_hash_axioms;

/// What a [`WaitGroup`] holds: how many jobs are outstanding, and whether one of them panicked.
pub struct WaitState {
    pub pending: nat,
    pub poisoned: bool,
}

/// The answer to a thread that wants to join a wait group.
#[derive(Clone, Copy, Debug, PartialEq, Eq, Structural)]
pub enum Joined {
    /// Jobs are outstanding, the thread has to wait.
    Blocked,
    /// Every job was completed, the thread may go on.
    Done,
    /// No job is outstanding, but one of them panicked: the thread has to panic.
    Poisoned,
}

impl WaitState {
    /// A group without jobs.
    pub open spec fn empty() -> WaitState {
        WaitState { pending: 0, poisoned: false }
    }

    /// The group after one more job. The counter wraps around at the end of `usize`.
    pub open spec fn submitted(self) -> WaitState {
        WaitState {
            pending: if self.pending == usize::MAX {
                0
            } else {
                self.pending + 1
            },
            ..self
        }
    }

    /// The group after one job less. The counter wraps around below zero.
    pub open spec fn completed(self) -> WaitState {
        WaitState {
            pending: if self.pending == 0 {
                usize::MAX as nat
            } else {
                (self.pending - 1) as nat
            },
            ..self
        }
    }

    /// The group after one job panicked.
    pub open spec fn poisoned(self) -> WaitState {
        WaitState { poisoned: true, ..self.completed() }
    }

    /// What a thread that joins the group is told.
    pub open spec fn joined(self) -> Joined {
        if self.pending > 0 {
            Joined::Blocked
        } else if self.poisoned {
            Joined::Poisoned
        } else {
            Joined::Done
        }
    }
}

/// Synchronization primitive to await a set of actions.
///
/// The group itself never blocks. Whoever shares it between threads guards it by a lock: a thread
/// that is told [`Joined::Blocked`] sleeps until a `complete` or `poison` reports that the last
/// job is gone, and asks again.
pub struct WaitGroup {
    pending: usize,
    poisoned: bool,
}

impl View for WaitGroup {
    type V = WaitState;

    closed spec fn view(&self) -> WaitState {
        WaitState { pending: self.pending as nat, poisoned: self.poisoned }
    }
}

impl Default for WaitGroup {
    fn default() -> (group: Self)
        ensures
            group@ == WaitState::empty(),
    {
        WaitGroup { pending: 0, poisoned: false }
    }
}

impl WaitGroup {
    /// Submit a job to this waitgroup, which can be awaited using `complete`.
    pub fn submit(&mut self)
        ensures
            final(self)@ == old(self)@.submitted(),
    {
        self.pending = self.pending.wrapping_add(1);
    }

    /// Complete a previous `submit` call. Returns whether all threads that wait in `join` have to
    /// be woken, because there's no job left to wait for.
    pub fn complete(&mut self) -> (wake: bool)
        ensures
            final(self)@ == old(self)@.completed(),
            wake == (old(self)@.pending == 1),
    {
        let old = self.pending;
        self.pending = old.wrapping_sub(1);
        // release all joined threads if this is the last job
        old == 1
    }

    /// Poisons this wait group and complete one job. Returns whether all threads that wait in
    /// `join` have to be woken.
    ///
    /// This must be called if the executing job panics.
    pub fn poison(&mut self) -> (wake: bool)
        ensures
            final(self)@ == old(self)@.poisoned(),
            wake == (old(self)@.pending == 1),
    {
        self.poisoned = true;
        self.complete()
    }

    /// Wait for all jobs of this wait group to be completed: tells whether the calling thread has
    /// to sleep, may go on, or has to panic.
    pub fn join(&self) -> (answer: Joined)
        ensures
            answer == self@.joined(),
    {
        if self.pending > 0 {
            return Joined::Blocked;
        }
        if self.poisoned {
            return Joined::Poisoned;
        }
        Joined::Done
    }
}

/// A wait group in a [`WaitGroups`] table, and whether it still has an owner.
pub struct GroupState {
    pub wait: WaitState,
    pub open: bool,
}

/// The table after group `id` went over to state `wait`. A group that has no owner and no
/// outstanding job is dropped.
pub open spec fn settled(
    groups: Map<u64, GroupState>,
    id: u64,
    wait: WaitState,
    open: bool,
) -> Map<u64, GroupState> {
    if !open && wait.pending == 0 {
        groups.remove(id)
    } else {
        groups.insert(id, GroupState { wait, open })
    }
}

/// The table after a job was submitted to group `id`.
pub open spec fn group_submitted(groups: Map<u64, GroupState>, id: u64) -> Map<u64, GroupState> {
    groups.insert(id, GroupState { wait: groups[id].wait.submitted(), open: groups[id].open })
}

/// The table after a job of group `id` was completed.
pub open spec fn group_completed(groups: Map<u64, GroupState>, id: u64) -> Map<u64, GroupState> {
    settled(groups, id, groups[id].wait.completed(), groups[id].open)
}

/// The table after a job of group `id` panicked.
pub open spec fn group_poisoned(groups: Map<u64, GroupState>, id: u64) -> Map<u64, GroupState> {
    settled(groups, id, groups[id].wait.poisoned(), groups[id].open)
}

/// The table after the owner of group `id` is gone.
pub open spec fn group_closed(groups: Map<u64, GroupState>, id: u64) -> Map<u64, GroupState> {
    settled(groups, id, groups[id].wait, false)
}

/// An entry of a [`WaitGroups`] table.
struct Slot {
    group: WaitGroup,
    open: bool,
}

impl Slot {
    spec fn state(self) -> GroupState {
        GroupState { wait: self.group@, open: self.open }
    }
}

/// The wait groups that are in use, each under the number that messages, sentinels and scopes
/// know it by. Numbers are given out in ascending order, starting over at the end, and leaving out
/// those in use.
///
/// A group lives as long as it has an owner or an outstanding job.
pub struct WaitGroups {
    slots: HashMap<u64, Slot>,
    next: u64,
}

impl View for WaitGroups {
    type V = Map<u64, GroupState>;

    closed spec fn view(&self) -> Map<u64, GroupState> {
        self.slots@.map_values(|slot: Slot| slot.state())
    }
}

impl WaitGroups {
    /// The number that the next group gets, if it is not in use.
    pub closed spec fn next_id(&self) -> u64 {
        self.next
    }

    /// A table without groups.
    pub fn new() -> (groups: Self)
        ensures
            groups@ == Map::<u64, GroupState>::empty(),
            groups.next_id() == 0,
    {
        let groups = WaitGroups { slots: HashMap::new(), next: 0 };
        assert(groups@ =~= Map::<u64, GroupState>::empty());
        groups
    }

    /// Whether a group is in use.
    pub fn contains(&self, id: u64) -> (answer: bool)
        ensures
            answer == self@.contains_key(id),
    {
        self.slots.contains_key(&id)
    }

    /// There is a number that is not in use, as the numbers in use can be counted in a `usize`.
    proof fn lemma_number_left(&self)
        ensures
            exists|id: u64| !self@.contains_key(id),
    {
        let used = self.slots@.dom();
        assert(used.len() == vstd::std_specs::hash::spec_hash_map_len(&self.slots));
        if forall|id: u64| self@.contains_key(id) {
            let number = |id: u64| id as int;
            let all = vstd::set_lib::set_int_range(0, u64::MAX + 1);
            assert forall|n: int| #[trigger] all.contains(n) implies used.map(number).contains(n) by {
                assert(self@.contains_key(n as u64));
                assert(number(n as u64) == n);
            }
            assert(used.map(number) =~= all);
            vstd::set_lib::lemma_int_range(0, u64::MAX + 1);
            vstd::set_lib::lemma_map_size(used, all, number);
        }
    }

    /// Opens a new, empty group under a number that is not in use.
    pub fn open(&mut self) -> (id: u64)
        ensures
            !old(self)@.contains_key(id),
            !old(self)@.contains_key(old(self).next_id()) ==> id == old(self).next_id(),
            forall|n: int|
                0 <= n < (id - old(self).next_id()) % (u64::MAX + 1) ==> old(self)@.contains_key(
                    #[trigger] ((old(self).next_id() + n) % (u64::MAX + 1)) as u64,
                ),
            final(self).next_id() == (id + 1) % (u64::MAX + 1),
            final(self)@ == old(self)@.insert(
                id,
                GroupState { wait: WaitState::empty(), open: true },
            ),
    {
        let mut id: u64 = self.next;
        let ghost mut tried: int = 0;
        while self.slots.contains_key(&id)
            invariant
                self@ == old(self)@,
                self.next == old(self).next,
                0 <= tried <= u64::MAX,
                id == (self.next + tried) % (u64::MAX + 1),
                tried > 0 ==> self@.contains_key(self.next),
                forall|n: int|
                    0 <= n < tried ==> self@.contains_key(
                        #[trigger] ((self.next + n) % (u64::MAX + 1)) as u64,
                    ),
            decreases u64::MAX - tried,
        {
            proof {
                assert(self@.contains_key(((self.next + tried) % (u64::MAX + 1)) as u64));
                if tried == u64::MAX {
                    assert forall|other: u64| self@.contains_key(other) by {
                        let n = (other - self.next) % (u64::MAX + 1);
                        assert((self.next + n) % (u64::MAX + 1) == other);
                    }
                    self.lemma_number_left();
                }
                tried = tried + 1;
            }
            id = id.wrapping_add(1);
        }
        self.next = id.wrapping_add(1);
        self.slots.insert(id, Slot { group: WaitGroup::default(), open: true });
        assert(self@ =~= old(self)@.insert(
            id,
            GroupState { wait: WaitState::empty(), open: true },
        ));
        id
    }

    /// How many jobs of a group are outstanding.
    pub fn pending(&self, id: u64) -> (pending: usize)
        requires
            self@.contains_key(id),
        ensures
            pending == self@[id].wait.pending,
    {
        match self.slots.get(&id) {
            Some(slot) => slot.group.pending,
            None => 0,
        }
    }

    /// Submits a job to a group.
    pub fn submit(&mut self, id: u64)
        requires
            old(self)@.contains_key(id),
        ensures
            final(self)@ == group_submitted(old(self)@, id),
            final(self).next_id() == old(self).next_id(),
    {
        if let Some(mut slot) = self.slots.remove(&id) {
            slot.group.submit();
            self.slots.insert(id, slot);
        }
        assert(self@ =~= group_submitted(old(self)@, id));
    }

    /// Puts a group back, or drops it if nobody needs it any more.
    fn settle(&mut self, id: u64, slot: Slot)
        ensures
            final(self)@ == settled(old(self)@, id, slot.group@, slot.open),
            final(self).next == old(self).next,
    {
        if slot.open || slot.group.pending > 0 {
            self.slots.insert(id, slot);
        } else {
            self.slots.remove(&id);
        }
        assert(self@ =~= settled(old(self)@, id, slot.group@, slot.open));
    }

    /// Completes a job of a group. Returns whether the threads that wait for the group have to be
    /// woken.
    pub fn complete(&mut self, id: u64) -> (wake: bool)
        requires
            old(self)@.contains_key(id),
        ensures
            final(self)@ == group_completed(old(self)@, id),
            final(self).next_id() == old(self).next_id(),
            wake == (old(self)@[id].wait.pending == 1),
    {
        match self.slots.remove(&id) {
            Some(mut slot) => {
                let wake = slot.group.complete();
                self.settle(id, slot);
                assert(self@ =~= group_completed(old(self)@, id));
                wake
            },
            None => false,
        }
    }

    /// Poisons a group and completes a job of it. Returns whether the threads that wait for the
    /// group have to be woken.
    pub fn poison(&mut self, id: u64) -> (wake: bool)
        requires
            old(self)@.contains_key(id),
        ensures
            final(self)@ == group_poisoned(old(self)@, id),
            final(self).next_id() == old(self).next_id(),
            wake == (old(self)@[id].wait.pending == 1),
    {
        match self.slots.remove(&id) {
            Some(mut slot) => {
                let wake = slot.group.poison();
                self.settle(id, slot);
                assert(self@ =~= group_poisoned(old(self)@, id));
                wake
            },
            None => false,
        }
    }

    /// What a thread that joins a group is told.
    pub fn join(&self, id: u64) -> (answer: Joined)
        requires
            self@.contains_key(id),
        ensures
            answer == self@[id].wait.joined(),
    {
        match self.slots.get(&id) {
            Some(slot) => slot.group.join(),
            None => Joined::Done,
        }
    }

    /// Gives up the ownership of a group.
    pub fn close(&mut self, id: u64)
        requires
            old(self)@.contains_key(id),
        ensures
            final(self)@ == group_closed(old(self)@, id),
            final(self).next_id() == old(self).next_id(),
    {
        if let Some(mut slot) = self.slots.remove(&id) {
            slot.open = false;
            self.settle(id, slot);
        }
        assert(self@ =~= group_closed(old(self)@, id));
    }
}

/// Watches over an action that counts in a wait group. The action ends in one of two ways: by
/// [`Sentinel::cancel`], which completes it, or by [`Sentinel::drop`], which poisons the group.
///
/// A value of this type that merely goes out of scope changes nothing. Whoever runs the action has
/// to call `drop` if the action panics.
pub struct Sentinel(pub Option<u64>);

impl Sentinel {
    /// Cancels this sentinel, causing to not poison the wait group: the action is completed.
    /// Returns whether the threads that wait for the group have to be woken.
    pub fn cancel(self, groups: &mut WaitGroups) -> (wake: bool)
        requires
            self.0 matches Some(id) ==> old(groups)@.contains_key(id),
        ensures
            final(groups)@ == match self.0 {
                Some(id) => group_completed(old(groups)@, id),
                None => old(groups)@,
            },
            wake == (self.0 matches Some(id) && old(groups)@[id].wait.pending == 1),
    {
        match self.0 {
            Some(id) => groups.complete(id),
            None => false,
        }
    }

    /// Poisons the wait group if this sentinel was not canceled, and leaves it spent. Returns
    /// whether the threads that wait for the group have to be woken.
    pub fn drop(&mut self, groups: &mut WaitGroups) -> (wake: bool)
        requires
            old(self).0 matches Some(id) ==> old(groups)@.contains_key(id),
        ensures
            final(self).0 is None,
            final(groups)@ == match old(self).0 {
                Some(id) => group_poisoned(old(groups)@, id),
                None => old(groups)@,
            },
            wake == (old(self).0 matches Some(id) && old(groups)@[id].wait.pending == 1),
    {
        match self.0.take() {
            Some(id) => groups.poison(id),
            None => false,
        }
    }
}

} // verus!
