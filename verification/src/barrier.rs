use crate::sync::{guarded, wake_all};
use std::sync::{Arc, Condvar, Mutex, MutexGuard};
use vstd::prelude::*;

verus! {

/// The next generation after `generation`; the count starts over after
/// `usize::MAX`.
pub open spec fn next_generation(generation: usize) -> usize {
    if generation == usize::MAX {
        0
    } else {
        (generation + 1) as usize
    }
}

/// What the holders of a barrier share: how many hold it, how many of them have
/// arrived in the current generation, which generation that is, and whether a
/// released generation still lacks its leader.
#[derive(Clone, Copy, Debug, PartialEq, Eq, Structural)]
pub struct BarrierState {
    pub count: usize,
    pub generation_id: usize,
    pub num_threads: usize,
    pub leader_open: bool,
}

impl BarrierState {
    /// The invariant of the state: fewer have arrived than hold the barrier, for a
    /// generation ends the moment the last holder arrives.
    pub open spec fn wf(&self) -> bool {
        self.count == 0 || self.count < self.num_threads
    }

    /// The state of a barrier with one holder, at its first generation.
    pub fn new() -> (state: Self)
        ensures
            state == (BarrierState {
                count: 0,
                generation_id: 0,
                num_threads: 1,
                leader_open: false,
            }),
            state.wf(),
    {
        BarrierState { count: 0, generation_id: 0, num_threads: 1, leader_open: false }
    }

    /// The state with the generation ended: nobody has arrived in the next one.
    pub open spec fn released(self, leader_open: bool) -> Self {
        BarrierState {
            count: 0,
            generation_id: next_generation(self.generation_id),
            num_threads: self.num_threads,
            leader_open,
        }
    }

    /// The state after one more holder has joined.
    pub open spec fn joined(self) -> Self {
        BarrierState {
            num_threads: if self.num_threads < usize::MAX {
                (self.num_threads + 1) as usize
            } else {
                self.num_threads
            },
            ..self
        }
    }

    /// True when the holder that arrives next is the last of its generation.
    pub open spec fn completes(self) -> bool {
        self.count + 1 >= self.num_threads
    }

    /// The state after one holder has arrived: the last one ends the generation and
    /// leads it, so that no place of a leader is left open; any other is counted and
    /// has to wait.
    pub open spec fn arrived(self) -> Self {
        if self.completes() {
            self.released(false)
        } else {
            BarrierState { count: (self.count + 1) as usize, ..self }
        }
    }

    /// True when the departure of one holder leaves only holders that have arrived,
    /// and at least one of those.
    pub open spec fn frees(self) -> bool {
        self.count > 0 && self.count + 1 >= self.num_threads
    }

    /// The state after one holder has left: where only waiting holders are left, their
    /// generation ends, and one of them is still to become its leader.
    pub open spec fn left(self) -> Self {
        let fewer = BarrierState {
            num_threads: if self.num_threads > 0 {
                (self.num_threads - 1) as usize
            } else {
                0
            },
            ..self
        };
        if self.frees() {
            fewer.released(true)
        } else {
            fewer
        }
    }

    /// The state after a released holder has asked to lead: the first to ask takes
    /// the open place.
    pub open spec fn claimed(self) -> Self {
        BarrierState { leader_open: false, ..self }
    }

    /// Counts one more holder.
    pub fn join(&mut self)
        ensures
            *final(self) == old(self).joined(),
            old(self).wf() ==> final(self).wf(),
    {
        if self.num_threads < usize::MAX {
            self.num_threads = self.num_threads + 1;
        }
    }

    /// Counts one arrival, and says whether it was the last of its generation: then
    /// that holder leads, the generation ends, and the others are to be woken.
    pub fn arrive(&mut self) -> (leader: bool)
        ensures
            leader == old(self).completes(),
            *final(self) == old(self).arrived(),
            final(self).wf(),
    {
        if self.count >= self.num_threads || self.num_threads - self.count <= 1 {
            self.count = 0;
            self.generation_id = self.generation_id.wrapping_add(1);
            self.leader_open = false;
            true
        } else {
            self.count = self.count + 1;
            false
        }
    }

    /// Counts one holder less, and says whether that ended the generation of those
    /// who wait: then they are to be woken.
    pub fn leave(&mut self) -> (released: bool)
        ensures
            released == old(self).frees(),
            *final(self) == old(self).left(),
            old(self).wf() ==> final(self).wf(),
        opens_invariants none
        no_unwind
    {
        let frees = self.count > 0 && (self.count >= self.num_threads || self.num_threads
            - self.count <= 1);
        if self.num_threads > 0 {
            self.num_threads = self.num_threads - 1;
        }
        if frees {
            self.count = 0;
            self.generation_id = if self.generation_id == usize::MAX {
                0
            } else {
                self.generation_id + 1
            };
            self.leader_open = true;
        }
        frees
    }

    /// Says whether the holder that asks leads the generation it was released from by
    /// a departure: the first to ask does, and no other.
    pub fn claim_leadership(&mut self) -> (leader: bool)
        ensures
            leader == old(self).leader_open,
            *final(self) == old(self).claimed(),
            old(self).wf() ==> final(self).wf(),
    {
        let leader = self.leader_open;
        self.leader_open = false;
        leader
    }

    /// True while the state is at the generation `generation_id`.
    pub fn same_generation(&self, generation_id: usize) -> (same: bool)
        ensures
            same == (self.generation_id == generation_id),
    {
        self.generation_id == generation_id
    }
}

/// `Mutex::lock` on the lock of a barrier: blocks until the lock is free and takes
/// it. A lock that a panic has poisoned is taken all the same. The lock never
/// leaves this file, and no function here asks for it while its thread holds it,
/// which is the one case in which `lock` may panic or not return: so the call
/// returns and does not panic.
#[verifier::external_body]
fn lock_state(mutex: &Mutex<BarrierState>) -> (guard: MutexGuard<'_, BarrierState>)
    opens_invariants none
    no_unwind
{
    match mutex.lock() {
        Ok(guard) => guard,
        Err(poisoned) => poisoned.into_inner(),
    }
}

/// `Condvar::wait_while`: gives the lock up and sleeps until the state has left the
/// generation `generation_id`, then returns with the lock taken again.
#[verifier::external_body]
fn wait_while_in<'a>(
    cvar: &Condvar,
    guard: MutexGuard<'a, BarrierState>,
    generation_id: usize,
) -> (woken: MutexGuard<'a, BarrierState>) {
    match cvar.wait_while(guard, |state| state.same_generation(generation_id)) {
        Ok(guard) => guard,
        Err(poisoned) => poisoned.into_inner(),
    }
}

#[derive(Debug)]
struct Inner {
    lock: Mutex<BarrierState>,
    cvar: Condvar,
}

/// A meeting point for a group of threads that changes in size: each holder of a
/// handle waits until every holder has arrived, then all go on together, and the
/// barrier is ready for the next round. Cloning a handle joins the group, and
/// dropping a handle leaves it. The state behind the lock is a handful of numbers
/// that are written in one piece, so a lock that a panic has poisoned is used all
/// the same.
#[derive(Debug)]
pub struct Barrier {
    inner: Arc<Inner>,
}

/// What `Barrier::wait` returns to each thread once the round is over.
#[derive(Debug)]
pub struct BarrierWaitResult(bool);

impl Barrier {
    /// A new barrier, held by the caller alone.
    #[must_use]
    pub fn new() -> (barrier: Self) {
        Barrier {
            inner: Arc::new(Inner { lock: Mutex::new(BarrierState::new()), cvar: Condvar::new() }),
        }
    }

    /// Blocks until every holder of the barrier has arrived here. The last to arrive
    /// ends the round and leads it; where a departure ends the round, the first of
    /// the waiting holders to wake up leads it. Every other holder is told that it
    /// does not lead.
    pub fn wait(&self) -> (result: BarrierWaitResult) {
        let mut guard = lock_state(&self.inner.lock);
        let state = guarded(&mut guard);
        let generation_id = state.generation_id;
        if state.arrive() {
            wake_all(&self.inner.cvar);
            BarrierWaitResult(true)
        } else {
            let mut woken = wait_while_in(&self.inner.cvar, guard, generation_id);
            BarrierWaitResult(guarded(&mut woken).claim_leadership())
        }
    }

    /// Leaves the group and gives the handle up, as dropping the handle does: where
    /// every holder that is left waits already, they are released at once.
    pub fn leave(self) {
    }
}

impl Default for Barrier {
    fn default() -> (barrier: Self) {
        Barrier::new()
    }
}

impl Clone for Barrier {
    /// Joins the group: the new handle has to arrive like every other before a round
    /// is over.
    fn clone(&self) -> (barrier: Self) {
        let mut guard = lock_state(&self.inner.lock);
        guarded(&mut guard).join();
        Barrier { inner: self.inner.clone() }
    }
}

impl Drop for Barrier {
    /// Leaves the group: where every holder that is left waits already, they are
    /// released at once.
    fn drop(&mut self)
        opens_invariants none
        no_unwind
    {
        let mut guard = lock_state(&self.inner.lock);
        if guarded(&mut guard).leave() {
            wake_all(&self.inner.cvar);
        }
    }
}

impl BarrierWaitResult {
    /// True when the thread was told to lead.
    pub closed spec fn leads(&self) -> bool {
        self.0
    }

    /// True for exactly one of the threads that a round releases: its leader.
    #[must_use]
    pub fn is_leader(&self) -> (leader: bool)
        ensures
            leader == self.leads(),
    {
        self.0
    }
}

/// The state after `arrivals` holders have arrived one after another.
pub open spec fn after_arrivals(state: BarrierState, arrivals: nat) -> BarrierState
    decreases arrivals,
{
    if arrivals == 0 {
        state
    } else {
        after_arrivals(state, (arrivals - 1) as nat).arrived()
    }
}

/// How many of `arrivals` holders that arrive one after another are told to lead.
pub open spec fn leaders_among(state: BarrierState, arrivals: nat) -> nat
    decreases arrivals,
{
    if arrivals == 0 {
        0
    } else {
        leaders_among(state, (arrivals - 1) as nat) + if after_arrivals(
            state,
            (arrivals - 1) as nat,
        ).completes() {
            1nat
        } else {
            0nat
        }
    }
}

/// One round. Where nobody has arrived yet, every holder but the last that arrives
/// is counted and waits in the same generation, with no leader among them; the
/// arrival of the last one ends the generation, and of all of them exactly that one
/// leads: no place of a leader is left open for those who wake up. The state is then
/// as it was but for the generation, so the next round can begin at once.
pub proof fn lemma_round_has_one_leader(state: BarrierState, arrivals: nat)
    requires
        state.count == 0,
        state.num_threads >= 1,
        arrivals <= state.num_threads,
    ensures
        arrivals < state.num_threads ==> after_arrivals(state, arrivals) == (BarrierState {
            count: arrivals as usize,
            ..state
        }) && leaders_among(state, arrivals) == 0,
        arrivals == state.num_threads ==> after_arrivals(state, arrivals) == state.released(false)
            && leaders_among(state, arrivals) == 1,
        !after_arrivals(state, state.num_threads as nat).leader_open,
        after_arrivals(state, state.num_threads as nat).generation_id != state.generation_id,
    decreases state.num_threads - arrivals,
{
    if arrivals > 0 {
        lemma_arrivals_before_last(state, (arrivals - 1) as nat);
    }
    if arrivals < state.num_threads {
        lemma_arrivals_before_last(state, arrivals);
        lemma_round_has_one_leader(state, arrivals + 1);
    }
}

/// Before the last holder arrives, each arrival is counted and none leads.
proof fn lemma_arrivals_before_last(state: BarrierState, arrivals: nat)
    requires
        state.count == 0,
        arrivals < state.num_threads,
    ensures
        after_arrivals(state, arrivals) == (BarrierState { count: arrivals as usize, ..state }),
        leaders_among(state, arrivals) == 0,
    decreases arrivals,
{
    if arrivals > 0 {
        lemma_arrivals_before_last(state, (arrivals - 1) as nat);
    }
}

/// Arrivals add up: `more` arrivals after `some` arrivals are `some + more` arrivals,
/// and so are their leaders.
pub proof fn lemma_arrivals_add_up(state: BarrierState, some: nat, more: nat)
    ensures
        after_arrivals(state, some + more) == after_arrivals(after_arrivals(state, some), more),
        leaders_among(state, some + more) == leaders_among(state, some) + leaders_among(
            after_arrivals(state, some),
            more,
        ),
    decreases more,
{
    if more > 0 {
        lemma_arrivals_add_up(state, some, (more - 1) as nat);
        assert(some + more - 1 == some + (more - 1) as nat);
    }
}

/// The barrier can be used again and again: after any number of rounds, each of as
/// many arrivals as there are holders, there has been one leader for each round and
/// nobody is left waiting.
pub proof fn lemma_rounds_repeat(state: BarrierState, rounds: nat)
    requires
        state.count == 0,
        state.num_threads >= 1,
    ensures
        leaders_among(state, rounds * state.num_threads as nat) == rounds,
        after_arrivals(state, rounds * state.num_threads as nat).count == 0,
        after_arrivals(state, rounds * state.num_threads as nat).num_threads == state.num_threads,
    decreases rounds,
{
    let n = state.num_threads as nat;
    if rounds > 0 {
        let before = ((rounds - 1) as nat) * n;
        lemma_rounds_repeat(state, (rounds - 1) as nat);
        lemma_arrivals_add_up(state, before, n);
        lemma_round_has_one_leader(after_arrivals(state, before), n);
        assert(rounds * n == before + n) by (nonlinear_arith)
            requires
                rounds > 0,
                before == (rounds - 1) * n,
        ;
    } else {
        assert(rounds * n == 0) by (nonlinear_arith)
            requires
                rounds == 0,
        ;
    }
}

/// A departure never leaves waiters stuck. Where every holder but one waits and that
/// one leaves, the generation of the waiters ends, nobody is counted as arrived for
/// the next one, and exactly the first of them to ask is told to lead.
pub proof fn lemma_departure_frees_waiters(state: BarrierState)
    requires
        state.count > 0,
        state.count + 1 == state.num_threads,
    ensures
        state.frees(),
        state.left().generation_id != state.generation_id,
        state.left().count == 0,
        state.left().num_threads == state.count,
        state.left().leader_open,
        !state.left().claimed().leader_open,
{
}

} // verus!
