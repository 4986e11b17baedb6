//! A lock with priority inheritance.
//!
//! While a thread of higher priority waits for the lock, the owner runs with
//! that priority; when the owner releases the lock, it has its own priority
//! again, and the waiting thread of the highest priority becomes the owner.
use vstd::prelude::*;
use crate::ids::{CoreId, RunqueueId, ThreadId};
use crate::model::{SchedState, SCHED_PRIO_LEVELS, THREADS_NUMOF};
use crate::thread::ThreadState;
use crate::threadlist::{insert_pos, linked_in, woken, ThreadList};
use crate::threads::Threads;

verus! {

/// The state of a lock.
pub enum LockState {
    Unlocked,
    Locked {
        /// The current owner of the lock.
        owner_id: ThreadId,
        /// The priority that the owner has of its own.
        owner_prio: RunqueueId,
        /// The threads that wait for the lock.
        waiters: ThreadList,
    },
}

/// A basic locking object.
///
/// A `Lock` behaves like a mutex, but carries no data.
pub struct Lock {
    pub state: LockState,
}

/// A lock as a value: who owns it, with which priority of its own, and who
/// waits for it.
pub struct LockView {
    /// The owner; `None` if the lock is unlocked.
    pub owner: Option<ThreadId>,
    /// The priority that the owner has of its own.
    pub owner_prio: Option<RunqueueId>,
    /// The threads that wait for the lock, the next owner first.
    pub waiters: Seq<ThreadId>,
}

/// The lock that nobody holds.
pub open spec fn unlocked() -> LockView {
    LockView { owner: None, owner_prio: None, waiters: Seq::empty() }
}

/// What acquiring the lock `lock` for the thread that is current on `core`
/// makes of the lock and of the scheduler state `s`, and whether the thread
/// owns the lock then.
///
/// - If the lock was unlocked, the thread owns it now.
/// - If the thread owns the lock already, nothing happens.
/// - Otherwise the thread waits for the lock, behind the waiting threads of
///   the same or a higher priority, and is blocked. If it is now the first
///   to wait and its priority is higher than the owner's own, the owner is
///   raised to that priority, unless it runs with a higher one already.
pub open spec fn acquire_spec(lock: LockView, s: SchedState, core: int) -> (
    LockView,
    SchedState,
    bool,
) {
    let pid = s.current[core].unwrap();
    let prio = s.tcbs[pid@].prio;
    match lock.owner {
        None => (
            LockView { owner: Some(pid), owner_prio: Some(prio), waiters: Seq::empty() },
            s,
            true,
        ),
        Some(owner) => if owner == pid {
            (lock, s, true)
        } else {
            let pos = insert_pos(lock.waiters, s, prio@, 0);
            let blocked = linked_in(s, lock.waiters, pid, pos).set_state(
                core,
                pid@,
                ThreadState::LockBlocked,
            );
            (
                LockView { waiters: lock.waiters.insert(pos, pid), ..lock },
                if pos == 0 && prio@ > lock.owner_prio.unwrap()@ && prio@ > s.tcbs[owner@].prio@ {
                    blocked.set_priority(core, owner@, prio)
                } else {
                    blocked
                },
                false,
            )
        },
    }
}

/// What trying to acquire the lock `lock` for the thread that is current on
/// `core` makes of the lock, and whether the thread owns the lock then: it
/// does if the lock was unlocked, or if the thread owned it already.
pub open spec fn try_acquire_spec(lock: LockView, s: SchedState, core: int) -> (LockView, bool) {
    let pid = s.current[core].unwrap();
    match lock.owner {
        None => (
            LockView {
                owner: Some(pid),
                owner_prio: Some(s.tcbs[pid@].prio),
                waiters: Seq::empty(),
            },
            true,
        ),
        Some(owner) => (lock, owner == pid),
    }
}

/// What releasing the lock `lock` on behalf of the thread that is current on
/// `core` makes of the lock and of the scheduler state `s`.
///
/// Nothing changes unless that thread owns the lock. If it does, it gets
/// back the priority that it has of its own. The first of the waiting
/// threads, if there is one, becomes the owner and runs again; otherwise
/// the lock is unlocked.
pub open spec fn release_spec(lock: LockView, s: SchedState, core: int) -> (LockView, SchedState) {
    if lock.owner is None || lock.owner != s.current[core] {
        (lock, s)
    } else {
        let restored = s.set_priority(core, lock.owner.unwrap()@, lock.owner_prio.unwrap());
        if lock.waiters.len() == 0 {
            (unlocked(), restored)
        } else {
            let next = lock.waiters[0];
            (
                LockView {
                    owner: Some(next),
                    owner_prio: Some(s.tcbs[next@].prio),
                    waiters: lock.waiters.drop_first(),
                },
                woken(restored, next, core),
            )
        }
    }
}

impl View for Lock {
    type V = LockView;

    open spec fn view(&self) -> LockView {
        LockView { owner: self.owner(), owner_prio: self.owner_prio(), waiters: self.waiters() }
    }
}

impl Lock {
    /// Whether the lock is intact in the scheduler state `s`: the list of
    /// waiting threads is, the owner exists and does not wait for its own
    /// lock, and the owner runs with a priority that is at least its own and
    /// at least that of every waiting thread.
    pub open spec fn wf(&self, s: SchedState) -> bool {
        match self.state {
            LockState::Unlocked => true,
            LockState::Locked { owner_id, owner_prio, waiters } => {
                &&& waiters.wf(s)
                &&& waiters.sorted(s)
                &&& owner_id@ < THREADS_NUMOF
                &&& owner_prio@ < SCHED_PRIO_LEVELS
                &&& s.tcbs[owner_id@].state != ThreadState::Invalid
                &&& forall|i: int| 0 <= i < waiters@.len() ==> #[trigger] waiters@[i] != owner_id
                &&& s.tcbs[owner_id@].prio@ >= owner_prio@
                &&& forall|i: int|
                    0 <= i < waiters@.len() ==> s.tcbs[owner_id@].prio@ >= s.tcbs[(
                    #[trigger] waiters@[i])@].prio@
            },
        }
    }

    /// The owner of the lock, if it is locked.
    pub open spec fn owner(&self) -> Option<ThreadId> {
        match self.state {
            LockState::Unlocked => None,
            LockState::Locked { owner_id, .. } => Some(owner_id),
        }
    }

    /// The priority that the owner has of its own, if the lock is locked.
    pub open spec fn owner_prio(&self) -> Option<RunqueueId> {
        match self.state {
            LockState::Unlocked => None,
            LockState::Locked { owner_prio, .. } => Some(owner_prio),
        }
    }

    /// The threads that wait for the lock, the next owner first.
    pub open spec fn waiters(&self) -> Seq<ThreadId> {
        match self.state {
            LockState::Unlocked => Seq::empty(),
            LockState::Locked { waiters, .. } => waiters@,
        }
    }

    /// Releasing the lock leaves the link and the state of every thread as
    /// they are, but for the first of the waiting threads.
    pub proof fn lemma_released_frame(&self, s: SchedState, core: int, t: int)
        requires
            self.wf(s),
            s.wf(),
            0 <= core < s.n_cores(),
            0 <= t < THREADS_NUMOF,
            self.waiters().len() > 0 ==> t != self.waiters()[0]@,
        ensures
            release_spec(self@, s, core).1.blocklist[t] == s.blocklist[t],
            release_spec(self@, s, core).1.tcbs[t].state == s.tcbs[t].state,
            Some(ThreadId(t as u8)) != self.owner() ==> release_spec(self@, s, core).1.tcbs[t].prio
                == s.tcbs[t].prio,
    {
        match self.state {
            LockState::Unlocked => {},
            LockState::Locked { owner_id, owner_prio, waiters } => {
                if Some(owner_id) == s.current[core] {
                    let restored = s.set_priority(core, owner_id@, owner_prio);
                    assert(restored.blocklist == s.blocklist);
                    assert(restored.tcbs[t].state == s.tcbs[t].state);
                    if waiters@.len() > 0 {
                        assert(waiters@[0]@ < THREADS_NUMOF);
                    }
                }
            },
        }
    }

    /// Priority inheritance: the owner of a lock runs with a priority that
    /// is at least its own and at least that of every thread that waits for
    /// the lock.
    pub proof fn law_owner_inherits(&self, s: SchedState, i: int)
        requires
            self.wf(s),
            self.owner() is Some,
        ensures
            s.tcbs[self.owner().unwrap()@].prio@ >= self.owner_prio().unwrap()@,
            0 <= i < self.waiters().len() ==> s.tcbs[self.owner().unwrap()@].prio@ >= s.tcbs[self.waiters()[i]@].prio@,
    {
    }

    /// Creates a new **unlocked** lock.
    pub fn new() -> (r: Self)
        ensures
            r.state is Unlocked,
            forall|s: SchedState| r.wf(s),
    {
        Self { state: LockState::Unlocked }
    }

    /// Returns whether the lock is locked.
    pub fn is_locked(&self) -> (r: bool)
        ensures
            r == self.owner().is_some(),
    {
        !matches!(self.state, LockState::Unlocked)
    }

    /// Gets the lock for the thread that is current on `core`, or blocks the
    /// thread until it can have it.
    ///
    /// - If the lock was unlocked, the thread owns it now.
    /// - If the thread owns the lock already, nothing happens.
    /// - Otherwise the thread waits for the lock, behind the waiting threads
    ///   of the same or a higher priority. If it is now the first to wait and
    ///   its priority is higher than the owner's own, the owner is raised to
    ///   that priority, unless it runs with a higher one already.
    ///
    /// Returns whether the thread owns the lock now. A thread that was
    /// blocked owns the lock when it runs again.
    pub fn acquire<const N_CORES: usize>(&mut self, threads: &mut Threads<N_CORES>, core: CoreId) -> (r:
        bool)
        requires
            old(threads).wf(),
            old(self).wf(old(threads)@),
            core@ < N_CORES,
            old(threads)@.dispatched(core@),
            old(self).owner() matches Some(owner) ==> (N_CORES > 1 && old(threads)@.is_current(owner)
                ==> !old(threads)@.is_queued(owner)),
        ensures
            final(threads).wf(),
            final(self).wf(final(threads)@),
            (final(self)@, final(threads)@, r) == acquire_spec(old(self)@, old(threads)@, core@),
    {
        let ghost s = threads@;
        let pid = match threads.current_pid(core) {
            Some(pid) => pid,
            None => {
                return false;
            },
        };
        let prio = threads.get_priority(pid);
        match &mut self.state {
            LockState::Unlocked => {
                self.state =
                LockState::Locked { waiters: ThreadList::new(), owner_id: pid, owner_prio: prio };
                true
            },
            LockState::Locked { waiters, owner_id, owner_prio } => {
                if owner_id.0 == pid.0 {
                    return true;
                }
                let ghost w0 = waiters@;
                let owner = *owner_id;
                let own_prio = *owner_prio;
                let inherit = waiters.put_current(threads, core, ThreadState::LockBlocked);
                let ghost blocked = threads@;
                let ghost pos = insert_pos(w0, s, prio@, 0);
                proof {
                    crate::threadlist::lemma_insert_pos(w0, s, prio@, 0);
                    assert(blocked.queues == s.queues || N_CORES == 1);
                    assert(blocked.current == s.current);
                }
                if let Some(inherit_priority) = inherit {
                    if inherit_priority.0 > own_prio.0 && inherit_priority.0
                        > threads.get_priority(owner).0 {
                        threads.set_priority(core, owner, inherit_priority);
                        proof {
                            let w = waiters@;
                            let s2 = threads@;
                            assert forall|i: int| 0 <= i < w.len() implies {
                                let t = (#[trigger] w[i])@;
                                &&& s2.blocklist[t] == blocked.blocklist[t]
                                &&& s2.tcbs[t].state == blocked.tcbs[t].state
                                &&& s2.tcbs[t].prio == blocked.tcbs[t].prio
                            } by {
                                if i < pos {
                                    assert(w[i] == w0[i]);
                                } else if i > pos {
                                    assert(w[i] == w0[i - 1]);
                                }
                            }
                            waiters.lemma_wf_frame(blocked, s2);
                        }
                    }
                }
                proof {
                    let w = waiters@;
                    let s2 = threads@;
                    assert forall|i: int| 0 <= i < w.len() implies #[trigger] w[i] != owner
                        && s2.tcbs[owner@].prio@ >= s2.tcbs[w[i]@].prio@ by {
                        if i < pos {
                            assert(w[i] == w0[i]);
                        } else if i > pos {
                            assert(w[i] == w0[i - 1]);
                        } else {
                            if pos > 0 {
                                assert(w[0] == w0[0]);
                                assert(s.tcbs[w0[0]@].prio@ >= prio@);
                            }
                        }
                    }
                }
                false
            },
        }
    }

    /// Gets the lock for the thread that is current on `core` if that is
    /// possible without blocking.
    ///
    /// Returns whether the thread owns the lock now: it does if the lock was
    /// unlocked, or if the thread owned it already.
    pub fn try_acquire<const N_CORES: usize>(&mut self, threads: &Threads<N_CORES>, core: CoreId) -> (r:
        bool)
        requires
            threads.wf(),
            old(self).wf(threads@),
            core@ < N_CORES,
            threads@.current[core@] matches Some(pid) && threads@.tcbs[pid@].state
                != ThreadState::Invalid,
        ensures
            final(self).wf(threads@),
            (final(self)@, r) == try_acquire_spec(old(self)@, threads@, core@),
    {
        let pid = match threads.current_pid(core) {
            Some(pid) => pid,
            None => {
                return false;
            },
        };
        let prio = threads.get_priority(pid);
        match &self.state {
            LockState::Unlocked => {
                self.state =
                LockState::Locked { waiters: ThreadList::new(), owner_id: pid, owner_prio: prio };
                true
            },
            LockState::Locked { owner_id, .. } => owner_id.0 == pid.0,
        }
    }

    /// Releases the lock on behalf of the thread that is current on `core`.
    ///
    /// Nothing happens if the lock is unlocked, or if the thread is not its
    /// owner. Otherwise the owner gets back the priority that it has of its
    /// own. If threads wait for the lock, the first of them becomes the owner
    /// and runs again; if none does, the lock is unlocked.
    pub fn release<const N_CORES: usize>(&mut self, threads: &mut Threads<N_CORES>, core: CoreId)
        requires
            old(threads).wf(),
            old(self).wf(old(threads)@),
            core@ < N_CORES,
            old(threads)@.current[core@] matches Some(pid) && (N_CORES > 1 ==> !old(threads)@.is_queued(pid)),
        ensures
            final(threads).wf(),
            final(self).wf(final(threads)@),
            (final(self)@, final(threads)@) == release_spec(old(self)@, old(threads)@, core@),
            old(self).owner() == old(threads)@.current[core@] && old(self).owner() is Some
                ==> final(threads)@.tcbs[old(self).owner().unwrap()@].prio == old(self).owner_prio().unwrap(),
    {
        let ghost s = threads@;
        let pid = match threads.current_pid(core) {
            Some(pid) => pid,
            None => {
                return ;
            },
        };
        match &mut self.state {
            LockState::Unlocked => {},
            LockState::Locked { waiters, owner_id, owner_prio } => {
                if pid.0 != owner_id.0 {
                    return ;
                }
                let ghost w0 = waiters@;
                let ghost old_owner = *owner_id;
                threads.set_priority(core, *owner_id, *owner_prio);
                let ghost restored = threads@;
                proof {
                    assert(restored.tcbs[old_owner@].prio == *owner_prio);
                    assert forall|i: int| 0 <= i < w0.len() implies {
                        let t = (#[trigger] w0[i])@;
                        &&& restored.blocklist[t] == s.blocklist[t]
                        &&& restored.tcbs[t].state == s.tcbs[t].state
                        &&& restored.tcbs[t].prio == s.tcbs[t].prio
                    } by {
                        assert(w0[i] != old_owner);
                    }
                    waiters.lemma_wf_frame(s, restored);
                }
                match waiters.pop(threads, core) {
                    Some((next, _)) => {
                        *owner_id = next;
                        *owner_prio = threads.get_priority(next);
                        proof {
                            let w = waiters@;
                            let s2 = threads@;
                            assert(next == w0[0]);
                            assert(s2.tcbs[old_owner@].prio == restored.tcbs[old_owner@].prio);
                            assert forall|i: int| 0 <= i < w.len() implies #[trigger] w[i] != next
                                && s2.tcbs[next@].prio@ >= s2.tcbs[w[i]@].prio@ by {
                                assert(w[i] == w0[i + 1]);
                                assert(w0[0] != w0[i + 1]);
                                assert(restored.tcbs[w0[0]@].prio@ >= restored.tcbs[w0[i + 1]@].prio@);
                            }
                        }
                    },
                    None => {
                        self.state = LockState::Unlocked;
                    },
                }
            },
        }
    }
}

} // verus!
