//! A condition variable: threads wait on it, with a mutex released, until
//! another thread notifies them.
use vstd::prelude::*;
use crate::ids::{CoreId, ThreadId};
use crate::model::{SchedState, THREADS_NUMOF};
use crate::sync::lock::release_spec;
use crate::sync::mutex::Mutex;
use crate::thread::ThreadState;
use crate::threadlist::{drained, insert_pos, linked_in, woken, ThreadList};
use crate::threads::Threads;

verus! {

/// Blocks a thread while it is waiting for an event to occur.
pub struct Condvar {
    pub waiters: ThreadList,
}

impl Condvar {
    /// Whether the condition variable is intact in the scheduler state `s`.
    pub open spec fn wf(&self, s: SchedState) -> bool {
        self.waiters.wf(s)
    }

    /// Creates a new condition variable, on which no thread waits.
    pub fn new() -> (r: Self)
        ensures
            r.waiters@.len() == 0,
            forall|s: SchedState| r.wf(s),
    {
        Condvar { waiters: ThreadList::new() }
    }

    /// Blocks the thread that is current on `core` until this condition
    /// variable is notified.
    ///
    /// The thread is put on the list of waiting threads, behind those of the
    /// same or a higher priority, and the mutex is then released on its
    /// behalf. When the thread runs again, it has been notified, and
    /// acquires the mutex anew.
    pub fn wait<T, const N_CORES: usize>(
        &mut self,
        mutex: &mut Mutex<T>,
        threads: &mut Threads<N_CORES>,
        core: CoreId,
    )
        requires
            old(threads).wf(),
            old(self).wf(old(threads)@),
            old(mutex).wf(old(threads)@),
            core@ < N_CORES,
            old(threads)@.dispatched(core@),
            // No thread waits both here and for the mutex.
            forall|i: int, j: int|
                0 <= i < old(self).waiters@.len() && 0 <= j < old(mutex).lock.waiters().len() ==> old(self).waiters@[i] != old(mutex).lock.waiters()[j],
            forall|i: int|
                0 <= i < old(self).waiters@.len() ==> Some(#[trigger] old(self).waiters@[i]) != old(mutex).lock.owner(),
        ensures
            final(threads).wf(),
            final(self).wf(final(threads)@),
            final(mutex).wf(final(threads)@),
            final(mutex).inner == old(mutex).inner,
            ({
                let s = old(threads)@;
                let pid = s.current[core@].unwrap();
                let pos = insert_pos(old(self).waiters@, s, s.tcbs[pid@].prio@, 0);
                let blocked = linked_in(s, old(self).waiters@, pid, pos).set_state(
                    core@,
                    pid@,
                    ThreadState::CondVarBlocked,
                );
                &&& final(self).waiters@ == old(self).waiters@.insert(pos, pid)
                &&& (final(mutex).lock@, final(threads)@) == release_spec(
                    old(mutex).lock@,
                    blocked,
                    core@,
                )
            }),
    {
        let ghost s = threads@;
        let ghost w0 = self.waiters@;
        let ghost pid = s.current[core@].unwrap();
        let ghost pos = insert_pos(w0, s, s.tcbs[pid@].prio@, 0);
        proof {
            crate::threadlist::lemma_insert_pos(w0, s, s.tcbs[pid@].prio@, 0);
            assert(pid@ < THREADS_NUMOF);
            if pos > 0 {
                assert(w0[pos - 1]@ < THREADS_NUMOF);
            }
        }
        self.waiters.put_current(threads, core, ThreadState::CondVarBlocked);
        let ghost blocked = threads@;
        proof {
            // The wait on the condition variable leaves the mutex intact.
            Self::lemma_mutex_kept(mutex.lock, s, blocked, w0, pid, pos);
            assert(mutex.wf(blocked));
            assert(N_CORES > 1 ==> !blocked.is_queued(pid));
        }
        // The mutex is unlocked on behalf of the thread that now waits.
        mutex.release(threads, core);
        proof {
            let w = self.waiters@;
            let s2 = threads@;
            let mw = old(mutex).lock.waiters();
            assert(w[pos] == pid);
            assert forall|i: int| 0 <= i < w.len() implies {
                let t = (#[trigger] w[i])@;
                &&& s2.blocklist[t] == blocked.blocklist[t]
                &&& s2.tcbs[t].state == blocked.tcbs[t].state
            } by {
                if mw.len() > 0 {
                    assert(mw[0] != pid);
                    if i < pos {
                        assert(w[i] == w0[i]);
                        assert(w0[i] != mw[0]);
                    } else if i > pos {
                        assert(w[i] == w0[i - 1]);
                        assert(w0[i - 1] != mw[0]);
                    }
                }
                old(mutex).lock.lemma_released_frame(blocked, core@, w[i]@);
            }
            self.waiters.lemma_wf_frame(blocked, s2);
        }
    }

    /// A lock stays intact when a thread that does not wait for it is
    /// linked into another list, in which none of its waiting threads is,
    /// and blocked.
    proof fn lemma_mutex_kept(
        lock: crate::sync::lock::Lock,
        s: SchedState,
        blocked: SchedState,
        w0: Seq<ThreadId>,
        pid: ThreadId,
        pos: int,
    )
        requires
            lock.wf(s),
            s.wf(),
            pid@ < THREADS_NUMOF,
            s.tcbs[pid@].state == ThreadState::Running,
            0 <= pos <= w0.len(),
            forall|i: int| 0 <= i < w0.len() ==> (#[trigger] w0[i])@ < THREADS_NUMOF,
            forall|i: int, j: int|
                0 <= i < w0.len() && 0 <= j < lock.waiters().len() ==> w0[i] != lock.waiters()[j],
            blocked.blocklist == linked_in(s, w0, pid, pos).blocklist,
            blocked.tcbs == s.tcbs.update(
                pid@,
                crate::thread::Thread { state: ThreadState::CondVarBlocked, ..s.tcbs[pid@] },
            ),
        ensures
            lock.wf(blocked),
    {
        let mw = lock.waiters();
        match lock.state {
            crate::sync::lock::LockState::Unlocked => {},
            crate::sync::lock::LockState::Locked { owner_id, owner_prio, waiters } => {
                assert forall|j: int| 0 <= j < mw.len() implies {
                    let t = (#[trigger] mw[j])@;
                    &&& blocked.blocklist[t] == s.blocklist[t]
                    &&& blocked.tcbs[t].state == s.tcbs[t].state
                    &&& blocked.tcbs[t].prio == s.tcbs[t].prio
                } by {
                    assert(mw[j] != pid);
                    if pos > 0 {
                        assert(w0[pos - 1] != mw[j]);
                    }
                }
                waiters.lemma_wf_frame(s, blocked);
                assert forall|j: int| 0 <= j < mw.len() implies blocked.tcbs[owner_id@].prio@
                    >= blocked.tcbs[(#[trigger] mw[j])@].prio@ by {
                    assert(s.tcbs[owner_id@].prio@ >= s.tcbs[mw[j]@].prio@);
                }
            },
        }
    }

    /// Wakes up one thread that waits on this condition variable: the one
    /// of the highest priority that has waited longest. Nothing happens if
    /// no thread waits: notifications are not kept.
    pub fn notify_one<const N_CORES: usize>(&mut self, threads: &mut Threads<N_CORES>, core: CoreId)
        requires
            old(threads).wf(),
            old(self).wf(old(threads)@),
            core@ < N_CORES,
        ensures
            final(threads).wf(),
            final(self).wf(final(threads)@),
            old(self).waiters@.len() == 0 ==> final(self).waiters@ == old(self).waiters@ && final(threads)@ == old(threads)@,
            old(self).waiters@.len() > 0 ==> {
                &&& final(self).waiters@ == old(self).waiters@.drop_first()
                &&& final(threads)@ == woken(old(threads)@, old(self).waiters@[0], core@)
            },
    {
        self.waiters.pop(threads, core);
    }

    /// Wakes up all threads that wait on this condition variable.
    pub fn notify_all<const N_CORES: usize>(&mut self, threads: &mut Threads<N_CORES>, core: CoreId)
        requires
            old(threads).wf(),
            old(self).wf(old(threads)@),
            core@ < N_CORES,
        ensures
            final(threads).wf(),
            final(self).wf(final(threads)@),
            final(self).waiters@.len() == 0,
            final(threads)@ == drained(old(threads)@, old(self).waiters@, core@),
    {
        self.waiters.drain(threads, core)
    }
}

} // verus!
