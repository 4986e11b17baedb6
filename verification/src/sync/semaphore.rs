//! A counting semaphore.
use vstd::prelude::*;
use crate::ids::CoreId;
use crate::model::SchedState;
use crate::thread::ThreadState;
use crate::threadlist::{insert_pos, linked_in, woken, ThreadList};
use crate::threads::Threads;

verus! {

/// The state of a semaphore.
pub enum SemaphoreState {
    /// The number of threads that can still acquire the semaphore without
    /// blocking; it is not zero.
    Unlocked(usize),
    /// No thread can acquire the semaphore without blocking; these threads
    /// wait for it.
    Locked(ThreadList),
}

/// A semaphore that `N` threads can hold at a time. It carries no data.
pub struct Semaphore<const N: usize> {
    pub state: SemaphoreState,
}

impl<const N: usize> Semaphore<N> {
    /// Whether the count of an unlocked semaphore is at least one, as it
    /// has to be.
    pub open spec fn counted(&self) -> bool {
        match self.state {
            SemaphoreState::Unlocked(counter) => counter >= 1,
            SemaphoreState::Locked(_) => true,
        }
    }

    /// Whether the semaphore is intact in the scheduler state `s`.
    pub open spec fn wf(&self, s: SchedState) -> bool {
        match self.state {
            SemaphoreState::Unlocked(counter) => counter >= 1,
            SemaphoreState::Locked(waiters) => waiters.wf(s),
        }
    }

    /// The number of threads that can acquire the semaphore without
    /// blocking.
    pub open spec fn available(&self) -> int {
        match self.state {
            SemaphoreState::Unlocked(counter) => counter as int,
            SemaphoreState::Locked(_) => 0,
        }
    }

    /// The threads that wait for the semaphore.
    pub open spec fn waiters(&self) -> Seq<crate::ids::ThreadId> {
        match self.state {
            SemaphoreState::Unlocked(_) => Seq::empty(),
            SemaphoreState::Locked(waiters) => waiters@,
        }
    }

    /// Creates a new **unlocked** semaphore, which `N` threads can acquire.
    pub fn new() -> (r: Self)
        requires
            N >= 1,
        ensures
            r.available() == N,
            forall|s: SchedState| r.wf(s),
    {
        Self { state: SemaphoreState::Unlocked(N) }
    }

    /// Creates a new **locked** semaphore, for which no thread waits.
    pub fn new_locked() -> (r: Self)
        ensures
            r.available() == 0,
            r.waiters().len() == 0,
            forall|s: SchedState| r.wf(s),
    {
        Self { state: SemaphoreState::Locked(ThreadList::new()) }
    }

    /// Returns whether the semaphore is locked.
    pub fn is_locked(&self) -> (r: bool)
        requires
            self.counted(),
        ensures
            r == (self.available() == 0),
    {
        !matches!(self.state, SemaphoreState::Unlocked(_))
    }

    /// Acquires the semaphore for the thread that is current on `core`, or
    /// blocks the thread until it can have it.
    ///
    /// Returns whether the thread holds the semaphore now. A thread that was
    /// blocked holds it when it runs again.
    pub fn acquire<const N_CORES: usize>(&mut self, threads: &mut Threads<N_CORES>, core: CoreId) -> (r:
        bool)
        requires
            old(threads).wf(),
            old(self).wf(old(threads)@),
            core@ < N_CORES,
            old(threads)@.dispatched(core@),
        ensures
            final(threads).wf(),
            final(self).wf(final(threads)@),
            r == (old(self).available() > 0),
            r ==> final(self).available() == old(self).available() - 1 && final(self).waiters().len()
                == 0 && final(threads)@ == old(threads)@,
            !r ==> ({
                let s = old(threads)@;
                let pid = s.current[core@].unwrap();
                let pos = insert_pos(old(self).waiters(), s, s.tcbs[pid@].prio@, 0);
                &&& final(self).available() == 0
                &&& final(self).waiters() == old(self).waiters().insert(pos, pid)
                &&& final(threads)@ == linked_in(s, old(self).waiters(), pid, pos).set_state(
                    core@,
                    pid@,
                    ThreadState::LockBlocked,
                )
            }),
    {
        match &mut self.state {
            SemaphoreState::Unlocked(counter) => {
                if *counter == 1 {
                    self.state = SemaphoreState::Locked(ThreadList::new());
                } else {
                    *counter -= 1;
                }
                true
            },
            SemaphoreState::Locked(waiters) => {
                waiters.put_current(threads, core, ThreadState::LockBlocked);
                false
            },
        }
    }

    /// Acquires the semaphore for the thread that is current on `core` if
    /// that is possible without blocking. Returns whether the thread holds
    /// the semaphore now.
    pub fn try_acquire(&mut self) -> (r: bool)
        requires
            old(self).counted(),
        ensures
            final(self).counted(),
            r == (old(self).available() > 0),
            r ==> final(self).available() == old(self).available() - 1 && final(self).waiters().len()
                == 0,
            !r ==> final(self).state == old(self).state,
    {
        match &mut self.state {
            SemaphoreState::Unlocked(counter) => {
                if *counter == 1 {
                    self.state = SemaphoreState::Locked(ThreadList::new());
                } else {
                    *counter -= 1;
                }
                true
            },
            SemaphoreState::Locked(_) => false,
        }
    }

    /// Releases the semaphore.
    ///
    /// If threads wait for the semaphore, the first of them holds it now and
    /// runs again. Otherwise one more thread can acquire it without
    /// blocking.
    pub fn release<const N_CORES: usize>(&mut self, threads: &mut Threads<N_CORES>, core: CoreId)
        requires
            old(threads).wf(),
            old(self).wf(old(threads)@),
            core@ < N_CORES,
            old(self).available() < usize::MAX,
        ensures
            final(threads).wf(),
            final(self).wf(final(threads)@),
            old(self).waiters().len() == 0 ==> final(self).available() == old(self).available() + 1
                && final(threads)@ == old(threads)@,
            old(self).waiters().len() > 0 ==> {
                &&& final(self).available() == 0
                &&& final(self).waiters() == old(self).waiters().drop_first()
                &&& final(threads)@ == woken(old(threads)@, old(self).waiters()[0], core@)
            },
    {
        match &mut self.state {
            SemaphoreState::Unlocked(counter) => {
                *counter += 1;
            },
            SemaphoreState::Locked(waiters) => {
                if waiters.pop(threads, core).is_none() {
                    self.state = SemaphoreState::Unlocked(1);
                }
            },
        }
    }
}

} // verus!
