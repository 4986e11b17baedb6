//! A mutex with priority inheritance: a lock together with the data that it
//! protects.
use vstd::prelude::*;
use crate::ids::{CoreId, ThreadId};
use crate::model::SchedState;
use crate::sync::lock::{acquire_spec, release_spec, try_acquire_spec, Lock};
use crate::threads::Threads;

verus! {

/// A basic mutex with priority inheritance.
pub struct Mutex<T> {
    pub lock: Lock,
    pub inner: T,
}

impl<T> Mutex<T> {
    /// Whether the mutex is intact in the scheduler state `s`.
    pub open spec fn wf(&self, s: SchedState) -> bool {
        self.lock.wf(s)
    }

    /// Creates a new **unlocked** [`Mutex`].
    pub fn new(value: T) -> (r: Self)
        ensures
            r.lock.state is Unlocked,
            r.inner == value,
            forall|s: SchedState| r.wf(s),
    {
        Self { lock: Lock::new(), inner: value }
    }

    /// Returns whether the mutex is locked.
    pub fn is_locked(&self) -> (r: bool)
        ensures
            r == self.lock.owner().is_some(),
    {
        self.lock.is_locked()
    }

    /// The data, for the thread that is current on `core` if it owns the
    /// mutex; `None` for any other thread.
    pub fn get<const N_CORES: usize>(&self, threads: &Threads<N_CORES>, core: CoreId) -> (r: Option<
        &T,
    >)
        requires
            core@ < N_CORES,
        ensures
            r == if self.lock.owner().is_some() && self.lock.owner() == threads@.current[core@] {
                Some(&self.inner)
            } else {
                None
            },
    {
        if self.owned_by(threads.current_pid(core)) {
            Some(&self.inner)
        } else {
            None
        }
    }

    /// Replaces the data on behalf of the thread that is current on `core`,
    /// if it owns the mutex. Returns whether it does.
    pub fn set<const N_CORES: usize>(&mut self, threads: &Threads<N_CORES>, core: CoreId, value: T) -> (r:
        bool)
        requires
            core@ < N_CORES,
        ensures
            r == (old(self).lock.owner().is_some() && old(self).lock.owner()
                == threads@.current[core@]),
            final(self).lock == old(self).lock,
            final(self).inner == if r {
                value
            } else {
                old(self).inner
            },
    {
        if self.owned_by(threads.current_pid(core)) {
            self.inner = value;
            true
        } else {
            false
        }
    }

    /// Whether `thread` is a thread and owns the mutex.
    fn owned_by(&self, thread: Option<ThreadId>) -> (r: bool)
        ensures
            r == (self.lock.owner().is_some() && self.lock.owner() == thread),
    {
        match (&self.lock.state, thread) {
            (crate::sync::lock::LockState::Locked { owner_id, .. }, Some(pid)) => owner_id.0
                == pid.0,
            _ => false,
        }
    }

    /// Acquires the mutex for the thread that is current on `core`, or
    /// blocks the thread until it can have it.
    ///
    /// Returns whether the thread owns the mutex now. A thread that was
    /// blocked owns the mutex when it runs again.
    pub fn lock<const N_CORES: usize>(&mut self, threads: &mut Threads<N_CORES>, core: CoreId) -> (r:
        bool)
        requires
            old(threads).wf(),
            old(self).wf(old(threads)@),
            core@ < N_CORES,
            old(threads)@.dispatched(core@),
            old(self).lock.owner() matches Some(owner) ==> (N_CORES > 1 && old(threads)@.is_current(
                owner,
            ) ==> !old(threads)@.is_queued(owner)),
        ensures
            final(threads).wf(),
            final(self).wf(final(threads)@),
            final(self).inner == old(self).inner,
            (final(self).lock@, final(threads)@, r) == acquire_spec(
                old(self).lock@,
                old(threads)@,
                core@,
            ),
    {
        self.lock.acquire(threads, core)
    }

    /// Acquires the mutex for the thread that is current on `core` if that
    /// is possible without blocking. Returns whether the thread owns the
    /// mutex now.
    pub fn try_lock<const N_CORES: usize>(&mut self, threads: &Threads<N_CORES>, core: CoreId) -> (r:
        bool)
        requires
            threads.wf(),
            old(self).wf(threads@),
            core@ < N_CORES,
            threads@.current[core@] matches Some(pid) && threads@.tcbs[pid@].state
                != crate::thread::ThreadState::Invalid,
        ensures
            final(self).wf(threads@),
            final(self).inner == old(self).inner,
            (final(self).lock@, r) == try_acquire_spec(old(self).lock@, threads@, core@),
    {
        self.lock.try_acquire(threads, core)
    }

    /// Releases the mutex on behalf of the thread that is current on
    /// `core`: see [`Lock::release`].
    pub fn release<const N_CORES: usize>(&mut self, threads: &mut Threads<N_CORES>, core: CoreId)
        requires
            old(threads).wf(),
            old(self).wf(old(threads)@),
            core@ < N_CORES,
            old(threads)@.current[core@] matches Some(pid) && (N_CORES > 1 ==> !old(threads)@.is_queued(pid)),
        ensures
            final(threads).wf(),
            final(self).wf(final(threads)@),
            final(self).inner == old(self).inner,
            (final(self).lock@, final(threads)@) == release_spec(
                old(self).lock@,
                old(threads)@,
                core@,
            ),
    {
        self.lock.release(threads, core)
    }
}

} // verus!
