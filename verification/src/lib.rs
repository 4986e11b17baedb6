//! Preemptive fixed-priority thread scheduling for small multi-threaded
//! systems: the run queue, the scheduler state and the primitives on which
//! threads block, with their behaviour stated and proved.
//!
//! Threads of a higher priority preempt those of a lower one. Within one
//! priority level threads are scheduled cooperatively: a thread runs until it
//! blocks or calls [`yield_same`].
//!
//! Nothing here touches the hardware. The scheduler state is a value,
//! [`threads::Threads`], that the caller keeps behind a lock of its own; every
//! operation is told the core that it runs on, and leaves the reschedule
//! requests that it makes pending in the state, where the caller takes them
//! when it releases the lock.
use vstd::prelude::*;

pub mod arch;
pub mod bitmap;
pub mod clist;
pub mod ids;
pub mod model;
pub mod runqueue;
pub mod smp;
pub mod sync;
pub mod thread;
pub mod thread_flags;
pub mod threadlist;
pub mod threads;

use crate::ids::{CoreId, RunqueueId, ThreadId};
use crate::model::{first_free, lemma_first_free, THREADS_NUMOF};
use crate::runqueue::GlobalRunqueue;
use crate::thread::{CoreAffinity, ThreadState};
use crate::threads::Threads;

verus! {

/// Why a thread could not be created.
#[derive(Copy, Clone, PartialEq, Eq, Debug, Structural)]
pub enum Error {
    /// Every slot of the thread table is in use.
    OutOfThreads,
}

/// Creates a thread that runs `func` with `arg`, and makes it runnable.
///
/// The stack of the thread is the `stack_len` bytes at `stack_start`; when
/// `func` returns, the thread returns into `cleanup`. The thread gets the
/// first free slot of the thread table.
///
/// Fails with [`Error::OutOfThreads`], and changes nothing, if no slot is
/// free.
pub fn create<const N_CORES: usize>(
    threads: &mut Threads<N_CORES>,
    core: CoreId,
    func: usize,
    arg: usize,
    stack_start: usize,
    stack_len: usize,
    cleanup: usize,
    prio: u8,
    core_affinity: Option<CoreAffinity>,
) -> (r: Result<ThreadId, Error>)
    requires
        old(threads).wf(),
        core@ < N_CORES,
        old(threads)@.may_create(RunqueueId(prio), core_affinity),
        stack_start + stack_len <= usize::MAX,
        stack_start + stack_len >= crate::arch::CONTEXT_SIZE,
    ensures
        final(threads).wf(),
        match first_free(old(threads)@.tcbs, 0) {
            Some(t) => {
                &&& r == Ok::<ThreadId, Error>(ThreadId(t as u8))
                &&& final(threads)@ == old(threads)@.create(
                    func,
                    arg,
                    stack_start,
                    stack_len,
                    cleanup,
                    RunqueueId(prio),
                    core_affinity,
                ).set_state(core@, t, ThreadState::Running)
            },
            None => r == Err::<ThreadId, Error>(Error::OutOfThreads) && final(threads)@ == old(threads)@,
        },
        r is Err <==> forall|t: int|
            0 <= t < THREADS_NUMOF ==> (#[trigger] old(threads)@.tcbs[t]).state
                != ThreadState::Invalid,
{
    proof {
        lemma_first_free(threads@.tcbs, 0);
    }
    match threads.create(
        func,
        arg,
        stack_start,
        stack_len,
        cleanup,
        RunqueueId::new(prio),
        core_affinity,
    ) {
        Some(thread_id) => {
            threads.set_state(core, thread_id, ThreadState::Running);
            Ok(thread_id)
        },
        None => Err(Error::OutOfThreads),
    }
}

/// Returns the [`ThreadId`] of the thread that is current on `core`.
///
/// In an interrupt handler this is the thread that was interrupted.
pub fn current_pid<const N_CORES: usize>(threads: &Threads<N_CORES>, core: CoreId) -> (r: Option<
    ThreadId,
>)
    requires
        core@ < N_CORES,
    ensures
        r == threads@.current[core@],
{
    threads.current_pid(core)
}

/// Checks if a given [`ThreadId`] is valid: whether a thread exists for it.
pub fn is_valid_pid<const N_CORES: usize>(threads: &Threads<N_CORES>, thread_id: ThreadId) -> (r:
    bool)
    ensures
        r == (thread_id@ < THREADS_NUMOF && threads@.tcbs[thread_id@].state
            != ThreadState::Invalid),
{
    threads.is_valid_pid(thread_id)
}

/// Thread cleanup: ends the thread that is current on `core`.
///
/// A thread returns into this when its function returns. Its slot becomes
/// free and a reschedule is requested.
pub fn cleanup<const N_CORES: usize>(threads: &mut Threads<N_CORES>, core: CoreId)
    requires
        old(threads).wf(),
        core@ < N_CORES,
        old(threads)@.current[core@] matches Some(t) && old(threads)@.may_set_state(
            core@,
            t@,
            ThreadState::Invalid,
        ),
    ensures
        final(threads).wf(),
        final(threads)@ == old(threads)@.cleanup(core@),
{
    match threads.current_pid(core) {
        Some(pid) => {
            threads.set_state(core, pid, ThreadState::Invalid);
        },
        None => {},
    }
}

/// "Yields" to another thread with the same priority, on behalf of the
/// thread that is current on `core`. Nothing happens if no thread is.
pub fn yield_same<const N_CORES: usize>(threads: &mut Threads<N_CORES>, core: CoreId)
    requires
        old(threads).wf(),
        core@ < N_CORES,
    ensures
        final(threads).wf(),
        final(threads)@ == old(threads)@.yield_same(core@),
{
    let ghost pre = threads@;
    proof {
        pre.lemma_yield_same_wf(core@);
    }
    let current_pid = match threads.current_pid(core) {
        Some(pid) => pid,
        None => {
            return ;
        },
    };
    let thread = threads.inner.tcbs.get_unchecked(current_pid);
    let prio = thread.prio;
    let affinity = thread.core_affinity;
    if N_CORES == 1 {
        if threads.inner.runqueue.advance(current_pid, prio).is_some() {
            threads.schedule_on_core(core);
        }
    } else if !threads.inner.runqueue.is_empty(prio) {
        // With several cores the current thread is not in the run queue,
        // and is put back at its tail when the scheduler next runs.
        // Requesting a reschedule therefore advances the run queue.
        threads.schedule_on_core(core);
        // The yielding thread may continue on another core that currently
        // runs a thread of lower priority.
        if affinity.0 == 0xFF {
            threads.schedule_if_higher_prio(core, current_pid, prio);
        }
    }
}

/// Suspends the thread that is current on `core`. Nothing happens if no
/// thread is.
pub fn park<const N_CORES: usize>(threads: &mut Threads<N_CORES>, core: CoreId)
    requires
        old(threads).wf(),
        core@ < N_CORES,
        old(threads)@.current[core@] matches Some(t) ==> old(threads)@.may_set_state(
            core@,
            t@,
            ThreadState::Parked,
        ),
    ensures
        final(threads).wf(),
        final(threads)@ == old(threads)@.park(core@),
{
    match threads.current_pid(core) {
        Some(pid) => {
            threads.set_state(core, pid, ThreadState::Parked);
        },
        None => {},
    }
}

/// Wakes up a parked thread and adds it to the run queue.
///
/// Returns `false`, and changes nothing, if no parked thread exists for
/// `thread_id`.
pub fn unpark<const N_CORES: usize>(
    threads: &mut Threads<N_CORES>,
    core: CoreId,
    thread_id: ThreadId,
) -> (r: bool)
    requires
        old(threads).wf(),
        core@ < N_CORES,
    ensures
        final(threads).wf(),
        r == old(threads)@.is_parked(thread_id@),
        final(threads)@ == old(threads)@.unpark(core@, thread_id@),
{
    match threads.get_state(thread_id) {
        Some(ThreadState::Parked) => {},
        _ => {
            return false;
        },
    }
    threads.set_state(core, thread_id, ThreadState::Running);
    true
}

/// Returns the priority of a thread; `None` if this is not a valid thread.
pub fn get_priority<const N_CORES: usize>(threads: &Threads<N_CORES>, thread_id: ThreadId) -> (r:
    Option<RunqueueId>)
    ensures
        r == if thread_id@ < THREADS_NUMOF && threads@.tcbs[thread_id@].state
            != ThreadState::Invalid {
            Some(threads@.tcbs[thread_id@].prio)
        } else {
            None
        },
{
    if !threads.is_valid_pid(thread_id) {
        return None;
    }
    Some(threads.get_priority(thread_id))
}

/// Changes the priority of a thread. This may request a reschedule.
///
/// Nothing happens if `thread_id` is not a valid thread, or if the thread
/// has that priority already.
pub fn set_priority<const N_CORES: usize>(
    threads: &mut Threads<N_CORES>,
    core: CoreId,
    thread_id: ThreadId,
    prio: RunqueueId,
)
    requires
        old(threads).wf(),
        old(threads)@.may_set_priority(core@, thread_id@, prio),
    ensures
        final(threads).wf(),
        final(threads)@ == old(threads)@.set_priority(core@, thread_id@, prio),
{
    threads.set_priority(core, thread_id, prio)
}

} // verus!
