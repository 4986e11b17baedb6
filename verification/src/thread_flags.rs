//! Thread flags: a word of sixteen flags per thread, which other threads set
//! and the thread itself waits for.
use vstd::prelude::*;
use crate::ids::{CoreId, ThreadId};
use crate::model::{SchedState, THREADS_NUMOF};
use crate::thread::{ThreadFlags, ThreadState, WaitMode};
use crate::threads::Threads;

verus! {

/// The flags that a thread takes when it waits for all flags of `mask`: the
/// mask, if all its flags are set.
pub open spec fn taken_all(flags: ThreadFlags, mask: ThreadFlags) -> Option<ThreadFlags> {
    if flags & mask == mask {
        Some(mask)
    } else {
        None
    }
}

/// The flags that a thread takes when it waits for any flag of `mask`: the
/// flags of the mask that are set, if any is.
pub open spec fn taken_any(flags: ThreadFlags, mask: ThreadFlags) -> Option<ThreadFlags> {
    if flags & mask != 0 {
        Some(flags & mask)
    } else {
        None
    }
}

/// The lowest bit that is set in `x`, as a word in which no other bit is
/// set.
pub open spec fn lowest_flag(x: ThreadFlags) -> ThreadFlags {
    x & ((!x + 1) as u16)
}

/// The lowest flag of a word that is not zero is a single flag of the word,
/// and no flag of the word lies below it.
pub proof fn law_lowest_flag(x: ThreadFlags)
    requires
        x != 0,
    ensures
        lowest_flag(x) != 0,
        lowest_flag(x) & x == lowest_flag(x),
        lowest_flag(x) & ((lowest_flag(x) - 1) as u16) == 0,
        x & ((lowest_flag(x) - 1) as u16) == 0,
{
    assert(!x < 0xFFFF) by (bit_vector)
        requires
            x != 0,
    ;
    let y: u16 = (!x + 1) as u16;
    let r: u16 = x & y;
    assert(r != 0 && r & x == r && r & ((r - 1) as u16) == 0 && x & ((r - 1) as u16) == 0)
        by (bit_vector)
        requires
            x != 0,
            y == (!x + 1) as u16,
            r == x & y,
    ;
}

/// The flags that a thread takes when it waits for one flag of `mask`: the
/// lowest flag of the mask that is set, if any is.
pub open spec fn taken_one(flags: ThreadFlags, mask: ThreadFlags) -> Option<ThreadFlags> {
    if flags & mask != 0 {
        Some(lowest_flag(flags & mask))
    } else {
        None
    }
}

impl<const N_CORES: usize> Threads<N_CORES> {
    /// Sets flags for a thread, and wakes the thread if it was waiting for
    /// them.
    pub fn flag_set(&mut self, core: CoreId, thread_id: ThreadId, mask: ThreadFlags)
        requires
            old(self).wf(),
            core@ < N_CORES,
            thread_id@ < THREADS_NUMOF,
        ensures
            final(self).wf(),
            final(self)@ == old(self)@.flag_set(core@, thread_id@, mask),
    {
        let ghost pre = self@;
        let thread = self.inner.tcbs.get_unchecked_mut(thread_id);
        thread.flags |= mask;
        let flags = thread.flags;
        let state = thread.state;
        proof {
            pre.lemma_flags_wf(thread_id@, flags);
            assert(self@.tcbs =~= pre.tcbs.update(
                thread_id@,
                crate::thread::Thread { flags: flags, ..pre.tcbs[thread_id@] },
            ));
        }
        let wake = match state {
            ThreadState::FlagBlocked(WaitMode::Any(bits)) => mask & bits != 0,
            ThreadState::FlagBlocked(WaitMode::All(bits)) => flags & bits == bits,
            _ => false,
        };
        if wake {
            self.set_state(core, thread_id, ThreadState::Running);
        }
    }

    /// Takes the flags that `cond` chooses from the flags of the thread that
    /// is current on `core`, or blocks the thread in `mode` if `cond`
    /// chooses none.
    fn flag_wait<F: Fn(ThreadFlags) -> Option<ThreadFlags>>(
        &mut self,
        core: CoreId,
        cond: F,
        mode: WaitMode,
    ) -> (r: Option<ThreadFlags>)
        requires
            old(self).wf(),
            core@ < N_CORES,
            old(self)@.current[core@] matches Some(t) && old(self)@.may_set_state(
                core@,
                t@,
                ThreadState::FlagBlocked(mode),
            ),
            forall|flags: ThreadFlags| call_requires(cond, (flags,)),
        ensures
            final(self).wf(),
            call_ensures(
                cond,
                (old(self)@.tcbs[old(self)@.current[core@].unwrap()@].flags,),
                r,
            ),
            final(self)@ == old(self)@.flag_wait(core@, r, mode),
    {
        let ghost pre = self@;
        let thread_id = match self.inner.current_threads.current_pid(core) {
            Some(pid) => pid,
            None => {
                return None;
            },
        };
        let flags = self.inner.tcbs.get_unchecked(thread_id).flags;
        match cond(flags) {
            Some(res) => {
                let thread = self.inner.tcbs.get_unchecked_mut(thread_id);
                thread.flags &= !res;
                proof {
                    pre.lemma_flags_wf(thread_id@, flags & !res);
                    assert(self@.tcbs =~= pre.flag_wait(core@, Some(res), mode).tcbs);
                }
                Some(res)
            },
            None => {
                self.set_state(core, thread_id, ThreadState::FlagBlocked(mode));
                None
            },
        }
    }

    /// One attempt to wait for all flags of `mask`.
    pub fn flag_wait_all(&mut self, core: CoreId, mask: ThreadFlags) -> (r: Option<ThreadFlags>)
        requires
            old(self).wf(),
            core@ < N_CORES,
            old(self)@.current[core@] matches Some(t) && old(self)@.may_set_state(
                core@,
                t@,
                ThreadState::FlagBlocked(WaitMode::All(mask)),
            ),
        ensures
            final(self).wf(),
            r == taken_all(old(self)@.tcbs[old(self)@.current[core@].unwrap()@].flags, mask),
            final(self)@ == old(self)@.flag_wait(core@, r, WaitMode::All(mask)),
    {
        let cond = |thread_flags: ThreadFlags| -> (res: Option<ThreadFlags>)
            ensures
                res == taken_all(thread_flags, mask),
            {
                let res: u16 = thread_flags & mask;
                if res == mask {
                    Some(mask)
                } else {
                    None
                }
            };
        self.flag_wait(core, cond, WaitMode::All(mask))
    }

    /// One attempt to wait for any flag of `mask`.
    pub fn flag_wait_any(&mut self, core: CoreId, mask: ThreadFlags) -> (r: Option<ThreadFlags>)
        requires
            old(self).wf(),
            core@ < N_CORES,
            old(self)@.current[core@] matches Some(t) && old(self)@.may_set_state(
                core@,
                t@,
                ThreadState::FlagBlocked(WaitMode::Any(mask)),
            ),
        ensures
            final(self).wf(),
            r == taken_any(old(self)@.tcbs[old(self)@.current[core@].unwrap()@].flags, mask),
            final(self)@ == old(self)@.flag_wait(core@, r, WaitMode::Any(mask)),
    {
        let cond = |thread_flags: ThreadFlags| -> (res: Option<ThreadFlags>)
            ensures
                res == taken_any(thread_flags, mask),
            {
                let res: u16 = thread_flags & mask;
                if res != 0 {
                    Some(res)
                } else {
                    None
                }
            };
        self.flag_wait(core, cond, WaitMode::Any(mask))
    }

    /// One attempt to wait for one flag of `mask`.
    pub fn flag_wait_one(&mut self, core: CoreId, mask: ThreadFlags) -> (r: Option<ThreadFlags>)
        requires
            old(self).wf(),
            core@ < N_CORES,
            old(self)@.current[core@] matches Some(t) && old(self)@.may_set_state(
                core@,
                t@,
                ThreadState::FlagBlocked(WaitMode::Any(mask)),
            ),
        ensures
            final(self).wf(),
            r == taken_one(old(self)@.tcbs[old(self)@.current[core@].unwrap()@].flags, mask),
            final(self)@ == old(self)@.flag_wait(core@, r, WaitMode::Any(mask)),
    {
        let cond = |thread_flags: ThreadFlags| -> (res: Option<ThreadFlags>)
            ensures
                res == taken_one(thread_flags, mask),
            {
                let res: u16 = thread_flags & mask;
                if res != 0 {
                    proof {
                        assert(!res < 0xFFFF) by (bit_vector)
                            requires
                                res != 0,
                        ;
                    }
                    Some(res & (!res + 1))
                } else {
                    None
                }
            };
        self.flag_wait(core, cond, WaitMode::Any(mask))
    }
}

/// Sets flags for a thread.
///
/// If the thread was blocked on these flags it is unblocked and added to the
/// run queue.
pub fn set<const N_CORES: usize>(
    threads: &mut Threads<N_CORES>,
    core: CoreId,
    thread_id: ThreadId,
    mask: ThreadFlags,
)
    requires
        old(threads).wf(),
        core@ < N_CORES,
        thread_id@ < THREADS_NUMOF,
    ensures
        final(threads).wf(),
        final(threads)@ == old(threads)@.flag_set(core@, thread_id@, mask),
{
    threads.flag_set(core, thread_id, mask)
}

/// One attempt of the thread that is current on `core` to wait until all
/// flags in `mask` are set for it.
///
/// Returns the mask and clears its flags if they are all set. Otherwise the
/// thread blocks and `None` is returned; once it runs again, it tries again.
pub fn wait_all<const N_CORES: usize>(
    threads: &mut Threads<N_CORES>,
    core: CoreId,
    mask: ThreadFlags,
) -> (r: Option<ThreadFlags>)
    requires
        old(threads).wf(),
        core@ < N_CORES,
        old(threads)@.current[core@] matches Some(t) && old(threads)@.may_set_state(
            core@,
            t@,
            ThreadState::FlagBlocked(WaitMode::All(mask)),
        ),
    ensures
        final(threads).wf(),
        r == taken_all(old(threads)@.tcbs[old(threads)@.current[core@].unwrap()@].flags, mask),
        final(threads)@ == old(threads)@.flag_wait(core@, r, WaitMode::All(mask)),
{
    threads.flag_wait_all(core, mask)
}

/// One attempt of the thread that is current on `core` to wait until any
/// flag in `mask` is set for it.
///
/// Returns all flags of the mask that are set, and clears them, if there is
/// any. Otherwise the thread blocks and `None` is returned; once it runs
/// again, it tries again.
pub fn wait_any<const N_CORES: usize>(
    threads: &mut Threads<N_CORES>,
    core: CoreId,
    mask: ThreadFlags,
) -> (r: Option<ThreadFlags>)
    requires
        old(threads).wf(),
        core@ < N_CORES,
        old(threads)@.current[core@] matches Some(t) && old(threads)@.may_set_state(
            core@,
            t@,
            ThreadState::FlagBlocked(WaitMode::Any(mask)),
        ),
    ensures
        final(threads).wf(),
        r == taken_any(old(threads)@.tcbs[old(threads)@.current[core@].unwrap()@].flags, mask),
        final(threads)@ == old(threads)@.flag_wait(core@, r, WaitMode::Any(mask)),
{
    threads.flag_wait_any(core, mask)
}

/// One attempt of the thread that is current on `core` to wait until any
/// flag in `mask` is set for it.
///
/// Compared to [`wait_any`], this returns and clears only one flag of the
/// mask: the lowest that is set.
pub fn wait_one<const N_CORES: usize>(
    threads: &mut Threads<N_CORES>,
    core: CoreId,
    mask: ThreadFlags,
) -> (r: Option<ThreadFlags>)
    requires
        old(threads).wf(),
        core@ < N_CORES,
        old(threads)@.current[core@] matches Some(t) && old(threads)@.may_set_state(
            core@,
            t@,
            ThreadState::FlagBlocked(WaitMode::Any(mask)),
        ),
    ensures
        final(threads).wf(),
        r == taken_one(old(threads)@.tcbs[old(threads)@.current[core@].unwrap()@].flags, mask),
        final(threads)@ == old(threads)@.flag_wait(core@, r, WaitMode::Any(mask)),
{
    threads.flag_wait_one(core, mask)
}

/// Clears flags for the thread that is current on `core`, and returns those
/// of them that were set.
pub fn clear<const N_CORES: usize>(
    threads: &mut Threads<N_CORES>,
    core: CoreId,
    mask: ThreadFlags,
) -> (r: ThreadFlags)
    requires
        old(threads).wf(),
        core@ < N_CORES,
        old(threads)@.current[core@] is Some,
    ensures
        final(threads).wf(),
        r == old(threads)@.tcbs[old(threads)@.current[core@].unwrap()@].flags & mask,
        final(threads)@ == old(threads)@.flag_clear(core@, mask),
{
    let ghost pre = threads@;
    let thread_id = match threads.inner.current_threads.current_pid(core) {
        Some(pid) => pid,
        None => {
            return 0;
        },
    };
    let thread = threads.inner.tcbs.get_unchecked_mut(thread_id);
    let res: u16 = thread.flags & mask;
    thread.flags &= !mask;
    proof {
        pre.lemma_flags_wf(thread_id@, pre.tcbs[thread_id@].flags & !mask);
        assert(threads@.tcbs =~= pre.flag_clear(core@, mask).tcbs);
    }
    res
}

/// The flags that are set for the thread that is current on `core`.
pub fn get<const N_CORES: usize>(threads: &Threads<N_CORES>, core: CoreId) -> (r: ThreadFlags)
    requires
        threads.wf(),
        core@ < N_CORES,
        threads@.current[core@] is Some,
    ensures
        r == threads@.tcbs[threads@.current[core@].unwrap()@].flags,
{
    let thread_id = match threads.inner.current_threads.current_pid(core) {
        Some(pid) => pid,
        None => {
            return 0;
        },
    };
    threads.inner.tcbs.get_unchecked(thread_id).flags
}

} // verus!
