//! The scheduler state: the thread table, the run queue, the thread that is
//! current on each core, and the reschedule requests that are pending.
//!
//! With one core (`N_CORES == 1`) the current thread stays in the run queue,
//! at the head of the queue of its priority. With several cores the run queue
//! is shared: a thread is taken out of it when a core picks it, and is put
//! back at the tail of its queue when that core schedules again and the
//! thread is still runnable.
use vstd::prelude::*;
use crate::arch::setup_stack;
use crate::clist::lists_contain;
use crate::ids::{CoreId, RunqueueId, ThreadId};
use crate::model::{
    core_key, first_allowed, first_core_of, first_free, lemma_first_allowed,
    lemma_first_allowed_is, lemma_first_core_of, lemma_first_free, lemma_lowest_core,
    lemma_lowest_core_keys, lowest_core, may_run_on, SchedResult, SchedState, SCHED_PRIO_LEVELS,
    THREADS_NUMOF,
};
use crate::runqueue::{
    found_at, lemma_top_is_head, nonempty_at, rejects, rotated_by, top_queue, GlobalRunqueue,
};
use crate::thread::{CoreAffinity, Thread, ThreadState};

verus! {

/// The run queue of the scheduler. It is shared by all cores.
pub type RunQueue = crate::runqueue::RunQueue<SCHED_PRIO_LEVELS, THREADS_NUMOF, 1>;

/// For each thread that waits in a list, the thread behind it.
pub type BlockList = [Option<ThreadId>; THREADS_NUMOF];

/// The thread table.
pub struct TCBs {
    pub tcbs: [Thread; THREADS_NUMOF],
}

impl TCBs {
    /// A table of free slots.
    pub fn new() -> (r: Self)
        ensures
            forall|t: int| 0 <= t < THREADS_NUMOF ==> #[trigger] r.tcbs[t] == Thread::free(),
    {
        TCBs { tcbs: [Thread::default();THREADS_NUMOF] }
    }

    /// Immutable access to the data of any thread. For a thread in the
    /// `Invalid` state the data is empty or outdated.
    pub fn get_unchecked(&self, thread_id: ThreadId) -> (r: &Thread)
        requires
            thread_id@ < THREADS_NUMOF,
        ensures
            *r == self.tcbs[thread_id@],
    {
        &self.tcbs[thread_id.0 as usize]
    }

    /// Mutable access to the data of any thread. For a thread in the
    /// `Invalid` state the data is empty or outdated.
    pub fn get_unchecked_mut(&mut self, thread_id: ThreadId) -> (r: &mut Thread)
        requires
            thread_id@ < THREADS_NUMOF,
        ensures
            *r == old(self).tcbs[thread_id@],
            final(self).tcbs@ == old(self).tcbs@.update(thread_id@, *final(r)),
    {
        &mut self.tcbs[thread_id.0 as usize]
    }

    /// The priority of a thread.
    pub fn get_priority(&self, thread_id: ThreadId) -> (r: RunqueueId)
        requires
            thread_id@ < THREADS_NUMOF,
        ensures
            r == self.tcbs[thread_id@].prio,
    {
        self.get_unchecked(thread_id).prio
    }
}

/// The thread that is current on each core.
pub struct CurrentThreads<const N_CORES: usize> {
    pub current_threads: [Option<ThreadId>; N_CORES],
}

impl<const N_CORES: usize> CurrentThreads<N_CORES> {
    /// No thread is current on any core.
    pub fn new() -> (r: Self)
        ensures
            forall|c: int| 0 <= c < N_CORES ==> (#[trigger] r.current_threads[c]).is_none(),
    {
        CurrentThreads { current_threads: [None;N_CORES] }
    }

    /// The thread that is current on `core`, or `None` if no thread is.
    pub fn current_pid(&self, core: CoreId) -> (r: Option<ThreadId>)
        requires
            core@ < N_CORES,
        ensures
            r == self.current_threads[core@],
    {
        self.current_threads[core.0 as usize]
    }

    /// Makes `pid` the thread that is current on `core`.
    pub fn set_current_pid(&mut self, core: CoreId, pid: ThreadId)
        requires
            core@ < N_CORES,
        ensures
            final(self).current_threads@ == old(self).current_threads@.update(core@, Some(pid)),
    {
        self.current_threads[core.0 as usize] = Some(pid);
    }

    /// The first core on which `thread_id` is current, if there is one.
    pub fn is_running(&self, thread_id: ThreadId) -> (r: Option<usize>)
        ensures
            match r {
                Some(k) => first_core_of(self.current_threads@, thread_id, 0) == Some(k as int),
                None => first_core_of(self.current_threads@, thread_id, 0).is_none(),
            },
    {
        let mut c: usize = 0;
        while c < N_CORES
            invariant
                0 <= c <= N_CORES,
                first_core_of(self.current_threads@, thread_id, 0) == first_core_of(
                    self.current_threads@,
                    thread_id,
                    c as int,
                ),
            decreases N_CORES - c,
        {
            let found = match self.current_threads[c] {
                Some(pid) => pid.0 == thread_id.0,
                None => false,
            };
            if found {
                return Some(c);
            }
            c += 1;
        }
        None
    }
}

/// The parts of the scheduler state.
pub struct ThreadsInner<const N_CORES: usize> {
    /// The thread table.
    pub tcbs: TCBs,
    /// The currently running thread(s).
    pub current_threads: CurrentThreads<N_CORES>,
    /// The run queue.
    pub runqueue: RunQueue,
    /// For each thread that waits in a list for a resource, the thread
    /// behind it in that list.
    pub thread_blocklist: BlockList,
}

impl<const N_CORES: usize> ThreadsInner<N_CORES> {
    /// No thread exists, none is runnable, none is current.
    pub fn new() -> (r: Self)
        requires
            1 <= N_CORES <= 8,
        ensures
            r.runqueue.wf(),
            r.runqueue.queues() == Seq::new(SCHED_PRIO_LEVELS as nat, |q: int| Seq::<u8>::empty()),
            forall|t: int| 0 <= t < THREADS_NUMOF ==> #[trigger] r.tcbs.tcbs[t] == Thread::free(),
            forall|c: int|
                0 <= c < N_CORES ==> (#[trigger] r.current_threads.current_threads[c]).is_none(),
            forall|t: int| 0 <= t < THREADS_NUMOF ==> (#[trigger] r.thread_blocklist[t]).is_none(),
    {
        Self {
            runqueue: RunQueue::new(),
            tcbs: TCBs::new(),
            thread_blocklist: [None;THREADS_NUMOF],
            current_threads: CurrentThreads::new(),
        }
    }
}

/// All scheduler state.
pub struct Threads<const N_CORES: usize> {
    pub inner: ThreadsInner<N_CORES>,
    /// For each core, whether a reschedule has been requested on it and not
    /// yet been taken. Requests coalesce: a second request changes nothing.
    pub resched: [bool; N_CORES],
}

impl<const N_CORES: usize> View for Threads<N_CORES> {
    type V = SchedState;

    open spec fn view(&self) -> SchedState {
        SchedState {
            tcbs: self.inner.tcbs.tcbs@,
            queues: self.inner.runqueue.queues(),
            current: self.inner.current_threads.current_threads@,
            blocklist: self.inner.thread_blocklist@,
            pending: self.resched@,
        }
    }
}

impl<const N_CORES: usize> Threads<N_CORES> {
    /// The invariant: the run queue is intact, and the state as a whole
    /// satisfies the invariant of the scheduler state.
    pub open spec fn wf(&self) -> bool {
        &&& self.inner.runqueue.wf()
        &&& self@.wf()
    }

    /// The scheduler state before any thread has been created.
    pub fn new() -> (r: Self)
        requires
            1 <= N_CORES <= 8,
        ensures
            r.wf(),
            r@ == SchedState::initial(N_CORES as int),
    {
        let r = Self { inner: ThreadsInner::new(), resched: [false;N_CORES] };
        proof {
            let init = SchedState::initial(N_CORES as int);
            assert(r@.tcbs =~= init.tcbs);
            assert(r@.queues =~= init.queues);
            assert(r@.current =~= init.current);
            assert(r@.blocklist =~= init.blocklist);
            assert(r@.pending =~= init.pending);
            assert forall|t: int| 0 <= t < THREADS_NUMOF implies exists|c: int|
                0 <= c < r@.current.len() && (#[trigger] r@.tcbs[t]).core_affinity.allows(c) by {
                let s: u8 = 0;
                assert((0xFFu8 >> s) & 1 == 1) by (bit_vector)
                    requires
                        s == 0,
                ;
                assert(r@.tcbs[t].core_affinity.allows(0));
            }
        }
        r
    }

    /// The thread that is current on `core`, or `None` if no thread is.
    pub fn current_pid(&self, core: CoreId) -> (r: Option<ThreadId>)
        requires
            core@ < N_CORES,
        ensures
            r == self@.current[core@],
    {
        self.inner.current_threads.current_pid(core)
    }

    /// Checks if a thread ID is in bound.
    pub fn is_in_bound(&self, thread_id: ThreadId) -> (r: bool)
        ensures
            r == (thread_id@ < THREADS_NUMOF),
    {
        (thread_id.0 as usize) < THREADS_NUMOF
    }

    /// Checks if a thread with valid state exists for this `thread_id`.
    pub fn is_valid_pid(&self, thread_id: ThreadId) -> (r: bool)
        ensures
            r == (thread_id@ < THREADS_NUMOF && self@.tcbs[thread_id@].state
                != ThreadState::Invalid),
    {
        if !self.is_in_bound(thread_id) {
            return false;
        }
        !matches!(self.inner.tcbs.get_unchecked(thread_id).state, ThreadState::Invalid)
    }

    /// The state of a thread; `None` if `thread_id` is out of bound.
    pub fn get_state(&self, thread_id: ThreadId) -> (r: Option<ThreadState>)
        ensures
            r == if thread_id@ < THREADS_NUMOF {
                Some(self@.tcbs[thread_id@].state)
            } else {
                None
            },
    {
        if thread_id.0 as usize >= THREADS_NUMOF {
            return None;
        }
        Some(self.inner.tcbs.get_unchecked(thread_id).state)
    }

    /// The priority of a thread.
    pub fn get_priority(&self, thread_id: ThreadId) -> (r: RunqueueId)
        requires
            thread_id@ < THREADS_NUMOF,
        ensures
            r == self@.tcbs[thread_id@].prio,
    {
        self.inner.tcbs.get_priority(thread_id)
    }

    /// The first core on which `thread_id` is current, if there is one.
    pub fn is_running(&self, thread_id: ThreadId) -> (r: Option<usize>)
        ensures
            match r {
                Some(k) => first_core_of(self@.current, thread_id, 0) == Some(k as int),
                None => first_core_of(self@.current, thread_id, 0).is_none(),
            },
            r matches Some(k) ==> k < N_CORES && self@.current[k as int] == Some(thread_id),
            r.is_none() ==> !self@.is_current(thread_id),
    {
        proof {
            lemma_first_core_of(self@.current, thread_id, 0);
        }
        self.inner.current_threads.is_running(thread_id)
    }

    /// Whether the thread that is current on `core` stands where the
    /// scheduler puts the thread that it dispatches: it is in the `Running`
    /// state and, with one core, the head of the queue of its priority, or,
    /// with several, not in the run queue. A thread can block only while this
    /// holds of it.
    pub fn is_dispatched(&self, core: CoreId) -> (r: bool)
        requires
            self.wf(),
            core@ < N_CORES,
        ensures
            r == self@.dispatched(core@),
    {
        let pid = match self.current_pid(core) {
            Some(pid) => pid,
            None => {
                return false;
            },
        };
        let thread = self.inner.tcbs.get_unchecked(pid);
        if !matches!(thread.state, ThreadState::Running) {
            return false;
        }
        if N_CORES == 1 {
            match self.inner.runqueue.head(thread.prio) {
                Some(head) => head.0 == pid.0,
                None => false,
            }
        } else {
            !self.inner.runqueue.is_queued(pid)
        }
    }

    /// Whether the priority of thread `thread_id` can be set: with several
    /// cores a thread that is current on a core must not be in the run queue
    /// as well, as it is for a moment when it has been woken and its core
    /// has not scheduled yet.
    pub fn can_set_priority(&self, thread_id: ThreadId) -> (r: bool)
        requires
            self.wf(),
        ensures
            r == (N_CORES > 1 && thread_id@ < THREADS_NUMOF && self@.is_current(thread_id)
                ==> !self@.is_queued(thread_id)),
    {
        if N_CORES == 1 || !self.is_in_bound(thread_id) {
            return true;
        }
        if self.is_running(thread_id).is_none() {
            return true;
        }
        !self.inner.runqueue.is_queued(thread_id)
    }

    /// Requests a reschedule on `core`.
    pub fn schedule_on_core(&mut self, core: CoreId)
        requires
            core@ < N_CORES,
        ensures
            final(self).inner == old(self).inner,
            final(self)@ == old(self)@.request(Some(core@)),
    {
        self.resched[core.0 as usize] = true;
    }

    /// Takes the reschedule request that is pending on `core`, if there is
    /// one: returns whether there was, and leaves none pending.
    pub fn take_reschedule(&mut self, core: CoreId) -> (r: bool)
        requires
            core@ < N_CORES,
        ensures
            r == old(self)@.pending[core@],
            final(self).inner == old(self).inner,
            final(self)@ == (SchedState {
                pending: old(self)@.pending.update(core@, false),
                ..old(self)@
            }),
    {
        let r = self.resched[core.0 as usize];
        self.resched[core.0 as usize] = false;
        r
    }

    /// Searches for the lowest priority thread among the currently running
    /// threads, on the cores that match the affinity of thread `pid`.
    ///
    /// Returns the core that the lowest priority thread is running on, and
    /// its priority; `None` for the priority if an idle core was found.
    fn lowest_running_prio(&self, pid: ThreadId) -> (r: (CoreId, Option<RunqueueId>))
        requires
            self@.wf_table(),
            pid@ < THREADS_NUMOF,
        ensures
            lowest_core(
                self@.current,
                self@.tcbs,
                self@.tcbs[pid@].core_affinity,
                N_CORES as int,
            ) == Some(r.0@),
            r.0@ < N_CORES,
            match r.1 {
                Some(p) => p@ == core_key(self@.current[r.0@], self@.tcbs),
                None => core_key(self@.current[r.0@], self@.tcbs) == -1,
            },
    {
        let ghost current = self@.current;
        let ghost tcbs = self@.tcbs;
        let affinity = self.inner.tcbs.get_unchecked(pid).core_affinity;
        let mut best: Option<(CoreId, Option<RunqueueId>)> = None;
        let mut c: usize = 0;
        while c < N_CORES
            invariant
                self@.wf_table(),
                0 <= c <= N_CORES,
                current == self@.current,
                tcbs == self@.tcbs,
                match best {
                    Some((core, prio)) => {
                        &&& lowest_core(current, tcbs, affinity, c as int) == Some(core@)
                        &&& core@ < c
                        &&& match prio {
                            Some(p) => p@ == core_key(current[core@], tcbs),
                            None => core_key(current[core@], tcbs) == -1,
                        }
                    },
                    None => lowest_core(current, tcbs, affinity, c as int).is_none(),
                },
            decreases N_CORES - c,
        {
            let core = CoreId(c as u8);
            // Skip cores that don't match the core affinity.
            if affinity.contains(core) {
                proof {
                    assert(self@.current[c as int] matches Some(t) ==> t@ < THREADS_NUMOF);
                }
                let prio: Option<RunqueueId> = match self.inner.current_threads.current_threads[c] {
                    Some(t) => Some(self.inner.tcbs.get_priority(t)),
                    None => None,
                };
                let lower = match best {
                    None => true,
                    Some((_, best_prio)) => match (prio, best_prio) {
                        (None, Some(_)) => true,
                        (Some(p), Some(b)) => p.0 < b.0,
                        _ => false,
                    },
                };
                if lower {
                    best = Some((core, prio));
                }
            }
            c += 1;
        }
        proof {
            lemma_lowest_core(current, tcbs, affinity, N_CORES as int);
            let witness = choose|k: int|
                0 <= k < self@.current.len() && (#[trigger] self@.tcbs[pid@]).core_affinity.allows(k);
        }
        match best {
            Some(found) => found,
            None => (CoreId(0), None),
        }
    }

    /// Requests a reschedule if the thread `thread_id`, of priority `prio`,
    /// has a higher priority than (one of) the running thread(s).
    pub fn schedule_if_higher_prio(&mut self, core: CoreId, thread_id: ThreadId, prio: RunqueueId)
        requires
            old(self)@.wf_table(),
            core@ < N_CORES,
            thread_id@ < THREADS_NUMOF,
        ensures
            final(self).inner == old(self).inner,
            final(self)@ == old(self)@.request(
                old(self)@.preempted_core(core@, thread_id@, prio@),
            ),
    {
        if N_CORES == 1 {
            proof {
                assert(self@.current[core@] matches Some(t) ==> t@ < THREADS_NUMOF);
            }
            match self.current_pid(core) {
                Some(pid) => {
                    if self.get_priority(pid).0 < prio.0 {
                        self.schedule_on_core(core);
                    }
                },
                None => {},
            }
        } else {
            match self.lowest_running_prio(thread_id) {
                (target, Some(lowest_prio)) => {
                    if lowest_prio.0 < prio.0 {
                        self.schedule_on_core(target);
                    }
                },
                _ => {},
            }
        }
    }

    /// The core that gives way to a thread is the same in two states that
    /// agree on the current threads, on the affinity of the thread and on
    /// the priorities of the current threads.
    proof fn lemma_preempted_same(a: SchedState, b: SchedState, core: int, pid: int, prio: int)
        requires
            a.wf_table(),
            a.current == b.current,
            0 <= core < a.n_cores(),
            0 <= pid < THREADS_NUMOF,
            a.tcbs[pid].core_affinity == b.tcbs[pid].core_affinity,
            forall|c: int|
                0 <= c < a.current.len() ==> core_key(#[trigger] a.current[c], a.tcbs) == core_key(
                    a.current[c],
                    b.tcbs,
                ),
        ensures
            a.preempted_core(core, pid, prio) == b.preempted_core(core, pid, prio),
    {
        let aff = a.tcbs[pid].core_affinity;
        lemma_lowest_core_keys(a.current, a.tcbs, b.tcbs, aff, a.n_cores());
        lemma_lowest_core(a.current, a.tcbs, aff, a.n_cores());
        assert(core_key(a.current[core], a.tcbs) == core_key(a.current[core], b.tcbs));
        if let Some(c) = lowest_core(a.current, a.tcbs, aff, a.n_cores()) {
            assert(core_key(a.current[c], a.tcbs) == core_key(a.current[c], b.tcbs));
        }
    }

    /// Sets the state of a thread and requests a reschedule if needed.
    ///
    /// A thread that enters `Running` is added to the run queue, and a
    /// reschedule is requested on the core whose thread gives way to it. A
    /// thread leaves `Running` only on its own initiative, as the thread
    /// that is current on `core` and was dispatched there: with one core it
    /// is taken from the head of its queue, and in either case a reschedule
    /// is requested on `core`.
    ///
    /// Returns the previous state.
    pub fn set_state(&mut self, core: CoreId, pid: ThreadId, state: ThreadState) -> (old_state:
        ThreadState)
        requires
            old(self).wf(),
            old(self)@.may_set_state(core@, pid@, state),
        ensures
            final(self).wf(),
            old_state == old(self)@.tcbs[pid@].state,
            final(self)@ == old(self)@.set_state(core@, pid@, state),
    {
        let ghost pre = self@;
        proof {
            pre.lemma_set_state_wf(core@, pid@, state);
            if lists_contain(pre.queues, pid.0) {
                let q = choose|q: int|
                    0 <= q < pre.queues.len() && #[trigger] pre.queues[q].contains(pid.0);
                assert(pre.tcbs[pid@].prio@ == q);
            }
        }
        let thread = self.inner.tcbs.get_unchecked_mut(pid);
        let old_state = thread.state;
        thread.state = state;
        let prio = thread.prio;
        if matches!(state, ThreadState::Running) {
            self.inner.runqueue.add(pid, prio);
            proof {
                SchedState::lemma_wf_table_kept(pre, self@);
                assert forall|c: int| 0 <= c < pre.current.len() implies core_key(
                    #[trigger] pre.current[c],
                    pre.tcbs,
                ) == core_key(pre.current[c], self@.tcbs) by {
                    if let Some(t) = pre.current[c] {
                        assert(t@ < THREADS_NUMOF);
                    }
                }
                Self::lemma_preempted_same(pre, self@, core@, pid@, prio@);
            }
            self.schedule_if_higher_prio(core, pid, prio);
        } else if matches!(old_state, ThreadState::Running) {
            // A running thread is only set to a non-running state if it
            // itself initiated it.
            if N_CORES == 1 {
                // With several cores the currently running thread is not in
                // the run queue anyway.
                self.inner.runqueue.pop_head(pid, prio);
            }
            self.schedule_on_core(core);
        }
        proof {
            assert(self@.tcbs =~= pre.set_state(core@, pid@, state).tcbs);
            assert(self@ == pre.set_state(core@, pid@, state));
        }
        old_state
    }

    /// Creates a new thread: sets up its saved context and its entry in the
    /// thread table, in the first free slot.
    ///
    /// The stack of the thread is the `stack_len` bytes at `stack_start`; the
    /// thread will start `func` with the argument `arg` and return into
    /// `cleanup`. The slot stays free until the thread is set `Running`.
    ///
    /// Returns `None`, and changes nothing, if there is no free slot.
    pub fn create(
        &mut self,
        func: usize,
        arg: usize,
        stack_start: usize,
        stack_len: usize,
        cleanup: usize,
        prio: RunqueueId,
        core_affinity: Option<CoreAffinity>,
    ) -> (r: Option<ThreadId>)
        requires
            old(self).wf(),
            old(self)@.may_create(prio, core_affinity),
            stack_start + stack_len <= usize::MAX,
            stack_start + stack_len >= crate::arch::CONTEXT_SIZE,
        ensures
            final(self).wf(),
            r == match first_free(old(self)@.tcbs, 0) {
                Some(t) => Some(ThreadId(t as u8)),
                None => None,
            },
            r is Some <==> exists|t: int|
                0 <= t < THREADS_NUMOF && (#[trigger] old(self)@.tcbs[t]).state
                    == ThreadState::Invalid,
            final(self)@ == old(self)@.create(
                func,
                arg,
                stack_start,
                stack_len,
                cleanup,
                prio,
                core_affinity,
            ),
    {
        let ghost pre = self@;
        proof {
            pre.lemma_create_wf(func, arg, stack_start, stack_len, cleanup, prio, core_affinity);
            lemma_first_free(pre.tcbs, 0);
        }
        let mut i: usize = 0;
        while i < THREADS_NUMOF
            invariant
                0 <= i <= THREADS_NUMOF,
                self@ == pre,
                pre == old(self)@,
                self.wf(),
                pre.create(func, arg, stack_start, stack_len, cleanup, prio, core_affinity).wf(),
                first_free(pre.tcbs, 0) == first_free(pre.tcbs, i as int),
                forall|u: int| 0 <= u < i ==> (#[trigger] pre.tcbs[u]).state != ThreadState::Invalid,
                stack_start + stack_len <= usize::MAX,
                stack_start + stack_len >= crate::arch::CONTEXT_SIZE,
            decreases THREADS_NUMOF - i,
        {
            let thread_id = ThreadId::new(i as u8);
            if matches!(self.inner.tcbs.get_unchecked(thread_id).state, ThreadState::Invalid) {
                let thread = self.inner.tcbs.get_unchecked_mut(thread_id);
                setup_stack(thread, stack_start, stack_len, func, arg, cleanup);
                thread.pid = thread_id;
                thread.prio = prio;
                thread.core_affinity = match core_affinity {
                    Some(a) => a,
                    None => CoreAffinity::default(),
                };
                proof {
                    assert(self@.tcbs =~= pre.create(
                        func,
                        arg,
                        stack_start,
                        stack_len,
                        cleanup,
                        prio,
                        core_affinity,
                    ).tcbs);
                }
                return Some(thread_id);
            }
            i += 1;
        }
        None
    }

    /// Changes the priority of a thread and requests a reschedule if
    /// needed.
    ///
    /// Nothing happens if there is no such thread, or if it has that
    /// priority already. A thread that is in the run queue moves to the tail
    /// of the queue of its new priority.
    pub fn set_priority(&mut self, core: CoreId, thread_id: ThreadId, prio: RunqueueId)
        requires
            old(self).wf(),
            old(self)@.may_set_priority(core@, thread_id@, prio),
        ensures
            final(self).wf(),
            final(self)@ == old(self)@.set_priority(core@, thread_id@, prio),
    {
        let ghost pre = self@;
        let ghost post = pre.set_priority(core@, thread_id@, prio);
        proof {
            pre.lemma_set_priority_wf(core@, thread_id@, prio);
            lemma_first_core_of(pre.current, thread_id, 0);
        }
        if !self.is_in_bound(thread_id) {
            return ;
        }
        let thread = self.inner.tcbs.get_unchecked(thread_id);
        if matches!(thread.state, ThreadState::Invalid) {
            return ;
        }
        let old_prio = thread.prio;
        if old_prio.0 == prio.0 {
            return ;
        }
        let thread = self.inner.tcbs.get_unchecked_mut(thread_id);
        thread.prio = prio;
        if !matches!(thread.state, ThreadState::Running) {
            // No run queue changes or scheduler invocations needed.
            proof {
                assert(self@.tcbs =~= post.tcbs);
            }
            return ;
        }
        // Check if the thread is among the current threads and request a
        // reschedule if its priority decreased and another thread might have
        // a higher priority now. With several cores this is done before the
        // run queue changes below, because a currently running thread is not
        // in the run queue.
        if N_CORES > 1 {
            if let Some(k) = self.is_running(thread_id) {
                if prio.0 < old_prio.0 {
                    self.schedule_on_core(CoreId(k as u8));
                }
                proof {
                    assert(self@.tcbs =~= post.tcbs);
                }
                return ;
            }
        }
        proof {
            // The thread is in the queue of its old priority.
            let n = thread_id;
            assert(pre.is_queued(n)) by {
                if !pre.is_queued(n) {
                    let c = choose|c: int|
                        0 <= c < pre.current.len() && #[trigger] pre.current[c] == Some(n);
                }
            }
            let q0 = choose|q: int|
                0 <= q < pre.queues.len() && #[trigger] pre.queues[q].contains(n.0);
            assert(q0 == old_prio@);
            SchedState::lemma_deleted(pre.queues, n, old_prio);
        }
        // Update the run queue.
        self.inner.runqueue.del(thread_id, old_prio);
        self.inner.runqueue.add(thread_id, prio);
        proof {
            assert(self@.tcbs =~= post.tcbs);
        }
        if N_CORES == 1 {
            if self.is_running(thread_id).is_some() {
                self.inner.current_threads.set_current_pid(core, thread_id);
                proof {
                    assert(self@.current =~= pre.current);
                }
                if prio.0 < old_prio.0 {
                    self.schedule_on_core(core);
                }
                return ;
            }
        }
        // The thread isn't running. Only request a reschedule if it has a
        // higher priority than a running one.
        if prio.0 > old_prio.0 {
            self.schedule_if_higher_prio(core, thread_id, prio);
        }
    }

    /// Adds the thread that is current on `core` to the run queue if it is
    /// in the `Running` state.
    pub fn add_current_thread_to_rq(&mut self, core: CoreId)
        requires
            old(self).wf(),
            core@ < N_CORES,
        ensures
            final(self).wf(),
            final(self)@ == old(self)@.requeue_current(core@),
    {
        let ghost pre = self@;
        proof {
            pre.lemma_requeue_current_wf(core@);
        }
        let current_pid = match self.inner.current_threads.current_pid(core) {
            Some(pid) => pid,
            None => {
                return ;
            },
        };
        let thread = self.inner.tcbs.get_unchecked(current_pid);
        let prio = thread.prio;
        if matches!(thread.state, ThreadState::Running) {
            proof {
                if lists_contain(pre.queues, current_pid.0) {
                    let q = choose|q: int|
                        0 <= q < pre.queues.len() && #[trigger] pre.queues[q].contains(
                            current_pid.0,
                        );
                    assert(pre.tcbs[current_pid@].prio@ == q);
                }
            }
            self.inner.runqueue.add(current_pid, prio);
        }
    }

    /// Picks the next thread for `core` from the run queue.
    ///
    /// With one core the thread remains in the run queue, so subsequent
    /// calls return the same thread. With several cores the thread is
    /// removed, so that no other core picks it as well; it is the first
    /// thread in scheduling order that may run on `core`.
    pub fn get_next_pid(runqueue: &mut RunQueue, tcbs: &TCBs, core: CoreId) -> (r: Option<ThreadId>)
        requires
            old(runqueue).wf(),
            forall|q: int, m: u8|
                0 <= q < SCHED_PRIO_LEVELS && #[trigger] old(runqueue).queues()[q].contains(m)
                    ==> tcbs.tcbs[m as int].prio@ == q,
        ensures
            final(runqueue).wf(),
            match first_allowed(
                old(runqueue).queues(),
                may_run_on(tcbs.tcbs@, N_CORES as int, core@),
                SCHED_PRIO_LEVELS as int,
            ) {
                Some((q, i)) => {
                    &&& r == Some(ThreadId(old(runqueue).queues()[q][i]))
                    &&& final(runqueue).queues() == if N_CORES == 1 {
                        old(runqueue).queues()
                    } else {
                        old(runqueue).queues().update(
                            q,
                            rotated_by(old(runqueue).queues()[q], i).drop_first(),
                        )
                    }
                },
                None => r.is_none() && final(runqueue).queues() == old(runqueue).queues(),
            },
    {
        let ghost v0 = runqueue.queues();
        let ghost ok = may_run_on(tcbs.tcbs@, N_CORES as int, core@);
        if N_CORES == 1 {
            // With one core, only read the head of the run queue.
            proof {
                lemma_top_is_head(v0);
                crate::runqueue::lemma_highest(nonempty_at(v0), v0.len() as int);
                match top_queue(v0) {
                    Some(p) => {
                        assert(nonempty_at(v0)(p));
                        assert(ok(v0[p][0]));
                        assert forall|q2: int, j: int|
                            p < q2 < SCHED_PRIO_LEVELS && 0 <= q2 && 0 <= j < v0[q2].len() implies !ok(
                            #[trigger] v0[q2][j],
                        ) by {
                            assert(!nonempty_at(v0)(q2));
                        }
                        lemma_first_allowed_is(v0, ok, SCHED_PRIO_LEVELS as int, p, 0);
                    },
                    None => {
                        assert forall|q2: int, j: int|
                            -1 < q2 < SCHED_PRIO_LEVELS && 0 <= q2 && 0 <= j < v0[q2].len() implies !ok(
                            #[trigger] v0[q2][j],
                        ) by {
                            assert(!nonempty_at(v0)(q2));
                        }
                        lemma_first_allowed_is(v0, ok, SCHED_PRIO_LEVELS as int, -1, 0);
                    },
                }
            }
            return runqueue.get_next(core);
        }
        // With several cores, take the next thread whose affinity matches
        // out of the run queue.
        let allowed = |t: &ThreadId| -> (b: bool)
            requires
                t@ < THREADS_NUMOF,
            ensures
                b == tcbs.tcbs[t@].core_affinity.allows(core@),
            { tcbs.get_unchecked(*t).core_affinity.contains(core) };
        let next = match runqueue.get_next_filter(allowed) {
            Some(next) => next,
            None => {
                proof {
                    assert forall|q2: int, j: int|
                        -1 < q2 < SCHED_PRIO_LEVELS && 0 <= q2 && 0 <= j < v0[q2].len() implies !ok(
                        #[trigger] v0[q2][j],
                    ) by {
                        assert(rejects(allowed, v0[q2][j]));
                    }
                    lemma_first_allowed_is(v0, ok, SCHED_PRIO_LEVELS as int, -1, 0);
                }
                return None;
            },
        };
        proof {
            let v1 = runqueue.queues();
            let (q, k) = choose|q: int, k: int| found_at(allowed, v0, v1, next, q, k);
            assert(found_at(allowed, v0, v1, next, q, k));
            assert(v0[q].contains(next.0));
            assert forall|q2: int, j: int|
                q < q2 < SCHED_PRIO_LEVELS && 0 <= q2 && 0 <= j < v0[q2].len() implies !ok(
                #[trigger] v0[q2][j],
            ) by {
                assert(rejects(allowed, v0[q2][j]));
            }
            assert forall|j: int| 0 <= j < k implies !ok(#[trigger] v0[q][j]) by {
                assert(rejects(allowed, v0[q][j]));
            }
            assert(ok(v0[q][k]));
            lemma_first_allowed_is(v0, ok, SCHED_PRIO_LEVELS as int, q, k);
            crate::runqueue::lemma_rotate_step(v0[q], k);
            let l1 = v1[q];
            assert(l1[0] == next.0);
            assert(v1[q].contains(next.0));
            assert forall|i: int, j: int|
                0 <= i < l1.len() && 0 <= j < l1.len() && l1[i] == l1[j] implies i == j by {
                assert(v1[q][i] == v1[q][j]);
            }
            crate::clist::lemma_without_at(l1, 0);
            assert(l1.remove(0) =~= l1.drop_first());
            assert(v1.update(q, l1.drop_first()) =~= v0.update(
                q,
                rotated_by(v0[q], k).drop_first(),
            ));
        }
        // Delete the thread from the run queue.
        runqueue.del(next, tcbs.get_priority(next));
        Some(next)
    }

    /// Schedules the next thread on `core`: the decision that the context
    /// switch acts on. `sp` is the stack pointer of the core when it entered
    /// the scheduler.
    ///
    /// Where a thread is made or kept current, it is dispatched: with one
    /// core it is the head of its queue, with several it is not in the run
    /// queue.
    pub fn sched(&mut self, core: CoreId, sp: usize) -> (r: SchedResult)
        requires
            old(self).wf(),
            core@ < N_CORES,
        ensures
            final(self).wf(),
            (final(self)@, r) == old(self)@.sched(core@, sp),
            r != SchedResult::Idle ==> final(self)@.dispatched(core@),
    {
        let ghost pre = self@;
        proof {
            pre.lemma_sched_wf(core@, sp);
            pre.lemma_requeue_current_wf(core@);
        }
        if N_CORES > 1 {
            self.add_current_thread_to_rq(core);
        }
        let ghost s = self@;
        proof {
            lemma_first_allowed(
                s.queues,
                may_run_on(s.tcbs, N_CORES as int, core@),
                SCHED_PRIO_LEVELS as int,
            );
        }
        let next = match Self::get_next_pid(&mut self.inner.runqueue, &self.inner.tcbs, core) {
            Some(next) => next,
            None => {
                return SchedResult::Idle;
            },
        };
        let prev = self.inner.current_threads.current_pid(core);
        if let Some(current_pid) = prev {
            if current_pid.0 == next.0 {
                return SchedResult::Same;
            }
            let thread = self.inner.tcbs.get_unchecked_mut(current_pid);
            thread.sp = sp;
        }
        self.inner.current_threads.set_current_pid(core, next);
        let next_sp = self.inner.tcbs.get_unchecked(next).sp;
        proof {
            assert(self@.tcbs =~= pre.sched(core@, sp).0.tcbs);
        }
        SchedResult::Switch { prev: prev, next: next, sp: next_sp }
    }
}

} // verus!
