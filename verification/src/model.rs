//! The scheduler state as a mathematical value, and what each operation of
//! the scheduler makes of it.
//!
//! The executable scheduler in [`crate::threads`] is specified against this
//! model: each of its operations ensures that the state afterwards is the
//! value that the function of the same name yields here.
use vstd::prelude::*;
use crate::arch::initial_sp;
use crate::clist::{
    lemma_push_members, lemma_remove_members, lemma_rotate_members, lemma_without_at,
    lists_contain, lists_wf, rotate, without,
};
use crate::ids::{RunqueueId, ThreadId};
use crate::runqueue::{added, deleted, head_of, rotated_by};
use crate::thread::{CoreAffinity, Thread, ThreadData, ThreadFlags, ThreadState, WaitMode};

verus! {

/// The number of possible priority levels.
pub const SCHED_PRIO_LEVELS: usize = 12;

/// The maximum number of concurrent threads that can be created.
pub const THREADS_NUMOF: usize = 16;

/// The scheduler state.
pub struct SchedState {
    /// The thread table.
    pub tcbs: Seq<Thread>,
    /// The run queue: for each priority the runnable threads, head first.
    pub queues: Seq<Seq<u8>>,
    /// For each core the thread that is current on it.
    pub current: Seq<Option<ThreadId>>,
    /// For each thread that waits in a list, the thread behind it.
    pub blocklist: Seq<Option<ThreadId>>,
    /// For each core whether a reschedule is pending on it.
    pub pending: Seq<bool>,
}

/// The key by which the cores are compared when the one that runs the lowest
/// priority is sought: the priority of the thread that is current on the
/// core, or -1 for an idle core.
pub open spec fn core_key(current: Option<ThreadId>, tcbs: Seq<Thread>) -> int {
    match current {
        Some(t) => tcbs[t@].prio@,
        None => -1,
    }
}

/// Among the first `n` cores that `affinity` allows, the first of those
/// that run the lowest priority, an idle core counting as lower than any
/// priority.
pub open spec fn lowest_core(
    current: Seq<Option<ThreadId>>,
    tcbs: Seq<Thread>,
    affinity: CoreAffinity,
    n: int,
) -> Option<int>
    decreases n,
{
    if n <= 0 {
        None
    } else {
        let best = lowest_core(current, tcbs, affinity, n - 1);
        if !affinity.allows(n - 1) {
            best
        } else {
            match best {
                None => Some(n - 1),
                Some(c) => if core_key(current[n - 1], tcbs) < core_key(current[c], tcbs) {
                    Some(n - 1)
                } else {
                    Some(c)
                },
            }
        }
    }
}

/// `lowest_core` yields one of the first `n` cores that the affinity allows,
/// if there is any.
pub proof fn lemma_lowest_core(
    current: Seq<Option<ThreadId>>,
    tcbs: Seq<Thread>,
    affinity: CoreAffinity,
    n: int,
)
    ensures
        match lowest_core(current, tcbs, affinity, n) {
            Some(c) => 0 <= c < n && affinity.allows(c),
            None => forall|c: int| 0 <= c < n ==> !affinity.allows(c),
        },
    decreases n,
{
    if n > 0 {
        lemma_lowest_core(current, tcbs, affinity, n - 1);
    }
}

/// The core that runs the lowest priority depends on the thread table only
/// through the priorities of the current threads.
pub proof fn lemma_lowest_core_keys(
    cur: Seq<Option<ThreadId>>,
    ta: Seq<Thread>,
    tb: Seq<Thread>,
    aff: CoreAffinity,
    n: int,
)
    requires
        forall|c: int| 0 <= c < n ==> core_key(#[trigger] cur[c], ta) == core_key(cur[c], tb),
    ensures
        lowest_core(cur, ta, aff, n) == lowest_core(cur, tb, aff, n),
    decreases n,
{
    if n > 0 {
        lemma_lowest_core_keys(cur, ta, tb, aff, n - 1);
        lemma_lowest_core(cur, ta, aff, n - 1);
        assert(core_key(cur[n - 1], ta) == core_key(cur[n - 1], tb));
        if let Some(c) = lowest_core(cur, ta, aff, n - 1) {
            assert(core_key(cur[c], ta) == core_key(cur[c], tb));
        }
    }
}

/// The first core at or after `c` on which `thread_id` is current.
pub open spec fn first_core_of(current: Seq<Option<ThreadId>>, thread_id: ThreadId, c: int) -> Option<
    int,
>
    decreases current.len() - c,
{
    if c < 0 || c >= current.len() {
        None
    } else if current[c] == Some(thread_id) {
        Some(c)
    } else {
        first_core_of(current, thread_id, c + 1)
    }
}

/// `first_core_of` yields a core on which the thread is current, and nothing
/// only if there is no such core at or after `c`.
pub proof fn lemma_first_core_of(current: Seq<Option<ThreadId>>, thread_id: ThreadId, c: int)
    requires
        0 <= c,
    ensures
        match first_core_of(current, thread_id, c) {
            Some(k) => c <= k < current.len() && current[k] == Some(thread_id),
            None => forall|k: int| c <= k < current.len() ==> current[k] != Some(thread_id),
        },
    decreases current.len() - c,
{
    if c < current.len() && current[c] != Some(thread_id) {
        lemma_first_core_of(current, thread_id, c + 1);
    }
}

/// The pending reschedule requests `pending` with one more on core
/// `target`, if that is a core.
pub open spec fn with_request(pending: Seq<bool>, target: Option<int>) -> Seq<bool> {
    match target {
        Some(c) => pending.update(c, true),
        None => pending,
    }
}

/// The first slot at or after `t` that is free.
pub open spec fn first_free(tcbs: Seq<Thread>, t: int) -> Option<int>
    decreases tcbs.len() - t,
{
    if t < 0 || t >= tcbs.len() {
        None
    } else if tcbs[t].state == ThreadState::Invalid {
        Some(t)
    } else {
        first_free(tcbs, t + 1)
    }
}

/// `first_free` yields the first free slot, and nothing only if no slot at
/// or after `t` is free.
pub proof fn lemma_first_free(tcbs: Seq<Thread>, t: int)
    requires
        0 <= t,
    ensures
        match first_free(tcbs, t) {
            Some(k) => t <= k < tcbs.len() && tcbs[k].state == ThreadState::Invalid && forall|u: int|
                t <= u < k ==> (#[trigger] tcbs[u]).state != ThreadState::Invalid,
            None => forall|u: int|
                t <= u < tcbs.len() ==> (#[trigger] tcbs[u]).state != ThreadState::Invalid,
        },
    decreases tcbs.len() - t,
{
    if t < tcbs.len() && tcbs[t].state != ThreadState::Invalid {
        lemma_first_free(tcbs, t + 1);
    }
}

/// What the scheduler decides when it runs on a core.
#[derive(Copy, Clone, PartialEq, Eq, Debug, Structural)]
pub enum SchedResult {
    /// No thread is runnable on the core: it waits for an interrupt and asks
    /// again.
    Idle,
    /// The thread that is current stays current: no switch is needed.
    Same,
    /// The core switches to the thread `next`, whose saved stack pointer is
    /// `sp`. The stack pointer of the thread `prev`, if there is one, has
    /// been saved.
    Switch { prev: Option<ThreadId>, next: ThreadId, sp: usize },
}

/// The first position at or after `i` of a member of `l` that satisfies `ok`.
pub open spec fn first_in(l: Seq<u8>, ok: spec_fn(u8) -> bool, i: int) -> Option<int>
    decreases l.len() - i,
{
    if i < 0 || i >= l.len() {
        None
    } else if ok(l[i]) {
        Some(i)
    } else {
        first_in(l, ok, i + 1)
    }
}

/// The place, as queue and position, of the first thread in scheduling order
/// among the queues below `k` that satisfies `ok`.
pub open spec fn first_allowed(v: Seq<Seq<u8>>, ok: spec_fn(u8) -> bool, k: int) -> Option<
    (int, int),
>
    decreases k,
{
    if k <= 0 || k > v.len() {
        None
    } else {
        match first_in(v[k - 1], ok, 0) {
            Some(i) => Some((k - 1, i)),
            None => first_allowed(v, ok, k - 1),
        }
    }
}

/// `first_in` yields the first position whose member satisfies `ok`.
pub proof fn lemma_first_in(l: Seq<u8>, ok: spec_fn(u8) -> bool, i: int)
    requires
        0 <= i,
    ensures
        match first_in(l, ok, i) {
            Some(k) => i <= k < l.len() && ok(l[k]) && forall|j: int|
                i <= j < k ==> !ok(#[trigger] l[j]),
            None => forall|j: int| i <= j < l.len() ==> !ok(#[trigger] l[j]),
        },
    decreases l.len() - i,
{
    if i < l.len() && !ok(l[i]) {
        lemma_first_in(l, ok, i + 1);
    }
}

/// A place whose thread satisfies `ok`, while no thread before it in
/// scheduling order does, is the place that `first_allowed` yields; and if
/// no thread satisfies `ok`, `first_allowed` yields nothing.
pub proof fn lemma_first_allowed_is(v: Seq<Seq<u8>>, ok: spec_fn(u8) -> bool, k: int, q: int, i: int)
    requires
        0 <= k <= v.len(),
        q < k,
        forall|q2: int, j: int|
            q < q2 < k && 0 <= q2 && 0 <= j < v[q2].len() ==> !ok(#[trigger] v[q2][j]),
        q >= 0 ==> 0 <= i < v[q].len() && ok(v[q][i]) && forall|j: int|
            0 <= j < i ==> !ok(#[trigger] v[q][j]),
    ensures
        first_allowed(v, ok, k) == if q >= 0 {
            Some((q, i))
        } else {
            None
        },
    decreases k,
{
    if k > 0 {
        lemma_first_in(v[k - 1], ok, 0);
        if k - 1 == q {
            match first_in(v[q], ok, 0) {
                Some(x) => {
                    if x < i {
                        assert(!ok(v[q][x]));
                    }
                },
                None => {
                    assert(!ok(v[q][i]));
                },
            }
        } else {
            if let Some(x) = first_in(v[k - 1], ok, 0) {
                assert(!ok(v[k - 1][x]));
            }
            lemma_first_allowed_is(v, ok, k - 1, q, i);
        }
    }
}

/// `first_allowed` yields a place in the queues.
pub proof fn lemma_first_allowed(v: Seq<Seq<u8>>, ok: spec_fn(u8) -> bool, k: int)
    requires
        0 <= k <= v.len(),
    ensures
        first_allowed(v, ok, k) matches Some((q, i)) ==> 0 <= q < k && 0 <= i < v[q].len() && ok(
            v[q][i],
        ) && first_in(v[q], ok, 0) == Some(i),
    decreases k,
{
    if k > 0 {
        lemma_first_in(v[k - 1], ok, 0);
        if first_in(v[k - 1], ok, 0) is None {
            lemma_first_allowed(v, ok, k - 1);
        }
    }
}

/// Whether the thread `m` may be picked by core `core`: with one core any
/// thread may, with several a thread whose affinity allows the core.
pub open spec fn may_run_on(tcbs: Seq<Thread>, n_cores: int, core: int) -> spec_fn(u8) -> bool {
    |m: u8| n_cores == 1 || tcbs[m as int].core_affinity.allows(core)
}

impl SchedState {
    /// The state before any thread has been created, for `n_cores` cores:
    /// every slot is free, the run queue is empty, no thread is current and
    /// no reschedule is pending.
    pub open spec fn initial(n_cores: int) -> SchedState {
        SchedState {
            tcbs: Seq::new(THREADS_NUMOF as nat, |t: int| Thread::free()),
            queues: Seq::new(SCHED_PRIO_LEVELS as nat, |q: int| Seq::<u8>::empty()),
            current: Seq::new(n_cores as nat, |c: int| None::<ThreadId>),
            blocklist: Seq::new(THREADS_NUMOF as nat, |t: int| None::<ThreadId>),
            pending: Seq::new(n_cores as nat, |c: int| false),
        }
    }

    /// The number of cores.
    pub open spec fn n_cores(self) -> int {
        self.current.len() as int
    }

    /// Whether thread `t` is current on some core.
    pub open spec fn is_current(self, t: ThreadId) -> bool {
        exists|c: int| 0 <= c < self.current.len() && #[trigger] self.current[c] == Some(t)
    }

    /// Whether thread `t` is in the run queue.
    pub open spec fn is_queued(self, t: ThreadId) -> bool {
        lists_contain(self.queues, t.0)
    }

    /// The part of the invariant that the run queue has no share in: the
    /// priorities are valid, the current threads and the links of the wait
    /// lists are threads of the table, and every thread may run on some core.
    pub open spec fn wf_table(self) -> bool {
        &&& 1 <= self.n_cores() <= 8
        &&& self.tcbs.len() == THREADS_NUMOF
        &&& self.blocklist.len() == THREADS_NUMOF
        &&& self.pending.len() == self.current.len()
        &&& forall|t: int| 0 <= t < THREADS_NUMOF ==> (#[trigger] self.tcbs[t]).prio@ < SCHED_PRIO_LEVELS
        &&& forall|c: int|
            0 <= c < self.current.len() ==> (#[trigger] self.current[c] matches Some(t) ==> t@
                < THREADS_NUMOF)
        &&& forall|t: int|
            0 <= t < THREADS_NUMOF ==> (#[trigger] self.blocklist[t] matches Some(n) ==> n@
                < THREADS_NUMOF)
        &&& forall|t: int|
            0 <= t < THREADS_NUMOF ==> exists|c: int|
                0 <= c < self.current.len() && (#[trigger] self.tcbs[t]).core_affinity.allows(c)
    }

    /// The part of the invariant that ties the run queue to the thread
    /// table.
    ///
    /// - The threads in the run queue are in the `Running` state, each in the
    ///   queue of its priority.
    /// - With one core, every thread in the `Running` state is in the run
    ///   queue. With several, it is in the run queue or current on a core.
    pub open spec fn wf_queues(self) -> bool {
        &&& lists_wf(self.queues, SCHED_PRIO_LEVELS as int, THREADS_NUMOF as int)
        &&& forall|q: int, m: u8|
            0 <= q < SCHED_PRIO_LEVELS && #[trigger] self.queues[q].contains(m) ==> {
                &&& m < THREADS_NUMOF
                &&& self.tcbs[m as int].state == ThreadState::Running
                &&& self.tcbs[m as int].prio@ == q
            }
        &&& forall|t: int|
            0 <= t < THREADS_NUMOF && (#[trigger] self.tcbs[t]).state == ThreadState::Running ==> {
                ||| self.is_queued(ThreadId(t as u8))
                ||| self.n_cores() > 1 && self.is_current(ThreadId(t as u8))
            }
    }

    /// The invariant of the scheduler state. In particular, the thread in a
    /// free slot (state `Invalid`) is not in the run queue.
    pub open spec fn wf(self) -> bool {
        self.wf_table() && self.wf_queues()
    }

    /// Whether the thread that is current on `core` stands where the
    /// scheduler puts the thread it dispatches: with one core at the head of
    /// the queue of its priority, with several outside the run queue.
    pub open spec fn dispatched(self, core: int) -> bool {
        match self.current[core] {
            Some(t) => {
                &&& self.tcbs[t@].state == ThreadState::Running
                &&& if self.n_cores() == 1 {
                    head_of(self.queues[self.tcbs[t@].prio@]) == Some(t)
                } else {
                    !self.is_queued(t)
                }
            },
            None => false,
        }
    }

    /// The state with a reschedule requested on core `target`, if that is a
    /// core. Requests coalesce: a second request changes nothing.
    pub open spec fn request(self, target: Option<int>) -> SchedState {
        SchedState { pending: with_request(self.pending, target), ..self }
    }

    /// The core whose thread gives way when thread `pid` becomes runnable
    /// with priority `prio`, if any does.
    ///
    /// With one core that is the core itself, if its current thread has a
    /// lower priority. With several it is the first of the cores that run
    /// the lowest priority among those that `pid` may run on, if that
    /// priority is lower; an idle core is not asked.
    pub open spec fn preempted_core(self, core: int, pid: int, prio: int) -> Option<int> {
        if self.n_cores() == 1 {
            match self.current[core] {
                Some(t) => if self.tcbs[t@].prio@ < prio {
                    Some(core)
                } else {
                    None
                },
                None => None,
            }
        } else {
            match lowest_core(
                self.current,
                self.tcbs,
                self.tcbs[pid].core_affinity,
                self.n_cores(),
            ) {
                Some(c) => if 0 <= core_key(self.current[c], self.tcbs) < prio {
                    Some(c)
                } else {
                    None
                },
                None => None,
            }
        }
    }

    /// The state after a new thread has been set up in the first free slot.
    /// The slot stays free until the thread enters the `Running` state.
    /// Nothing changes if no slot is free.
    pub open spec fn create(
        self,
        func: usize,
        arg: usize,
        stack_start: usize,
        stack_len: usize,
        cleanup: usize,
        prio: RunqueueId,
        core_affinity: Option<CoreAffinity>,
    ) -> SchedState {
        match first_free(self.tcbs, 0) {
            Some(t) => SchedState {
                tcbs: self.tcbs.update(
                    t,
                    Thread {
                        sp: initial_sp(stack_start, stack_len),
                        data: ThreadData { pc: func, arg: arg, ra: cleanup },
                        pid: ThreadId(t as u8),
                        prio: prio,
                        core_affinity: match core_affinity {
                            Some(a) => a,
                            None => CoreAffinity(0xFF),
                        },
                        ..self.tcbs[t]
                    },
                ),
                ..self
            },
            None => self,
        }
    }

    /// The state after the state of thread `pid` has been set to `state` on
    /// behalf of the thread running on `core`.
    ///
    /// - A thread that enters `Running` is appended to the queue of its
    ///   priority, unless it is in the run queue already, and a reschedule is
    ///   requested on the core whose thread gives way to it.
    /// - When a thread leaves `Running`, a reschedule is requested on `core`;
    ///   with one core the thread is taken from the head of its queue.
    /// - Otherwise only the thread's state changes.
    pub open spec fn set_state(self, core: int, pid: int, state: ThreadState) -> SchedState {
        let old_state = self.tcbs[pid].state;
        let prio = self.tcbs[pid].prio;
        let s = SchedState {
            tcbs: self.tcbs.update(pid, Thread { state: state, ..self.tcbs[pid] }),
            ..self
        };
        if state == ThreadState::Running {
            SchedState {
                queues: added(self.queues, ThreadId(pid as u8), prio),
                pending: with_request(self.pending, self.preempted_core(core, pid, prio@)),
                ..s
            }
        } else if old_state == ThreadState::Running {
            SchedState {
                queues: if self.n_cores() == 1 {
                    self.queues.update(prio@, self.queues[prio@].drop_first())
                } else {
                    self.queues
                },
                pending: self.pending.update(core, true),
                ..s
            }
        } else {
            s
        }
    }

    /// What [`Self::set_state`] asks of the state: a thread leaves `Running`
    /// only on its own initiative, as the thread that is current on `core`
    /// and was dispatched there.
    pub open spec fn may_set_state(self, core: int, pid: int, state: ThreadState) -> bool {
        &&& 0 <= core < self.n_cores()
        &&& 0 <= pid < THREADS_NUMOF
        &&& self.tcbs[pid].state == ThreadState::Running && state != ThreadState::Running ==> {
            &&& self.current[core] == Some(ThreadId(pid as u8))
            &&& self.dispatched(core)
        }
    }

    /// The state after the priority of thread `tid` has been set to `prio`
    /// on behalf of the thread running on `core`.
    ///
    /// - Nothing changes if there is no such thread or if it has that
    ///   priority already.
    /// - Of a thread that is not in the `Running` state only the priority
    ///   changes.
    /// - With several cores, of a thread that is current on a core only the
    ///   priority changes, and a reschedule is requested on that core if the
    ///   priority went down.
    /// - Otherwise the thread moves to the tail of the queue of its new
    ///   priority. With one core, if it is the current thread, a reschedule is
    ///   requested if the priority went down. If it is not current and the
    ///   priority went up, a reschedule is requested on the core whose thread
    ///   gives way to it.
    pub open spec fn set_priority(self, core: int, tid: int, prio: RunqueueId) -> SchedState {
        if !(0 <= tid < THREADS_NUMOF) || self.tcbs[tid].state == ThreadState::Invalid
            || self.tcbs[tid].prio == prio {
            self
        } else {
            let old_prio = self.tcbs[tid].prio;
            let s = SchedState {
                tcbs: self.tcbs.update(tid, Thread { prio: prio, ..self.tcbs[tid] }),
                ..self
            };
            let running_on = first_core_of(self.current, ThreadId(tid as u8), 0);
            if self.tcbs[tid].state != ThreadState::Running {
                s
            } else if self.n_cores() > 1 && running_on is Some {
                if prio@ < old_prio@ {
                    s.request(running_on)
                } else {
                    s
                }
            } else {
                let moved = SchedState {
                    queues: added(
                        deleted(self.queues, ThreadId(tid as u8), old_prio),
                        ThreadId(tid as u8),
                        prio,
                    ),
                    ..s
                };
                if running_on is Some {
                    if prio@ < old_prio@ {
                        moved.request(Some(core))
                    } else {
                        moved
                    }
                } else if prio@ > old_prio@ {
                    moved.request(moved.preempted_core(core, tid, prio@))
                } else {
                    moved
                }
            }
        }
    }

    /// What [`Self::set_priority`] asks of the state: with several cores, a
    /// thread that is current on a core is not in the run queue as well.
    pub open spec fn may_set_priority(self, core: int, tid: int, prio: RunqueueId) -> bool {
        &&& 0 <= core < self.n_cores()
        &&& prio@ < SCHED_PRIO_LEVELS
        &&& self.n_cores() > 1 && 0 <= tid < THREADS_NUMOF && self.is_current(ThreadId(tid as u8))
            ==> !self.is_queued(ThreadId(tid as u8))
    }

    /// The state after the thread that is current on `core` has yielded to
    /// the threads of its priority.
    ///
    /// With one core the queue of that priority is rotated and a reschedule
    /// requested. With several the thread is not in the run queue: if another
    /// thread of its priority is, a reschedule is requested on `core`, and,
    /// if the thread may run on every core, also on the core whose thread
    /// gives way to it.
    pub open spec fn yield_same(self, core: int) -> SchedState {
        match self.current[core] {
            None => self,
            Some(t) => {
                let prio = self.tcbs[t@].prio;
                if self.n_cores() == 1 {
                    SchedState {
                        queues: self.queues.update(prio@, rotate(self.queues[prio@])),
                        pending: if self.queues[prio@].len() > 0 {
                            self.pending.update(core, true)
                        } else {
                            self.pending
                        },
                        ..self
                    }
                } else if self.queues[prio@].len() > 0 {
                    let s = self.request(Some(core));
                    if self.tcbs[t@].core_affinity == CoreAffinity(0xFF) {
                        s.request(self.preempted_core(core, t@, prio@))
                    } else {
                        s
                    }
                } else {
                    self
                }
            },
        }
    }

    /// The state after the thread that is current on `core` has parked
    /// itself.
    pub open spec fn park(self, core: int) -> SchedState {
        match self.current[core] {
            None => self,
            Some(t) => self.set_state(core, t@, ThreadState::Parked),
        }
    }

    /// Whether thread `tid` exists and is parked.
    pub open spec fn is_parked(self, tid: int) -> bool {
        0 <= tid < THREADS_NUMOF && self.tcbs[tid].state == ThreadState::Parked
    }

    /// The state after thread `tid` has been unparked on behalf of the
    /// thread running on `core`: a parked thread enters `Running`, and
    /// nothing changes for any other.
    pub open spec fn unpark(self, core: int, tid: int) -> SchedState {
        if self.is_parked(tid) {
            self.set_state(core, tid, ThreadState::Running)
        } else {
            self
        }
    }

    /// The state after the thread that is current on `core` has ended.
    pub open spec fn cleanup(self, core: int) -> SchedState {
        match self.current[core] {
            None => self,
            Some(t) => self.set_state(core, t@, ThreadState::Invalid),
        }
    }

    /// The core that gives way is one of the cores.
    pub proof fn lemma_preempted_range(self, core: int, pid: int, prio: int)
        requires
            0 <= core < self.n_cores(),
            self.pending.len() == self.current.len(),
        ensures
            self.preempted_core(core, pid, prio) matches Some(c) ==> 0 <= c < self.n_cores(),
            self.request(self.preempted_core(core, pid, prio)).pending.len() == self.pending.len(),
    {
        lemma_lowest_core(self.current, self.tcbs, self.tcbs[pid].core_affinity, self.n_cores());
    }

    /// Setting the state of a thread keeps the invariant.
    pub proof fn lemma_set_state_wf(self, core: int, pid: int, state: ThreadState)
        requires
            self.wf(),
            self.may_set_state(core, pid, state),
        ensures
            self.set_state(core, pid, state).wf(),
    {
        let post = self.set_state(core, pid, state);
        let prio = self.tcbs[pid].prio;
        let v0 = self.queues;
        let v = post.queues;
        self.lemma_preempted_range(core, pid, prio@);
        Self::lemma_wf_table_kept(self, post);
        if lists_contain(v0, pid as u8) {
            let q = choose|q: int| 0 <= q < v0.len() && #[trigger] v0[q].contains(pid as u8);
            assert(self.queues[q].contains(pid as u8));
        }
        if state == ThreadState::Running {
            Self::lemma_added(self.queues, ThreadId(pid as u8), prio);
            assert forall|t: int|
                0 <= t < THREADS_NUMOF && (#[trigger] post.tcbs[t]).state
                    == ThreadState::Running implies post.is_queued(ThreadId(t as u8)) || (
            post.n_cores() > 1 && post.is_current(ThreadId(t as u8))) by {
                if t == pid {
                    assert(v[prio@].contains(pid as u8));
                } else {
                    Self::lemma_running_kept(self, post, t);
                }
            }
        } else if self.tcbs[pid].state == ThreadState::Running {
            assert forall|q: int, m: u8| 0 <= q < SCHED_PRIO_LEVELS implies (#[trigger] v[q].contains(
                m,
            ) <==> (v0[q].contains(m) && m != pid as u8)) by {
                if self.n_cores() == 1 {
                    assert(v0[prio@].drop_first() =~= v0[prio@].remove(0));
                    lemma_remove_members(v0, THREADS_NUMOF as int, prio@, 0, q, m);
                } else {
                    if m == pid as u8 && v0[q].contains(m) {
                        assert(lists_contain(v0, pid as u8));
                    }
                }
            }
            if self.n_cores() == 1 {
                assert(v0[prio@].drop_first() =~= v0[prio@].remove(0));
                Self::lemma_removed_wf(v0, prio@, 0);
            }
            assert forall|q: int, m: u8|
                0 <= q < SCHED_PRIO_LEVELS && #[trigger] post.queues[q].contains(m) implies m
                < THREADS_NUMOF && post.tcbs[m as int].state == ThreadState::Running
                && post.tcbs[m as int].prio@ == q by {
                assert(self.queues[q].contains(m));
            }
            assert forall|t: int|
                0 <= t < THREADS_NUMOF && (#[trigger] post.tcbs[t]).state
                    == ThreadState::Running implies post.is_queued(ThreadId(t as u8)) || (
            post.n_cores() > 1 && post.is_current(ThreadId(t as u8))) by {
                assert(self.tcbs[t].state == ThreadState::Running);
                Self::lemma_running_kept(self, post, t);
            }
        } else {
            assert forall|q: int, m: u8|
                0 <= q < SCHED_PRIO_LEVELS && #[trigger] post.queues[q].contains(m) implies m
                < THREADS_NUMOF && post.tcbs[m as int].state == ThreadState::Running
                && post.tcbs[m as int].prio@ == q by {
                assert(self.queues[q].contains(m));
            }
            assert forall|t: int|
                0 <= t < THREADS_NUMOF && (#[trigger] post.tcbs[t]).state
                    == ThreadState::Running implies post.is_queued(ThreadId(t as u8)) || (
            post.n_cores() > 1 && post.is_current(ThreadId(t as u8))) by {
                assert(self.tcbs[t].state == ThreadState::Running);
                Self::lemma_running_kept(self, post, t);
            }
        }
    }

    /// The table part of the invariant is kept by a change that leaves the
    /// current threads, the links of the wait lists, and the priority and
    /// affinity of every thread as they are.
    pub proof fn lemma_wf_table_kept(pre: Self, post: Self)
        requires
            pre.wf_table(),
            post.current == pre.current,
            post.blocklist == pre.blocklist,
            post.pending.len() == pre.pending.len(),
            post.tcbs.len() == pre.tcbs.len(),
            forall|t: int|
                0 <= t < THREADS_NUMOF ==> (#[trigger] post.tcbs[t]).prio == pre.tcbs[t].prio
                    && post.tcbs[t].core_affinity == pre.tcbs[t].core_affinity,
        ensures
            post.wf_table(),
    {
        assert forall|t: int| 0 <= t < THREADS_NUMOF implies exists|c: int|
            0 <= c < post.current.len() && (#[trigger] post.tcbs[t]).core_affinity.allows(c) by {
            let c = choose|c: int|
                0 <= c < pre.current.len() && (#[trigger] pre.tcbs[t]).core_affinity.allows(c);
            assert(post.tcbs[t].core_affinity.allows(c));
        }
    }

    /// A thread that is in the `Running` state before a change is still in
    /// the run queue or current after it, if the change leaves the current
    /// threads as they are and does not take the thread out of its queue.
    pub proof fn lemma_running_kept(pre: Self, post: Self, t: int)
        requires
            pre.wf_queues(),
            0 <= t < THREADS_NUMOF,
            pre.tcbs[t].state == ThreadState::Running,
            post.current == pre.current,
            pre.queues.len() == post.queues.len(),
            forall|q: int|
                0 <= q < pre.queues.len() && #[trigger] pre.queues[q].contains(t as u8)
                    ==> post.queues[q].contains(t as u8),
        ensures
            post.is_queued(ThreadId(t as u8)) || (post.n_cores() > 1 && post.is_current(
                ThreadId(t as u8),
            )),
    {
        if pre.is_queued(ThreadId(t as u8)) {
            let q = choose|q: int| 0 <= q < pre.queues.len() && #[trigger] pre.queues[q].contains(
                t as u8,
            );
            assert(post.queues[q].contains(t as u8));
        } else {
            let c = choose|c: int|
                0 <= c < pre.current.len() && #[trigger] pre.current[c] == Some(ThreadId(t as u8));
            assert(post.current[c] == Some(ThreadId(t as u8)));
        }
    }

    /// The queues after a thread has been added: they are well-formed, they
    /// hold the thread in the queue of its priority, and apart from that
    /// their members are as before.
    pub proof fn lemma_added(v: Seq<Seq<u8>>, n: ThreadId, rq: RunqueueId)
        requires
            lists_wf(v, SCHED_PRIO_LEVELS as int, THREADS_NUMOF as int),
            n@ < THREADS_NUMOF,
            rq@ < SCHED_PRIO_LEVELS,
            lists_contain(v, n.0) ==> v[rq@].contains(n.0),
        ensures
            lists_wf(added(v, n, rq), SCHED_PRIO_LEVELS as int, THREADS_NUMOF as int),
            forall|q: int, m: u8|
                0 <= q < SCHED_PRIO_LEVELS ==> (#[trigger] added(v, n, rq)[q].contains(m) <==> (
                v[q].contains(m) || (q == rq@ && m == n.0))),
    {
        let v2 = added(v, n, rq);
        assert forall|q: int, m: u8| 0 <= q < SCHED_PRIO_LEVELS implies (#[trigger] v2[q].contains(
            m,
        ) <==> (v[q].contains(m) || (q == rq@ && m == n.0))) by {
            if !lists_contain(v, n.0) {
                lemma_push_members(v, rq@, n.0, q, m);
            }
        }
        if !lists_contain(v, n.0) {
            let l = v[rq@];
            assert forall|q: int, i: int| 0 <= q < v2.len() && 0 <= i < v2[q].len() implies (
            #[trigger] v2[q][i]) < THREADS_NUMOF by {
                if q == rq@ && i == l.len() {
                } else {
                    assert(v2[q][i] == v[q][i]);
                }
            }
            assert forall|q1: int, i1: int, q2: int, i2: int|
                0 <= q1 < v2.len() && 0 <= i1 < v2[q1].len() && 0 <= q2 < v2.len() && 0 <= i2
                    < v2[q2].len() && #[trigger] v2[q1][i1] == #[trigger] v2[q2][i2] implies q1
                == q2 && i1 == i2 by {
                let new1 = q1 == rq@ && i1 == l.len();
                let new2 = q2 == rq@ && i2 == l.len();
                if new1 && !new2 {
                    assert(v[q2][i2] == n.0);
                    assert(v[q2].contains(n.0));
                } else if new2 && !new1 {
                    assert(v[q1][i1] == n.0);
                    assert(v[q1].contains(n.0));
                } else if !new1 && !new2 {
                    assert(v[q1][i1] == v[q2][i2]);
                }
            }
        }
    }

    /// The queues after a member has been removed are well-formed.
    pub proof fn lemma_removed_wf(v: Seq<Seq<u8>>, p: int, k: int)
        requires
            lists_wf(v, SCHED_PRIO_LEVELS as int, THREADS_NUMOF as int),
            0 <= p < SCHED_PRIO_LEVELS,
            0 <= k < v[p].len(),
        ensures
            lists_wf(
                v.update(p, v[p].remove(k)),
                SCHED_PRIO_LEVELS as int,
                THREADS_NUMOF as int,
            ),
    {
        let l = v[p];
        let v2 = v.update(p, l.remove(k));
        let orig = |q: int, i: int|
            if q == p && i >= k {
                i + 1
            } else {
                i
            };
        assert forall|q: int, i: int| 0 <= q < v2.len() && 0 <= i < v2[q].len() implies (
        #[trigger] v2[q][i]) < THREADS_NUMOF by {
            assert(v2[q][i] == v[q][orig(q, i)]);
        }
        assert forall|q1: int, i1: int, q2: int, i2: int|
            0 <= q1 < v2.len() && 0 <= i1 < v2[q1].len() && 0 <= q2 < v2.len() && 0 <= i2
                < v2[q2].len() && #[trigger] v2[q1][i1] == #[trigger] v2[q2][i2] implies q1 == q2
            && i1 == i2 by {
            assert(v2[q1][i1] == v[q1][orig(q1, i1)]);
            assert(v2[q2][i2] == v[q2][orig(q2, i2)]);
        }
    }

    /// The queues after a thread has been deleted: they are well-formed, the
    /// thread is in none of them, and apart from that their members are as
    /// before.
    pub proof fn lemma_deleted(v: Seq<Seq<u8>>, n: ThreadId, rq: RunqueueId)
        requires
            lists_wf(v, SCHED_PRIO_LEVELS as int, THREADS_NUMOF as int),
            rq@ < SCHED_PRIO_LEVELS,
            lists_contain(v, n.0) ==> v[rq@].contains(n.0),
        ensures
            lists_wf(deleted(v, n, rq), SCHED_PRIO_LEVELS as int, THREADS_NUMOF as int),
            forall|q: int, m: u8|
                0 <= q < SCHED_PRIO_LEVELS ==> (#[trigger] deleted(v, n, rq)[q].contains(m) <==> (
                v[q].contains(m) && m != n.0)),
            !lists_contain(deleted(v, n, rq), n.0),
    {
        let l = v[rq@];
        let v2 = deleted(v, n, rq);
        if l.contains(n.0) {
            let k = l.index_of(n.0);
            assert forall|i: int, j: int| 0 <= i < l.len() && 0 <= j < l.len() && l[i]
                == l[j] implies i == j by {
                assert(v[rq@][i] == v[rq@][j]);
            }
            lemma_without_at(l, k);
            Self::lemma_removed_wf(v, rq@, k);
            assert forall|q: int, m: u8| 0 <= q < SCHED_PRIO_LEVELS implies (#[trigger] v2[q].contains(
                m,
            ) <==> (v[q].contains(m) && m != n.0)) by {
                lemma_remove_members(v, THREADS_NUMOF as int, rq@, k, q, m);
            }
        } else {
            assert(v2 =~= v);
            assert forall|q: int, m: u8| 0 <= q < SCHED_PRIO_LEVELS implies (#[trigger] v2[q].contains(
                m,
            ) <==> (v[q].contains(m) && m != n.0)) by {
                if v[q].contains(m) && m == n.0 {
                    assert(lists_contain(v, n.0));
                }
            }
        }
        if lists_contain(v2, n.0) {
            let q = choose|q: int| 0 <= q < v2.len() && #[trigger] v2[q].contains(n.0);
            assert(v2[q].contains(n.0) <==> (v[q].contains(n.0) && n.0 != n.0));
        }
    }

    /// Rotated queues are well-formed, with the members that they had.
    pub proof fn lemma_rotated(v: Seq<Seq<u8>>, p: int)
        requires
            lists_wf(v, SCHED_PRIO_LEVELS as int, THREADS_NUMOF as int),
            0 <= p < SCHED_PRIO_LEVELS,
        ensures
            lists_wf(v.update(p, rotate(v[p])), SCHED_PRIO_LEVELS as int, THREADS_NUMOF as int),
            forall|q: int, m: u8|
                0 <= q < SCHED_PRIO_LEVELS ==> (#[trigger] v.update(p, rotate(v[p]))[q].contains(m)
                    <==> v[q].contains(m)),
    {
        let l = v[p];
        let v2 = v.update(p, rotate(l));
        let orig = |q: int, i: int|
            if q == p {
                if i + 1 < l.len() {
                    i + 1
                } else {
                    0
                }
            } else {
                i
            };
        assert forall|q: int, m: u8| 0 <= q < SCHED_PRIO_LEVELS implies (#[trigger] v2[q].contains(
            m,
        ) <==> v[q].contains(m)) by {
            lemma_rotate_members(l, m);
        }
        assert forall|q: int, i: int| 0 <= q < v2.len() && 0 <= i < v2[q].len() implies (
        #[trigger] v2[q][i]) < THREADS_NUMOF by {
            assert(v2[q][i] == v[q][orig(q, i)]);
        }
        assert forall|q1: int, i1: int, q2: int, i2: int|
            0 <= q1 < v2.len() && 0 <= i1 < v2[q1].len() && 0 <= q2 < v2.len() && 0 <= i2
                < v2[q2].len() && #[trigger] v2[q1][i1] == #[trigger] v2[q2][i2] implies q1 == q2
            && i1 == i2 by {
            assert(v2[q1][i1] == v[q1][orig(q1, i1)]);
            assert(v2[q2][i2] == v[q2][orig(q2, i2)]);
        }
    }

    /// Yielding keeps the invariant.
    pub proof fn lemma_yield_same_wf(self, core: int)
        requires
            self.wf(),
            0 <= core < self.n_cores(),
        ensures
            self.yield_same(core).wf(),
    {
        let post = self.yield_same(core);
        if let Some(t) = self.current[core] {
            let prio = self.tcbs[t@].prio;
            assert(t@ < THREADS_NUMOF);
            self.lemma_preempted_range(core, t@, prio@);
            Self::lemma_wf_table_kept(self, post);
            if self.n_cores() == 1 {
                Self::lemma_rotated(self.queues, prio@);
                assert forall|q: int, m: u8|
                    0 <= q < SCHED_PRIO_LEVELS && #[trigger] post.queues[q].contains(m) implies m
                    < THREADS_NUMOF && post.tcbs[m as int].state == ThreadState::Running
                    && post.tcbs[m as int].prio@ == q by {
                    assert(self.queues[q].contains(m));
                }
                assert forall|t: int|
                    0 <= t < THREADS_NUMOF && (#[trigger] post.tcbs[t]).state
                        == ThreadState::Running implies post.is_queued(ThreadId(t as u8)) || (
                post.n_cores() > 1 && post.is_current(ThreadId(t as u8))) by {
                    Self::lemma_running_kept(self, post, t);
                }
            }
        }
    }

    /// Changing the priority of a thread keeps the invariant.
    pub proof fn lemma_set_priority_wf(self, core: int, tid: int, prio: RunqueueId)
        requires
            self.wf(),
            self.may_set_priority(core, tid, prio),
        ensures
            self.set_priority(core, tid, prio).wf(),
    {
        let post = self.set_priority(core, tid, prio);
        if !(0 <= tid < THREADS_NUMOF) || self.tcbs[tid].state == ThreadState::Invalid
            || self.tcbs[tid].prio == prio {
        } else {
            let n = ThreadId(tid as u8);
            let old_prio = self.tcbs[tid].prio;
            let running_on = first_core_of(self.current, n, 0);
            lemma_first_core_of(self.current, n, 0);
            let s = SchedState {
                tcbs: self.tcbs.update(tid, Thread { prio: prio, ..self.tcbs[tid] }),
                ..self
            };
            // The table part.
            assert(post.wf_table()) by {
                assert forall|t: int| 0 <= t < THREADS_NUMOF implies exists|c: int|
                    0 <= c < post.current.len() && (#[trigger] post.tcbs[t]).core_affinity.allows(
                        c,
                    ) by {
                    let c = choose|c: int|
                        0 <= c < self.current.len() && (#[trigger] self.tcbs[t]).core_affinity.allows(
                            c,
                        );
                    assert(post.tcbs[t].core_affinity.allows(c));
                }
                assert forall|t: int| 0 <= t < THREADS_NUMOF implies (#[trigger] post.tcbs[t]).prio@
                    < SCHED_PRIO_LEVELS by {
                    if t != tid {
                        assert(post.tcbs[t].prio == self.tcbs[t].prio);
                    }
                }
                let moved = SchedState {
                    queues: added(deleted(self.queues, n, old_prio), n, prio),
                    ..s
                };
                moved.lemma_preempted_range(core, tid, prio@);
            }
            let keeps_queues = self.tcbs[tid].state != ThreadState::Running || (self.n_cores() > 1
                && running_on is Some);
            if keeps_queues {
                // The thread is not in the run queue.
                assert(!self.is_queued(n)) by {
                    if self.is_queued(n) {
                        let q = choose|q: int|
                            0 <= q < self.queues.len() && #[trigger] self.queues[q].contains(n.0);
                        assert(self.tcbs[tid].state == ThreadState::Running);
                        assert(self.current[running_on.unwrap()] == Some(n));
                        assert(self.is_current(n));
                    }
                }
                assert forall|q: int, m: u8|
                    0 <= q < SCHED_PRIO_LEVELS && #[trigger] post.queues[q].contains(m) implies m
                    < THREADS_NUMOF && post.tcbs[m as int].state == ThreadState::Running
                    && post.tcbs[m as int].prio@ == q by {
                    assert(self.queues[q].contains(m));
                    if m == n.0 {
                        assert(lists_contain(self.queues, n.0));
                    }
                }
                assert forall|t: int|
                    0 <= t < THREADS_NUMOF && (#[trigger] post.tcbs[t]).state
                        == ThreadState::Running implies post.is_queued(ThreadId(t as u8)) || (
                post.n_cores() > 1 && post.is_current(ThreadId(t as u8))) by {
                    assert(self.tcbs[t].state == ThreadState::Running);
                    Self::lemma_running_kept(self, post, t);
                }
            } else {
                // The thread is in the queue of its old priority, and moves.
                assert(self.is_queued(n)) by {
                    if !self.is_queued(n) {
                        let c = choose|c: int|
                            0 <= c < self.current.len() && #[trigger] self.current[c] == Some(n);
                    }
                }
                let q0 = choose|q: int|
                    0 <= q < self.queues.len() && #[trigger] self.queues[q].contains(n.0);
                assert(q0 == old_prio@);
                let v1 = deleted(self.queues, n, old_prio);
                Self::lemma_deleted(self.queues, n, old_prio);
                Self::lemma_added(v1, n, prio);
                assert forall|q: int, m: u8|
                    0 <= q < SCHED_PRIO_LEVELS && #[trigger] post.queues[q].contains(m) implies m
                    < THREADS_NUMOF && post.tcbs[m as int].state == ThreadState::Running
                    && post.tcbs[m as int].prio@ == q by {
                    if m != n.0 {
                        assert(v1[q].contains(m));
                        assert(self.queues[q].contains(m));
                    }
                }
                assert forall|t: int|
                    0 <= t < THREADS_NUMOF && (#[trigger] post.tcbs[t]).state
                        == ThreadState::Running implies post.is_queued(ThreadId(t as u8)) || (
                post.n_cores() > 1 && post.is_current(ThreadId(t as u8))) by {
                    if t == tid {
                        assert(post.queues[prio@].contains(n.0));
                    } else {
                        assert(self.tcbs[t].state == ThreadState::Running);
                        assert forall|q: int|
                            0 <= q < self.queues.len() && #[trigger] self.queues[q].contains(
                                t as u8,
                            ) implies post.queues[q].contains(t as u8) by {
                            assert(v1[q].contains(t as u8));
                        }
                        Self::lemma_running_kept(self, post, t);
                    }
                }
            }
        }
    }

    /// What [`Self::create`] asks: the priority is valid, and a given
    /// affinity allows the thread to run on some core.
    pub open spec fn may_create(self, prio: RunqueueId, core_affinity: Option<CoreAffinity>) -> bool {
        &&& prio@ < SCHED_PRIO_LEVELS
        &&& core_affinity matches Some(a) ==> exists|c: int| 0 <= c < self.n_cores() && a.allows(c)
    }

    /// Setting up a thread in a free slot keeps the invariant.
    pub proof fn lemma_create_wf(
        self,
        func: usize,
        arg: usize,
        stack_start: usize,
        stack_len: usize,
        cleanup: usize,
        prio: RunqueueId,
        core_affinity: Option<CoreAffinity>,
    )
        requires
            self.wf(),
            self.may_create(prio, core_affinity),
        ensures
            self.create(func, arg, stack_start, stack_len, cleanup, prio, core_affinity).wf(),
    {
        let post = self.create(func, arg, stack_start, stack_len, cleanup, prio, core_affinity);
        lemma_first_free(self.tcbs, 0);
        if let Some(k) = first_free(self.tcbs, 0) {
            assert forall|t: int| 0 <= t < THREADS_NUMOF implies exists|c: int|
                0 <= c < post.current.len() && (#[trigger] post.tcbs[t]).core_affinity.allows(c) by {
                if t == k {
                    match core_affinity {
                        Some(a) => {
                            let c = choose|c: int| 0 <= c < self.n_cores() && a.allows(c);
                            assert(post.tcbs[t].core_affinity.allows(c));
                        },
                        None => {
                            let s: u8 = 0;
                            assert((0xFFu8 >> s) & 1 == 1) by (bit_vector)
                                requires
                                    s == 0,
                            ;
                            assert(post.tcbs[t].core_affinity.allows(0));
                        },
                    }
                } else {
                    let c = choose|c: int|
                        0 <= c < self.current.len() && (#[trigger] self.tcbs[t]).core_affinity.allows(
                            c,
                        );
                    assert(post.tcbs[t].core_affinity.allows(c));
                }
            }
            assert forall|t: int| 0 <= t < THREADS_NUMOF implies (#[trigger] post.tcbs[t]).prio@
                < SCHED_PRIO_LEVELS by {
                if t != k {
                    assert(post.tcbs[t].prio == self.tcbs[t].prio);
                }
            }
            assert forall|q: int, m: u8|
                0 <= q < SCHED_PRIO_LEVELS && #[trigger] post.queues[q].contains(m) implies m
                < THREADS_NUMOF && post.tcbs[m as int].state == ThreadState::Running
                && post.tcbs[m as int].prio@ == q by {
                assert(self.queues[q].contains(m));
            }
            assert forall|t: int|
                0 <= t < THREADS_NUMOF && (#[trigger] post.tcbs[t]).state
                    == ThreadState::Running implies post.is_queued(ThreadId(t as u8)) || (
            post.n_cores() > 1 && post.is_current(ThreadId(t as u8))) by {
                assert(self.tcbs[t].state == ThreadState::Running);
                Self::lemma_running_kept(self, post, t);
            }
        }
    }

    /// The state after the thread that is current on `core` has been put
    /// back into the run queue, at the tail of the queue of its priority, if
    /// it is in the `Running` state.
    pub open spec fn requeue_current(self, core: int) -> SchedState {
        match self.current[core] {
            Some(t) => if self.tcbs[t@].state == ThreadState::Running {
                SchedState { queues: added(self.queues, t, self.tcbs[t@].prio), ..self }
            } else {
                self
            },
            None => self,
        }
    }

    /// The place in the run queue of the thread that core `core` picks next:
    /// the first thread in scheduling order that may run on it.
    pub open spec fn pick(self, core: int) -> Option<(int, int)> {
        first_allowed(
            self.queues,
            may_run_on(self.tcbs, self.n_cores(), core),
            SCHED_PRIO_LEVELS as int,
        )
    }

    /// The run queue after the thread at position `i` of queue `q` has been
    /// picked. With one core the thread stays where it is. With several it
    /// is taken out, and the threads that stood before it in its queue now
    /// stand behind the others, in their order.
    pub open spec fn queues_after_pick(self, q: int, i: int) -> Seq<Seq<u8>> {
        if self.n_cores() == 1 {
            self.queues
        } else {
            self.queues.update(q, rotated_by(self.queues[q], i).drop_first())
        }
    }

    /// The state after the scheduler has run on `core`, while the stack
    /// pointer of the core was `sp`, and what it decided.
    ///
    /// With several cores the current thread is first put back into the run
    /// queue if it is still runnable. Then the next thread is picked. If
    /// there is none, the core idles. If it is the current thread, nothing
    /// else happens. Otherwise the stack pointer of the current thread is
    /// saved and the picked thread becomes current.
    pub open spec fn sched(self, core: int, sp: usize) -> (SchedState, SchedResult) {
        let s = if self.n_cores() > 1 {
            self.requeue_current(core)
        } else {
            self
        };
        match s.pick(core) {
            None => (s, SchedResult::Idle),
            Some((q, i)) => {
                let next = ThreadId(s.queues[q][i]);
                let queues = s.queues_after_pick(q, i);
                if s.current[core] == Some(next) {
                    (SchedState { queues: queues, ..s }, SchedResult::Same)
                } else {
                    let tcbs = match s.current[core] {
                        Some(cur) => s.tcbs.update(cur@, Thread { sp: sp, ..s.tcbs[cur@] }),
                        None => s.tcbs,
                    };
                    (
                        SchedState {
                            tcbs: tcbs,
                            queues: queues,
                            current: s.current.update(core, Some(next)),
                            ..s
                        },
                        SchedResult::Switch {
                            prev: s.current[core],
                            next: next,
                            sp: s.tcbs[next@].sp,
                        },
                    )
                }
            },
        }
    }

    /// Putting the current thread back into the run queue keeps the
    /// invariant.
    pub proof fn lemma_requeue_current_wf(self, core: int)
        requires
            self.wf(),
            0 <= core < self.n_cores(),
        ensures
            self.requeue_current(core).wf(),
    {
        let post = self.requeue_current(core);
        if let Some(t) = self.current[core] {
            if self.tcbs[t@].state == ThreadState::Running {
                let prio = self.tcbs[t@].prio;
                if lists_contain(self.queues, t.0) {
                    let q = choose|q: int|
                        0 <= q < self.queues.len() && #[trigger] self.queues[q].contains(t.0);
                    assert(self.queues[q].contains(t.0));
                }
                Self::lemma_added(self.queues, t, prio);
                assert forall|q: int, m: u8|
                    0 <= q < SCHED_PRIO_LEVELS && #[trigger] post.queues[q].contains(m) implies m
                    < THREADS_NUMOF && post.tcbs[m as int].state == ThreadState::Running
                    && post.tcbs[m as int].prio@ == q by {
                    if self.queues[q].contains(m) {
                    }
                }
                assert forall|u: int|
                    0 <= u < THREADS_NUMOF && (#[trigger] post.tcbs[u]).state
                        == ThreadState::Running implies post.is_queued(ThreadId(u as u8)) || (
                post.n_cores() > 1 && post.is_current(ThreadId(u as u8))) by {
                    Self::lemma_running_kept(self, post, u);
                }
            }
        }
    }

    /// Running the scheduler keeps the invariant, and leaves the thread that
    /// it made or kept current dispatched: with several cores, outside the
    /// run queue.
    pub proof fn lemma_sched_wf(self, core: int, sp: usize)
        requires
            self.wf(),
            0 <= core < self.n_cores(),
        ensures
            self.sched(core, sp).0.wf(),
            self.sched(core, sp).1 != SchedResult::Idle ==> self.sched(core, sp).0.dispatched(core),
            self.sched(core, sp).1 matches SchedResult::Switch { prev, next, sp: next_sp } ==> {
                &&& self.sched(core, sp).0.current[core] == Some(next)
                &&& next@ < THREADS_NUMOF
                &&& prev != Some(next)
            },
    {
        let s = if self.n_cores() > 1 {
            self.requeue_current(core)
        } else {
            self
        };
        self.lemma_requeue_current_wf(core);
        let ok = may_run_on(s.tcbs, s.n_cores(), core);
        lemma_first_allowed(s.queues, ok, SCHED_PRIO_LEVELS as int);
        let (post, res) = self.sched(core, sp);
        if let Some((q, i)) = s.pick(core) {
            let l = s.queues[q];
            let n = l[i];
            let next = ThreadId(n);
            assert(s.queues[q].contains(n));
            assert(s.tcbs[n as int].state == ThreadState::Running);
            // The table part.
            assert(post.wf_table()) by {
                assert forall|t: int| 0 <= t < THREADS_NUMOF implies exists|c: int|
                    0 <= c < post.current.len() && (#[trigger] post.tcbs[t]).core_affinity.allows(
                        c,
                    ) by {
                    let c = choose|c: int|
                        0 <= c < s.current.len() && (#[trigger] s.tcbs[t]).core_affinity.allows(c);
                    assert(post.tcbs[t].core_affinity.allows(c));
                }
                assert forall|t: int| 0 <= t < THREADS_NUMOF implies (#[trigger] post.tcbs[t]).prio@
                    < SCHED_PRIO_LEVELS by {
                    assert(post.tcbs[t].prio == s.tcbs[t].prio);
                }
                assert forall|c: int| 0 <= c < post.current.len() implies (
                #[trigger] post.current[c] matches Some(t) ==> t@ < THREADS_NUMOF) by {
                    if c != core {
                        assert(post.current[c] == s.current[c]);
                    }
                }
            }
            // The queues.
            let v = post.queues;
            if s.n_cores() > 1 {
                crate::runqueue::lemma_rotate_step(l, i);
                Self::lemma_rotated_by(s.queues, q, i);
                let v1 = s.queues.update(q, rotated_by(l, i));
                assert(v1[q].drop_first() =~= v1[q].remove(0));
                assert(v =~= v1.update(q, v1[q].remove(0)));
                Self::lemma_removed_wf(v1, q, 0);
                assert forall|p: int, m: u8| 0 <= p < SCHED_PRIO_LEVELS implies (#[trigger] v[p].contains(
                    m,
                ) <==> (s.queues[p].contains(m) && m != n)) by {
                    lemma_remove_members(v1, THREADS_NUMOF as int, q, 0, p, m);
                }
            }
            assert forall|p: int, m: u8|
                0 <= p < SCHED_PRIO_LEVELS && #[trigger] post.queues[p].contains(m) implies m
                < THREADS_NUMOF && post.tcbs[m as int].state == ThreadState::Running
                && post.tcbs[m as int].prio@ == p by {
                assert(s.queues[p].contains(m));
            }
            assert forall|u: int|
                0 <= u < THREADS_NUMOF && (#[trigger] post.tcbs[u]).state
                    == ThreadState::Running implies post.is_queued(ThreadId(u as u8)) || (
            post.n_cores() > 1 && post.is_current(ThreadId(u as u8))) by {
                assert(s.tcbs[u].state == ThreadState::Running);
                if u == n as int {
                    if s.n_cores() > 1 {
                        assert(post.current[core] == Some(next));
                    } else {
                        assert(post.queues[q].contains(n));
                    }
                } else if s.is_queued(ThreadId(u as u8)) {
                    let p = choose|p: int|
                        0 <= p < s.queues.len() && #[trigger] s.queues[p].contains(u as u8);
                    assert(post.queues[p].contains(u as u8));
                } else {
                    let c = choose|c: int|
                        0 <= c < s.current.len() && #[trigger] s.current[c] == Some(
                            ThreadId(u as u8),
                        );
                    if c == core {
                        // The thread was current here and is runnable: it
                        // was put back into the run queue.
                        assert(self.current[core] == Some(ThreadId(u as u8)));
                        assert(self.tcbs[u].state == ThreadState::Running);
                        let prio = self.tcbs[u].prio;
                        if lists_contain(self.queues, u as u8) {
                            let q0 = choose|q0: int|
                                0 <= q0 < self.queues.len() && #[trigger] self.queues[q0].contains(
                                    u as u8,
                                );
                            assert(self.queues[q0].contains(u as u8));
                        }
                        Self::lemma_added(self.queues, ThreadId(u as u8), prio);
                        assert(s.queues[prio@].contains(u as u8));
                        assert(false);
                    } else {
                        assert(post.current[c] == Some(ThreadId(u as u8)));
                    }
                }
            }
            // The picked thread is dispatched.
            if s.n_cores() == 1 {
                assert(ok(l[0]));
                assert(i == 0);
            } else {
                if post.is_queued(next) {
                    let p = choose|p: int|
                        0 <= p < post.queues.len() && #[trigger] post.queues[p].contains(n);
                    assert(post.queues[p].contains(n) <==> (s.queues[p].contains(n) && n != n));
                }
            }
        }
    }

    /// Rotated queues are well-formed, with the members that they had.
    pub proof fn lemma_rotated_by(v: Seq<Seq<u8>>, p: int, k: int)
        requires
            lists_wf(v, SCHED_PRIO_LEVELS as int, THREADS_NUMOF as int),
            0 <= p < SCHED_PRIO_LEVELS,
            0 <= k < v[p].len(),
        ensures
            lists_wf(
                v.update(p, rotated_by(v[p], k)),
                SCHED_PRIO_LEVELS as int,
                THREADS_NUMOF as int,
            ),
            forall|q: int, m: u8|
                0 <= q < SCHED_PRIO_LEVELS ==> (#[trigger] v.update(p, rotated_by(v[p], k))[q].contains(
                    m,
                ) <==> v[q].contains(m)),
            rotated_by(v[p], k).len() == v[p].len(),
            rotated_by(v[p], k)[0] == v[p][k],
    {
        let l = v[p];
        let r = rotated_by(l, k);
        let v2 = v.update(p, r);
        let orig = |q: int, i: int|
            if q == p {
                if i + k < l.len() {
                    i + k
                } else {
                    i + k - l.len()
                }
            } else {
                i
            };
        assert forall|i: int| 0 <= i < r.len() implies #[trigger] r[i] == l[orig(p, i)] by {}
        assert forall|q: int, m: u8| 0 <= q < SCHED_PRIO_LEVELS implies (#[trigger] v2[q].contains(
            m,
        ) <==> v[q].contains(m)) by {
            if q == p {
                if r.contains(m) {
                    let i = choose|i: int| 0 <= i < r.len() && r[i] == m;
                    assert(l[orig(p, i)] == m);
                }
                if l.contains(m) {
                    let j = choose|j: int| 0 <= j < l.len() && l[j] == m;
                    let i = if j >= k {
                        j - k
                    } else {
                        j - k + l.len()
                    };
                    assert(r[i] == l[orig(p, i)]);
                }
            }
        }
        assert forall|q: int, i: int| 0 <= q < v2.len() && 0 <= i < v2[q].len() implies (
        #[trigger] v2[q][i]) < THREADS_NUMOF by {
            assert(v2[q][i] == v[q][orig(q, i)]);
        }
        assert forall|q1: int, i1: int, q2: int, i2: int|
            0 <= q1 < v2.len() && 0 <= i1 < v2[q1].len() && 0 <= q2 < v2.len() && 0 <= i2
                < v2[q2].len() && #[trigger] v2[q1][i1] == #[trigger] v2[q2][i2] implies q1 == q2
            && i1 == i2 by {
            assert(v2[q1][i1] == v[q1][orig(q1, i1)]);
            assert(v2[q2][i2] == v[q2][orig(q2, i2)]);
        }
    }

    /// Whether a thread that waits in `mode` is woken when the flags `mask`
    /// are set for it and its flags are `flags` then: if it waits for any
    /// flag of a mask, when one of them is among those set; if it waits for
    /// all, when it has them all.
    pub open spec fn flags_wake(mask: ThreadFlags, flags: ThreadFlags, mode: WaitMode) -> bool {
        match mode {
            WaitMode::Any(bits) => mask & bits != 0,
            WaitMode::All(bits) => flags & bits == bits,
        }
    }

    /// The state after the flags `mask` have been set for thread `tid` on
    /// behalf of the thread running on `core`: the flags are added to those
    /// of the thread, and a thread that was waiting for them enters
    /// `Running`.
    pub open spec fn flag_set(self, core: int, tid: int, mask: ThreadFlags) -> SchedState {
        let flags = self.tcbs[tid].flags | mask;
        let s = SchedState {
            tcbs: self.tcbs.update(tid, Thread { flags: flags, ..self.tcbs[tid] }),
            ..self
        };
        match self.tcbs[tid].state {
            ThreadState::FlagBlocked(mode) => if Self::flags_wake(mask, flags, mode) {
                s.set_state(core, tid, ThreadState::Running)
            } else {
                s
            },
            _ => s,
        }
    }

    /// The state after the thread that is current on `core` has asked for
    /// flags in `mode`: if `taken` are the flags that it takes, they are
    /// cleared; if it takes none, it blocks.
    pub open spec fn flag_wait(self, core: int, taken: Option<ThreadFlags>, mode: WaitMode) -> SchedState {
        match self.current[core] {
            None => self,
            Some(t) => match taken {
                Some(res) => SchedState {
                    tcbs: self.tcbs.update(
                        t@,
                        Thread { flags: self.tcbs[t@].flags & !res, ..self.tcbs[t@] },
                    ),
                    ..self
                },
                None => self.set_state(core, t@, ThreadState::FlagBlocked(mode)),
            },
        }
    }

    /// The state after the flags `mask` have been cleared for the thread
    /// that is current on `core`.
    pub open spec fn flag_clear(self, core: int, mask: ThreadFlags) -> SchedState {
        match self.current[core] {
            None => self,
            Some(t) => SchedState {
                tcbs: self.tcbs.update(
                    t@,
                    Thread { flags: self.tcbs[t@].flags & !mask, ..self.tcbs[t@] },
                ),
                ..self
            },
        }
    }

    /// A change of the flags of a thread keeps the invariant.
    pub proof fn lemma_flags_wf(self, tid: int, flags: ThreadFlags)
        requires
            self.wf(),
            0 <= tid < THREADS_NUMOF,
        ensures
            (SchedState {
                tcbs: self.tcbs.update(tid, Thread { flags: flags, ..self.tcbs[tid] }),
                ..self
            }).wf(),
    {
        let post = SchedState {
            tcbs: self.tcbs.update(tid, Thread { flags: flags, ..self.tcbs[tid] }),
            ..self
        };
        Self::lemma_wf_table_kept(self, post);
        assert forall|q: int, m: u8|
            0 <= q < SCHED_PRIO_LEVELS && #[trigger] post.queues[q].contains(m) implies m
            < THREADS_NUMOF && post.tcbs[m as int].state == ThreadState::Running
            && post.tcbs[m as int].prio@ == q by {
            assert(self.queues[q].contains(m));
        }
        assert forall|t: int|
            0 <= t < THREADS_NUMOF && (#[trigger] post.tcbs[t]).state
                == ThreadState::Running implies post.is_queued(ThreadId(t as u8)) || (post.n_cores()
            > 1 && post.is_current(ThreadId(t as u8))) by {
            assert(self.tcbs[t].state == ThreadState::Running);
            Self::lemma_running_kept(self, post, t);
        }
    }

    /// Where a thread is: a thread in a free slot is not in the run queue,
    /// a thread is in the run queue at one place at most, and no thread is
    /// both in the run queue and blocked.
    pub proof fn law_one_place(self, t: int)
        requires
            self.wf(),
            0 <= t < THREADS_NUMOF,
        ensures
            self.tcbs[t].state == ThreadState::Invalid ==> !self.is_queued(ThreadId(t as u8)),
            self.is_queued(ThreadId(t as u8)) ==> self.tcbs[t].state == ThreadState::Running,
            forall|q1: int, i1: int, q2: int, i2: int|
                0 <= q1 < SCHED_PRIO_LEVELS && 0 <= i1 < self.queues[q1].len() && 0 <= q2
                    < SCHED_PRIO_LEVELS && 0 <= i2 < self.queues[q2].len() && self.queues[q1][i1]
                    == t && self.queues[q2][i2] == t ==> q1 == q2 && i1 == i2,
            self.n_cores() > 1 && self.tcbs[t].state == ThreadState::Running ==> self.is_queued(
                ThreadId(t as u8),
            ) || self.is_current(ThreadId(t as u8)),
            self.n_cores() == 1 && self.tcbs[t].state == ThreadState::Running ==> self.is_queued(
                ThreadId(t as u8),
            ),
    {
        if self.is_queued(ThreadId(t as u8)) {
            let q = choose|q: int| 0 <= q < self.queues.len() && #[trigger] self.queues[q].contains(
                t as u8,
            );
            assert(self.queues[q].contains(t as u8));
        }
        assert forall|q1: int, i1: int, q2: int, i2: int|
            0 <= q1 < SCHED_PRIO_LEVELS && 0 <= i1 < self.queues[q1].len() && 0 <= q2
                < SCHED_PRIO_LEVELS && 0 <= i2 < self.queues[q2].len() && self.queues[q1][i1] == t
                && self.queues[q2][i2] == t implies q1 == q2 && i1 == i2 by {
            assert(self.queues[q1][i1] == self.queues[q2][i2]);
        }
    }

    /// With several cores, the thread that the scheduler makes or keeps
    /// current on a core is not in the run queue.
    pub proof fn law_current_not_queued(self, core: int, sp: usize)
        requires
            self.wf(),
            self.n_cores() > 1,
            0 <= core < self.n_cores(),
        ensures
            self.sched(core, sp).1 != SchedResult::Idle ==> {
                let after = self.sched(core, sp).0;
                after.current[core] matches Some(t) && !after.is_queued(t)
            },
    {
        self.lemma_sched_wf(core, sp);
    }

    /// Setting the priority of a thread to the priority that it has changes
    /// nothing: neither the run queue nor the pending reschedule requests.
    pub proof fn law_set_priority_same(self, core: int, tid: int)
        requires
            0 <= tid < THREADS_NUMOF,
        ensures
            self.set_priority(core, tid, self.tcbs[tid].prio) == self,
    {
    }

    /// Setting the priority of a thread twice leaves the run queue as
    /// setting it once to the second priority does.
    ///
    /// This is not so where the second priority is the one that the thread
    /// had in the beginning and the first is another: the thread has then
    /// moved to the tail of its queue, while a single call would have left
    /// it where it was.
    pub proof fn law_set_priority_twice(self, core: int, tid: int, p: RunqueueId, q: RunqueueId)
        requires
            self.wf(),
            self.may_set_priority(core, tid, p),
            q@ < SCHED_PRIO_LEVELS,
            0 <= tid < THREADS_NUMOF ==> (q != self.tcbs[tid].prio || p == self.tcbs[tid].prio),
        ensures
            self.set_priority(core, tid, p).set_priority(core, tid, q).queues == self.set_priority(
                core,
                tid,
                q,
            ).queues,
    {
        if !(0 <= tid < THREADS_NUMOF) || self.tcbs[tid].state == ThreadState::Invalid {
        } else if self.tcbs[tid].prio == p {
        } else {
            let n = ThreadId(tid as u8);
            let old_prio = self.tcbs[tid].prio;
            let first = self.set_priority(core, tid, p);
            let running_on = first_core_of(self.current, n, 0);
            lemma_first_core_of(self.current, n, 0);
            assert(first.current == self.current);
            assert(first.tcbs[tid].state == self.tcbs[tid].state);
            assert(first.tcbs[tid].prio == p);
            if self.tcbs[tid].state != ThreadState::Running {
            } else if self.n_cores() > 1 && running_on is Some {
            } else if q == p {
            } else {
                // The thread is in the queue of its priority, and moves
                // twice.
                assert(self.is_queued(n)) by {
                    if !self.is_queued(n) {
                        let c = choose|c: int|
                            0 <= c < self.current.len() && #[trigger] self.current[c] == Some(n);
                    }
                }
                let q0 = choose|q0: int|
                    0 <= q0 < self.queues.len() && #[trigger] self.queues[q0].contains(n.0);
                assert(q0 == old_prio@);
                let v1 = deleted(self.queues, n, old_prio);
                Self::lemma_deleted(self.queues, n, old_prio);
                let v2 = added(v1, n, p);
                assert(first.queues == v2);
                // Taking the thread out of the queue to which it was added
                // last gives the queues before the addition.
                let l = v1[p@];
                let lp = l.push(n.0);
                assert(!l.contains(n.0)) by {
                    if l.contains(n.0) {
                        assert(v1[p@].contains(n.0));
                    }
                }
                assert(lp[l.len() as int] == n.0);
                assert(lp.contains(n.0));
                let k = lp.index_of(n.0);
                assert(k == l.len()) by {
                    if k < l.len() {
                        assert(l[k] == n.0);
                    }
                }
                assert(lp.remove(k) =~= l);
                assert(deleted(v2, n, p) =~= v1);
            }
        }
    }

    /// With one core, a thread that parks itself and is unparked before the
    /// scheduler runs leaves the state as if it had yielded: it has moved
    /// from the head of its queue to the tail, and a reschedule is pending.
    pub proof fn law_park_unpark_is_yield(self, core: int)
        requires
            self.wf(),
            self.n_cores() == 1,
            0 <= core < self.n_cores(),
            self.dispatched(core),
        ensures
            self.park(core).unpark(core, self.current[core].unwrap()@) == self.yield_same(core),
    {
        let t = self.current[core].unwrap();
        let prio = self.tcbs[t@].prio;
        assert(t@ < THREADS_NUMOF);
        let parked = self.park(core);
        let back = parked.unpark(core, t@);
        let yielded = self.yield_same(core);
        let l = self.queues[prio@];
        assert(l.len() > 0 && l[0] == t.0);
        // The thread is no longer in the run queue once it is parked.
        assert(l.drop_first() =~= l.remove(0));
        Self::lemma_removed_wf(self.queues, prio@, 0);
        assert(!lists_contain(parked.queues, t.0)) by {
            if lists_contain(parked.queues, t.0) {
                let q = choose|q: int|
                    0 <= q < parked.queues.len() && #[trigger] parked.queues[q].contains(t.0);
                lemma_remove_members(self.queues, THREADS_NUMOF as int, prio@, 0, q, t.0);
            }
        }
        assert(back.tcbs =~= self.tcbs);
        assert(back.queues =~= yielded.queues);
        assert(back.pending =~= yielded.pending);
    }

    /// Whether no thread that is current on a core is in the run queue, and
    /// no thread is current on two cores. This is meant for several cores;
    /// with one core the current thread is in the run queue.
    pub open spec fn no_current_queued(self) -> bool {
        &&& forall|c: int|
            0 <= c < self.current.len() ==> (#[trigger] self.current[c] matches Some(t)
                ==> !self.is_queued(t))
        &&& forall|c1: int, c2: int|
            0 <= c1 < self.current.len() && 0 <= c2 < self.current.len() && c1 != c2
                && #[trigger] self.current[c1] is Some ==> self.current[c1]
                != #[trigger] self.current[c2]
    }

    /// With several cores, setting the state of a thread keeps the current
    /// threads out of the run queue, unless it makes a thread runnable that
    /// is still current on a core: a thread that has blocked and whose core
    /// has not scheduled since.
    pub proof fn law_set_state_keeps_current_out(self, core: int, pid: int, state: ThreadState)
        requires
            self.wf(),
            self.n_cores() > 1,
            self.may_set_state(core, pid, state),
            self.no_current_queued(),
            state == ThreadState::Running ==> !self.is_current(ThreadId(pid as u8)),
        ensures
            self.set_state(core, pid, state).no_current_queued(),
    {
        let post = self.set_state(core, pid, state);
        let prio = self.tcbs[pid].prio;
        if state == ThreadState::Running {
            if lists_contain(self.queues, pid as u8) {
                let q = choose|q: int|
                    0 <= q < self.queues.len() && #[trigger] self.queues[q].contains(pid as u8);
                assert(self.queues[q].contains(pid as u8));
            }
            Self::lemma_added(self.queues, ThreadId(pid as u8), prio);
            assert forall|c: int| 0 <= c < post.current.len() implies (
            #[trigger] post.current[c] matches Some(t) ==> !post.is_queued(t)) by {
                if let Some(t) = post.current[c] {
                    assert(self.current[c] == Some(t));
                    assert(t@ != pid);
                    if post.is_queued(t) {
                        let q = choose|q: int|
                            0 <= q < post.queues.len() && #[trigger] post.queues[q].contains(t.0);
                        assert(self.queues[q].contains(t.0));
                    }
                }
            }
        }
    }

    /// With several cores, setting the priority of a thread keeps the
    /// current threads out of the run queue.
    pub proof fn law_set_priority_keeps_current_out(self, core: int, tid: int, prio: RunqueueId)
        requires
            self.wf(),
            self.n_cores() > 1,
            self.may_set_priority(core, tid, prio),
            self.no_current_queued(),
        ensures
            self.set_priority(core, tid, prio).no_current_queued(),
    {
        let post = self.set_priority(core, tid, prio);
        if 0 <= tid < THREADS_NUMOF && post.queues != self.queues {
            let n = ThreadId(tid as u8);
            let old_prio = self.tcbs[tid].prio;
            lemma_first_core_of(self.current, n, 0);
            assert(self.is_queued(n)) by {
                if !self.is_queued(n) {
                    let c = choose|c: int|
                        0 <= c < self.current.len() && #[trigger] self.current[c] == Some(n);
                }
            }
            let q0 = choose|q0: int|
                0 <= q0 < self.queues.len() && #[trigger] self.queues[q0].contains(n.0);
            assert(q0 == old_prio@);
            let v1 = deleted(self.queues, n, old_prio);
            Self::lemma_deleted(self.queues, n, old_prio);
            Self::lemma_added(v1, n, prio);
            assert forall|c: int| 0 <= c < post.current.len() implies (
            #[trigger] post.current[c] matches Some(t) ==> !post.is_queued(t)) by {
                if let Some(t) = post.current[c] {
                    assert(self.current[c] == Some(t));
                    if post.is_queued(t) {
                        let q = choose|q: int|
                            0 <= q < post.queues.len() && #[trigger] post.queues[q].contains(t.0);
                        assert(v1[q].contains(t.0) || t == n);
                        if t != n {
                            assert(self.queues[q].contains(t.0));
                        }
                    }
                }
            }
        }
    }

    /// With several cores, running the scheduler on a core keeps the
    /// current threads out of the run queue, if it finds a thread to run.
    pub proof fn law_sched_keeps_current_out(self, core: int, sp: usize)
        requires
            self.wf(),
            self.n_cores() > 1,
            0 <= core < self.n_cores(),
            self.no_current_queued(),
        ensures
            self.sched(core, sp).1 != SchedResult::Idle ==> self.sched(core, sp).0.no_current_queued(),
    {
        let s = self.requeue_current(core);
        self.lemma_requeue_current_wf(core);
        self.lemma_sched_wf(core, sp);
        let ok = may_run_on(s.tcbs, s.n_cores(), core);
        lemma_first_allowed(s.queues, ok, SCHED_PRIO_LEVELS as int);
        let (post, res) = self.sched(core, sp);
        if let Some((q, i)) = s.pick(core) {
            let n = s.queues[q][i];
            let next = ThreadId(n);
            assert(s.queues[q].contains(n));
            // What is in the run queue before the pick is the thread that
            // was current here, or was in the run queue before.
            assert forall|p: int, m: u8|
                0 <= p < SCHED_PRIO_LEVELS && #[trigger] s.queues[p].contains(m) implies self.queues[p].contains(
                m,
            ) || self.current[core] == Some(ThreadId(m)) by {
                if let Some(cur) = self.current[core] {
                    if self.tcbs[cur@].state == ThreadState::Running {
                        assert(!lists_contain(self.queues, cur.0));
                        lemma_push_members(self.queues, self.tcbs[cur@].prio@, cur.0, p, m);
                    }
                }
            }
            // What is in the run queue after the pick was in it before.
            crate::runqueue::lemma_rotate_step(s.queues[q], i);
            Self::lemma_rotated_by(s.queues, q, i);
            let v1 = s.queues.update(q, rotated_by(s.queues[q], i));
            assert(v1[q].drop_first() =~= v1[q].remove(0));
            assert(post.queues =~= v1.update(q, v1[q].remove(0)));
            assert forall|p: int, m: u8|
                0 <= p < SCHED_PRIO_LEVELS && #[trigger] post.queues[p].contains(m) implies s.queues[p].contains(
                m,
            ) && m != n by {
                lemma_remove_members(v1, THREADS_NUMOF as int, q, 0, p, m);
            }
            assert forall|c: int| 0 <= c < post.current.len() implies (
            #[trigger] post.current[c] matches Some(t) ==> !post.is_queued(t)) by {
                if let Some(t) = post.current[c] {
                    if post.is_queued(t) {
                        let p = choose|p: int|
                            0 <= p < post.queues.len() && #[trigger] post.queues[p].contains(t.0);
                        assert(s.queues[p].contains(t.0) && t.0 != n);
                        if c == core {
                            assert(post.current[core] == Some(next));
                        } else {
                            assert(self.current[c] == Some(t));
                            if !self.queues[p].contains(t.0) {
                                assert(self.current[core] == Some(ThreadId(t.0)));
                            } else {
                                assert(lists_contain(self.queues, t.0));
                            }
                        }
                    }
                }
            }
            assert forall|c1: int, c2: int|
                0 <= c1 < post.current.len() && 0 <= c2 < post.current.len() && c1 != c2
                    && #[trigger] post.current[c1] is Some implies post.current[c1]
                != #[trigger] post.current[c2] by {
                if c1 != core && c2 != core {
                    assert(self.current[c1] is Some);
                    assert(self.current[c1] != self.current[c2]);
                } else {
                    // The picked thread was in the run queue, or current on
                    // this core: it is current on no other.
                    let other = if c1 == core {
                        c2
                    } else {
                        c1
                    };
                    if self.current[other] == Some(next) {
                        assert(self.current[other] is Some);
                        if self.queues[q].contains(n) {
                            assert(lists_contain(self.queues, n));
                        } else {
                            assert(self.current[core] == Some(next));
                            assert(self.current[other] != self.current[core]);
                        }
                    }
                }
            }
        }
    }
}

} // verus!
