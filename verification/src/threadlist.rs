//! A list of the threads that wait for a resource, highest priority first,
//! chained through the links that the scheduler keeps for each thread.
use vstd::prelude::*;
use crate::ids::{CoreId, RunqueueId, ThreadId};
use crate::model::{SchedState, THREADS_NUMOF};
use crate::thread::ThreadState;
use crate::threads::Threads;

verus! {

/// Whether a thread in `state` is blocked: it exists and is not runnable.
pub open spec fn is_blocked(state: ThreadState) -> bool {
    state != ThreadState::Running && state != ThreadState::Invalid
}

/// The position at which a thread of priority `prio` is inserted into the
/// waiters `w`: behind all waiters of the same or a higher priority. It is
/// the first position at or after `i` of a waiter of lower priority.
pub open spec fn insert_pos(w: Seq<ThreadId>, s: SchedState, prio: int, i: int) -> int
    decreases w.len() - i,
{
    if i < 0 || i >= w.len() {
        w.len() as int
    } else if s.tcbs[w[i]@].prio@ < prio {
        i
    } else {
        insert_pos(w, s, prio, i + 1)
    }
}

/// `insert_pos` yields a position behind the waiters of the same or a
/// higher priority, and before a waiter of lower priority.
pub proof fn lemma_insert_pos(w: Seq<ThreadId>, s: SchedState, prio: int, i: int)
    requires
        0 <= i <= w.len(),
    ensures
        i <= insert_pos(w, s, prio, i) <= w.len(),
        forall|j: int| i <= j < insert_pos(w, s, prio, i) ==> s.tcbs[(#[trigger] w[j])@].prio@ >= prio,
        insert_pos(w, s, prio, i) < w.len() ==> s.tcbs[w[insert_pos(w, s, prio, i)]@].prio@ < prio,
    decreases w.len() - i,
{
    if i < w.len() && s.tcbs[w[i]@].prio@ >= prio {
        lemma_insert_pos(w, s, prio, i + 1);
    }
}

/// The waiter at position `i` of `w`, if there is one.
pub open spec fn waiter_at(w: Seq<ThreadId>, i: int) -> Option<ThreadId> {
    if 0 <= i < w.len() {
        Some(w[i])
    } else {
        None
    }
}

/// The links of the scheduler state `s` after thread `pid` has been linked
/// into the waiters `w` at position `pos`.
pub open spec fn linked_in(s: SchedState, w: Seq<ThreadId>, pid: ThreadId, pos: int) -> SchedState {
    let linked = s.blocklist.update(pid@, waiter_at(w, pos));
    SchedState {
        blocklist: if pos > 0 {
            linked.update(w[pos - 1]@, Some(pid))
        } else {
            linked
        },
        ..s
    }
}

/// The scheduler state `s` after the waiting thread `head` has been
/// unlinked and set `Running` on behalf of the thread running on `core`.
pub open spec fn woken(s: SchedState, head: ThreadId, core: int) -> SchedState {
    (SchedState { blocklist: s.blocklist.update(head@, None), ..s }).set_state(
        core,
        head@,
        ThreadState::Running,
    )
}

/// The scheduler state `s` after the waiting threads `w` have been woken one
/// after the other, the first first.
pub open spec fn drained(s: SchedState, w: Seq<ThreadId>, core: int) -> SchedState
    decreases w.len(),
{
    if w.len() == 0 {
        s
    } else {
        drained(woken(s, w[0], core), w.drop_first(), core)
    }
}

/// Manages the threads that are blocked on a resource.
pub struct ThreadList {
    /// Next thread to run once the resource is available.
    pub head: Option<ThreadId>,
    /// The waiting threads, the next to run first.
    pub waiters: Ghost<Seq<ThreadId>>,
}

impl View for ThreadList {
    type V = Seq<ThreadId>;

    open spec fn view(&self) -> Seq<ThreadId> {
        self.waiters@
    }
}

impl ThreadList {
    /// Whether the list is intact in the scheduler state `s`: its threads are
    /// chained through the links of `s` from the head on, each of them is
    /// blocked, none occurs twice, and none has a higher priority than a
    /// thread before it.
    pub open spec fn wf(&self, s: SchedState) -> bool {
        let w = self@;
        &&& self.head == waiter_at(w, 0)
        &&& forall|i: int|
            0 <= i < w.len() ==> {
                &&& (#[trigger] w[i])@ < THREADS_NUMOF
                &&& s.blocklist[w[i]@] == waiter_at(w, i + 1)
                &&& is_blocked(s.tcbs[w[i]@].state)
            }
        &&& forall|i: int, j: int| 0 <= i < j < w.len() ==> #[trigger] w[i] != #[trigger] w[j]
    }

    /// Whether no thread of the list has a higher priority than a thread
    /// before it. A thread is put into the list where this order asks; the
    /// order then holds as long as the priorities of the waiting threads do
    /// not change.
    pub open spec fn sorted(&self, s: SchedState) -> bool {
        forall|i: int, j: int|
            0 <= i < j < self@.len() ==> s.tcbs[(#[trigger] self@[i])@].prio@ >= s.tcbs[(
            #[trigger] self@[j])@].prio@
    }

    /// The list stays intact when the scheduler state changes, as long as
    /// the links and the states of its threads stay the same; and it stays
    /// in order if their priorities stay the same too.
    pub proof fn lemma_wf_frame(&self, s1: SchedState, s2: SchedState)
        requires
            self.wf(s1),
            forall|i: int|
                0 <= i < self@.len() ==> {
                    let t = (#[trigger] self@[i])@;
                    &&& s2.blocklist[t] == s1.blocklist[t]
                    &&& s2.tcbs[t].state == s1.tcbs[t].state
                },
        ensures
            self.wf(s2),
            self.sorted(s1) && (forall|i: int|
                0 <= i < self@.len() ==> s2.tcbs[(#[trigger] self@[i])@].prio == s1.tcbs[self@[i]@].prio)
                ==> self.sorted(s2),
    {
        let w = self@;
        if self.sorted(s1) && (forall|i: int|
            0 <= i < self@.len() ==> s2.tcbs[(#[trigger] self@[i])@].prio == s1.tcbs[self@[i]@].prio) {
            assert forall|i: int, j: int| 0 <= i < j < w.len() implies s2.tcbs[(
            #[trigger] w[i])@].prio@ >= s2.tcbs[(#[trigger] w[j])@].prio@ by {
                assert(s1.tcbs[w[i]@].prio@ >= s1.tcbs[w[j]@].prio@);
            }
        }
    }

    /// A thread that waits in an intact list is blocked: it exists, and it
    /// is not in the run queue.
    pub proof fn law_waiting_not_queued(&self, s: SchedState, i: int)
        requires
            s.wf(),
            self.wf(s),
            0 <= i < self@.len(),
        ensures
            s.tcbs[self@[i]@].state != ThreadState::Invalid,
            s.tcbs[self@[i]@].state != ThreadState::Running,
            !s.is_queued(self@[i]),
    {
        let t = self@[i];
        if s.is_queued(t) {
            let q = choose|q: int| 0 <= q < s.queues.len() && #[trigger] s.queues[q].contains(t.0);
            assert(s.queues[q].contains(t.0));
        }
    }

    /// The waiting threads are determined by the head of the list and the
    /// links: two intact lists with the same head hold the same threads.
    pub proof fn lemma_view_determined(&self, other: &Self, s: SchedState)
        requires
            self.wf(s),
            other.wf(s),
            self.head == other.head,
        ensures
            self@ == other@,
    {
        let a = self@;
        let b = other@;
        if a.len() <= b.len() {
            Self::lemma_same_prefix(a, b, s, a.len() as int);
            if a.len() < b.len() {
                if a.len() > 0 {
                    assert(s.blocklist[a[a.len() - 1]@] == waiter_at(a, a.len() as int));
                    assert(s.blocklist[b[a.len() - 1]@] == waiter_at(b, a.len() as int));
                }
            }
        } else {
            Self::lemma_same_prefix(b, a, s, b.len() as int);
            if b.len() > 0 {
                assert(s.blocklist[b[b.len() - 1]@] == waiter_at(b, b.len() as int));
                assert(s.blocklist[a[b.len() - 1]@] == waiter_at(a, b.len() as int));
            }
        }
        assert(a =~= b);
    }

    /// Two chains through the same links that start with the same thread
    /// agree as far as the shorter reaches.
    proof fn lemma_same_prefix(a: Seq<ThreadId>, b: Seq<ThreadId>, s: SchedState, k: int)
        requires
            0 <= k <= a.len() <= b.len(),
            waiter_at(a, 0) == waiter_at(b, 0),
            forall|i: int| 0 <= i < a.len() ==> s.blocklist[(#[trigger] a[i])@] == waiter_at(a, i + 1),
            forall|i: int| 0 <= i < b.len() ==> s.blocklist[(#[trigger] b[i])@] == waiter_at(b, i + 1),
        ensures
            forall|i: int| 0 <= i < k ==> a[i] == b[i],
        decreases k,
    {
        if k > 0 {
            Self::lemma_same_prefix(a, b, s, k - 1);
            if k > 1 {
                assert(a[k - 2] == b[k - 2]);
                assert(s.blocklist[a[k - 2]@] == waiter_at(a, k - 1));
                assert(s.blocklist[b[k - 2]@] == waiter_at(b, k - 1));
            }
            assert(a[k - 1] == b[k - 1]);
        }
    }

    /// Creates a new empty [`ThreadList`].
    pub fn new() -> (r: Self)
        ensures
            r@ == Seq::<ThreadId>::empty(),
            r.head.is_none(),
            forall|s: SchedState| r.wf(s) && r.sorted(s),
    {
        Self { head: None, waiters: Ghost(Seq::empty()) }
    }

    /// Determines if this [`ThreadList`] is empty.
    pub fn is_empty(&self) -> (r: bool)
        ensures
            r == self.head.is_none(),
    {
        self.head.is_none()
    }

    /// Puts the thread that is current on `core` into this list and blocks
    /// it in `state`.
    ///
    /// The thread is put behind the waiting threads of the same or a higher
    /// priority. Returns its priority if it has become the head of the list.
    pub fn put_current<const N_CORES: usize>(
        &mut self,
        threads: &mut Threads<N_CORES>,
        core: CoreId,
        state: ThreadState,
    ) -> (r: Option<RunqueueId>)
        requires
            old(threads).wf(),
            old(self).wf(old(threads)@),
            core@ < N_CORES,
            is_blocked(state),
            old(threads)@.dispatched(core@),
        ensures
            final(threads).wf(),
            final(self).wf(final(threads)@),
            old(self).sorted(old(threads)@) ==> final(self).sorted(final(threads)@),
            ({
                let s = old(threads)@;
                let pid = s.current[core@].unwrap();
                let pos = insert_pos(old(self)@, s, s.tcbs[pid@].prio@, 0);
                &&& final(self)@ == old(self)@.insert(pos, pid)
                &&& r == if pos == 0 {
                    Some(s.tcbs[pid@].prio)
                } else {
                    None
                }
                &&& final(threads)@ == linked_in(s, old(self)@, pid, pos).set_state(
                    core@,
                    pid@,
                    state,
                )
            }),
    {
        let ghost s = threads@;
        let ghost w = self@;
        let pid = match threads.current_pid(core) {
            Some(pid) => pid,
            None => {
                return None;
            },
        };
        let prio = threads.get_priority(pid);
        proof {
            lemma_insert_pos(w, s, prio@, 0);
            // The thread runs, so it does not wait in the list.
            assert forall|i: int| 0 <= i < w.len() implies (#[trigger] w[i]) != pid by {}
        }
        let mut curr: Option<ThreadId> = None;
        let mut next: Option<ThreadId> = self.head;
        let ghost mut i: int = 0;
        loop
            invariant_except_break
                insert_pos(w, s, prio@, 0) == insert_pos(w, s, prio@, i),
            invariant
                threads@ == s,
                threads.wf(),
                self.wf(s),
                self@ == w,
                pid@ < THREADS_NUMOF,
                0 <= i <= w.len(),
                next == waiter_at(w, i),
                curr == waiter_at(w, i - 1),
                prio == s.tcbs[pid@].prio,
            ensures
                i == insert_pos(w, s, prio@, 0),
            decreases w.len() - i,
        {
            let n = match next {
                Some(n) => n,
                None => {
                    break ;
                },
            };
            proof {
                assert(w[i] == n);
            }
            if threads.get_priority(n).0 < prio.0 {
                break ;
            }
            curr = next;
            next = threads.inner.thread_blocklist[n.0 as usize];
            proof {
                i = i + 1;
            }
        }
        threads.inner.thread_blocklist[pid.0 as usize] = next;
        let inherit_priority = match curr {
            Some(curr) => {
                proof {
                    assert(w[i - 1] == curr);
                }
                threads.inner.thread_blocklist[curr.0 as usize] = Some(pid);
                None
            },
            None => {
                self.head = Some(pid);
                Some(prio)
            },
        };
        self.waiters = Ghost(w.insert(i, pid));
        proof {
            let s1 = linked_in(s, w, pid, i);
            assert(threads@.blocklist =~= s1.blocklist);
            assert(threads@ == s1);
            Self::lemma_linked_in(s, w, pid, i);
            Self::lemma_put_linked(*old(self), *self, s, pid, i);
        }
        threads.set_state(core, pid, state);
        proof {
            Self::lemma_put_blocked(*self, linked_in(s, w, pid, i), threads@, i, state);
            if old(self).sorted(s) {
                Self::lemma_put_order(w, s, pid, i);
                let w2 = self@;
                let s2 = threads@;
                assert forall|a: int, b: int| 0 <= a < b < w2.len() implies s2.tcbs[(
                #[trigger] w2[a])@].prio@ >= s2.tcbs[(#[trigger] w2[b])@].prio@ by {
                    assert(s.tcbs[w2[a]@].prio@ >= s.tcbs[w2[b]@].prio@);
                }
            }
        }
        inherit_priority
    }

    /// A list into which a thread has been linked at the position where it
    /// belongs is intact but for the state of the thread.
    pub proof fn lemma_put_linked(l0: Self, l1: Self, s: SchedState, pid: ThreadId, pos: int)
        requires
            l0.wf(s),
            s.wf_table(),
            pid@ < THREADS_NUMOF,
            forall|i: int| 0 <= i < l0@.len() ==> (#[trigger] l0@[i]) != pid,
            pos == insert_pos(l0@, s, s.tcbs[pid@].prio@, 0),
            l1@ == l0@.insert(pos, pid),
            l1.head == if pos == 0 {
                Some(pid)
            } else {
                l0.head
            },
        ensures
            l1.wf_but_blocked(linked_in(s, l0@, pid, pos), pos),
    {
        let w = l0@;
        let w2 = l1@;
        lemma_insert_pos(w, s, s.tcbs[pid@].prio@, 0);
        Self::lemma_put_links(w, s, pid, pos);
        Self::lemma_put_distinct(w, pid, pos);
        if pos > 0 {
            assert(w2[0] == w[0]);
        }
    }

    /// The links of a list into which a thread has been linked.
    proof fn lemma_put_links(w: Seq<ThreadId>, s: SchedState, pid: ThreadId, pos: int)
        requires
            s.wf_table(),
            pid@ < THREADS_NUMOF,
            0 <= pos <= w.len(),
            forall|i: int| 0 <= i < w.len() ==> (#[trigger] w[i]) != pid,
            forall|i: int|
                0 <= i < w.len() ==> {
                    &&& (#[trigger] w[i])@ < THREADS_NUMOF
                    &&& s.blocklist[w[i]@] == waiter_at(w, i + 1)
                    &&& is_blocked(s.tcbs[w[i]@].state)
                },
            forall|i: int, j: int| 0 <= i < j < w.len() ==> #[trigger] w[i] != #[trigger] w[j],
        ensures
            forall|k: int|
                0 <= k < w.insert(pos, pid).len() ==> {
                    &&& (#[trigger] w.insert(pos, pid)[k])@ < THREADS_NUMOF
                    &&& linked_in(s, w, pid, pos).blocklist[w.insert(pos, pid)[k]@] == waiter_at(
                        w.insert(pos, pid),
                        k + 1,
                    )
                    &&& (k != pos ==> is_blocked(
                        linked_in(s, w, pid, pos).tcbs[w.insert(pos, pid)[k]@].state,
                    ))
                },
    {
        let w2 = w.insert(pos, pid);
        let s1 = linked_in(s, w, pid, pos);
        let i = pos;
        assert forall|k: int| 0 <= k < w2.len() implies {
            &&& (#[trigger] w2[k])@ < THREADS_NUMOF
            &&& s1.blocklist[w2[k]@] == waiter_at(w2, k + 1)
            &&& (k != i ==> is_blocked(s1.tcbs[w2[k]@].state))
        } by {
            if k < i {
                assert(w2[k] == w[k]);
                assert(w[k] != pid);
                if k + 1 < i {
                    assert(w2[k + 1] == w[k + 1]);
                    assert(w[k] != w[i - 1]);
                }
            } else if k > i {
                assert(w2[k] == w[k - 1]);
                assert(w[k - 1] != pid);
                if i > 0 {
                    assert(w[i - 1] != w[k - 1]);
                }
                if k + 1 < w2.len() {
                    assert(w2[k + 1] == w[k]);
                }
            } else {
                if i < w.len() {
                    assert(w2[i + 1] == w[i]);
                }
                if i > 0 {
                    assert(w[i - 1] != pid);
                }
            }
        }
    }

    /// The threads of a list into which a thread that was not in it has
    /// been put are distinct.
    proof fn lemma_put_distinct(w: Seq<ThreadId>, pid: ThreadId, pos: int)
        requires
            0 <= pos <= w.len(),
            forall|i: int| 0 <= i < w.len() ==> (#[trigger] w[i]) != pid,
            forall|i: int, j: int| 0 <= i < j < w.len() ==> #[trigger] w[i] != #[trigger] w[j],
        ensures
            forall|a: int, b: int|
                0 <= a < b < w.insert(pos, pid).len() ==> #[trigger] w.insert(pos, pid)[a]
                    != #[trigger] w.insert(pos, pid)[b],
    {
        let w2 = w.insert(pos, pid);
        let i = pos;
        assert forall|a: int, b: int| 0 <= a < b < w2.len() implies #[trigger] w2[a]
            != #[trigger] w2[b] by {
            let a0 = if a < i {
                a
            } else {
                a - 1
            };
            let b0 = if b < i {
                b
            } else {
                b - 1
            };
            if a != i && b != i {
                assert(w2[a] == w[a0] && w2[b] == w[b0]);
                assert(w[a0] != w[b0]);
            } else if a == i {
                assert(w2[b] == w[b0]);
                assert(w[b0] != pid);
            } else {
                assert(w2[a] == w[a0]);
                assert(w[a0] != pid);
            }
        }
    }

    /// The threads of a list that was in order, into which a thread has
    /// been put where it belongs, are in order.
    proof fn lemma_put_order(w: Seq<ThreadId>, s: SchedState, pid: ThreadId, pos: int)
        requires
            pos == insert_pos(w, s, s.tcbs[pid@].prio@, 0),
            forall|i: int, j: int|
                0 <= i < j < w.len() ==> s.tcbs[(#[trigger] w[i])@].prio@ >= s.tcbs[(
                #[trigger] w[j])@].prio@,
        ensures
            forall|a: int, b: int|
                0 <= a < b < w.insert(pos, pid).len() ==> s.tcbs[(#[trigger] w.insert(
                    pos,
                    pid,
                )[a])@].prio@ >= s.tcbs[(#[trigger] w.insert(pos, pid)[b])@].prio@,
    {
        let w2 = w.insert(pos, pid);
        let i = pos;
        let prio = s.tcbs[pid@].prio;
        lemma_insert_pos(w, s, prio@, 0);
        assert forall|a: int, b: int| 0 <= a < b < w2.len() implies s.tcbs[(#[trigger] w2[a])@].prio@
            >= s.tcbs[(#[trigger] w2[b])@].prio@ by {
            let a0 = if a < i {
                a
            } else {
                a - 1
            };
            let b0 = if b < i {
                b
            } else {
                b - 1
            };
            if a != i && b != i {
                assert(w2[a] == w[a0] && w2[b] == w[b0]);
                assert(s.tcbs[w[a0]@].prio@ >= s.tcbs[w[b0]@].prio@);
            } else if a == i {
                assert(w2[b] == w[b0]);
                assert(s.tcbs[w[i]@].prio@ < prio@);
                if b0 > i {
                    assert(s.tcbs[w[i]@].prio@ >= s.tcbs[w[b0]@].prio@);
                }
            } else {
                assert(w2[a] == w[a0]);
                assert(s.tcbs[w[a0]@].prio@ >= prio@);
            }
        }
    }

    /// Once the thread that has been linked in is blocked, the list is
    /// intact.
    pub proof fn lemma_put_blocked(
        l1: Self,
        s1: SchedState,
        s2: SchedState,
        pos: int,
        state: ThreadState,
    )
        requires
            0 <= pos < l1@.len(),
            l1.wf_but_blocked(s1, pos),
            s1.wf_table(),
            is_blocked(state),
            s2.blocklist == s1.blocklist,
            s2.tcbs == s1.tcbs.update(
                l1@[pos]@,
                crate::thread::Thread { state: state, ..s1.tcbs[l1@[pos]@] },
            ),
        ensures
            l1.wf(s2),
    {
        let w2 = l1@;
        assert forall|k: int| 0 <= k < w2.len() implies is_blocked(
            s2.tcbs[(#[trigger] w2[k])@].state,
        ) by {
            if k < pos {
                assert(w2[k] != w2[pos]);
            } else if k > pos {
                assert(w2[pos] != w2[k]);
            }
        }
    }

    /// What holds of the list while the thread at position `at` has been
    /// linked in and is not yet blocked.
    pub open spec fn wf_but_blocked(&self, s: SchedState, at: int) -> bool {
        let w = self@;
        &&& self.head == waiter_at(w, 0)
        &&& forall|i: int|
            0 <= i < w.len() ==> {
                &&& (#[trigger] w[i])@ < THREADS_NUMOF
                &&& s.blocklist[w[i]@] == waiter_at(w, i + 1)
                &&& (i != at ==> is_blocked(s.tcbs[w[i]@].state))
            }
        &&& forall|i: int, j: int| 0 <= i < j < w.len() ==> #[trigger] w[i] != #[trigger] w[j]
    }

    /// Linking a thread into a list keeps the invariant of the scheduler
    /// state, and the thread stays dispatched.
    pub proof fn lemma_linked_in(s: SchedState, w: Seq<ThreadId>, pid: ThreadId, pos: int)
        requires
            s.wf(),
            pid@ < THREADS_NUMOF,
            0 <= pos <= w.len(),
            forall|i: int| 0 <= i < w.len() ==> (#[trigger] w[i])@ < THREADS_NUMOF,
        ensures
            linked_in(s, w, pid, pos).wf(),
            forall|core: int| s.dispatched(core) ==> linked_in(s, w, pid, pos).dispatched(core),
    {
        let post = linked_in(s, w, pid, pos);
        assert forall|t: int| 0 <= t < THREADS_NUMOF implies exists|c: int|
            0 <= c < post.current.len() && (#[trigger] post.tcbs[t]).core_affinity.allows(c) by {
            let c = choose|c: int|
                0 <= c < s.current.len() && (#[trigger] s.tcbs[t]).core_affinity.allows(c);
        }
        if pos > 0 {
            assert(w[pos - 1]@ < THREADS_NUMOF);
        }
        if pos < w.len() {
            assert(w[pos]@ < THREADS_NUMOF);
        }
        assert forall|t: int| 0 <= t < THREADS_NUMOF implies (#[trigger] post.blocklist[t] matches Some(
            n,
        ) ==> n@ < THREADS_NUMOF) by {
            assert(s.blocklist[t] matches Some(n) ==> n@ < THREADS_NUMOF);
        }
        assert forall|q: int, m: u8|
            0 <= q < crate::model::SCHED_PRIO_LEVELS && #[trigger] post.queues[q].contains(
                m,
            ) implies m < THREADS_NUMOF && post.tcbs[m as int].state == ThreadState::Running
            && post.tcbs[m as int].prio@ == q by {
            assert(s.queues[q].contains(m));
        }
        assert forall|t: int|
            0 <= t < THREADS_NUMOF && (#[trigger] post.tcbs[t]).state
                == ThreadState::Running implies post.is_queued(ThreadId(t as u8)) || (post.n_cores()
            > 1 && post.is_current(ThreadId(t as u8))) by {
            SchedState::lemma_running_kept(s, post, t);
        }
    }

    /// Removes the head from this [`ThreadList`].
    ///
    /// Sets the thread's state to `Running`, which may request a
    /// reschedule.
    ///
    /// Returns the thread and its previous state; `None` if the list is
    /// empty.
    pub fn pop<const N_CORES: usize>(&mut self, threads: &mut Threads<N_CORES>, core: CoreId) -> (r:
        Option<(ThreadId, ThreadState)>)
        requires
            old(threads).wf(),
            old(self).wf(old(threads)@),
            core@ < N_CORES,
        ensures
            final(threads).wf(),
            final(self).wf(final(threads)@),
            old(self).sorted(old(threads)@) ==> final(self).sorted(final(threads)@),
            old(self)@.len() == 0 ==> r.is_none() && final(self)@ == old(self)@ && final(threads)@
                == old(threads)@,
            old(self)@.len() > 0 ==> {
                let s = old(threads)@;
                let head = old(self)@[0];
                &&& r == Some((head, s.tcbs[head@].state))
                &&& final(self)@ == old(self)@.drop_first()
                &&& final(threads)@ == woken(s, head, core@)
            },
    {
        let ghost s = threads@;
        let ghost w = self@;
        let head = match self.head {
            Some(head) => head,
            None => {
                return None;
            },
        };
        proof {
            assert(w[0] == head);
        }
        self.head = threads.inner.thread_blocklist[head.0 as usize];
        threads.inner.thread_blocklist[head.0 as usize] = None;
        self.waiters = Ghost(w.drop_first());
        let ghost s1 = SchedState { blocklist: s.blocklist.update(head@, None), ..s };
        proof {
            assert(threads@.blocklist =~= s1.blocklist);
            assert(threads@ == s1);
            Self::lemma_unlinked(s, head);
        }
        let old_state = threads.set_state(core, head, ThreadState::Running);
        proof {
            Self::lemma_popped(*old(self), *self, s, threads@);
        }
        Some((head, old_state))
    }

    /// Clearing the link of a thread keeps the invariant of the scheduler
    /// state.
    pub proof fn lemma_unlinked(s: SchedState, head: ThreadId)
        requires
            s.wf(),
            head@ < THREADS_NUMOF,
        ensures
            (SchedState { blocklist: s.blocklist.update(head@, None), ..s }).wf(),
    {
        let s1 = SchedState { blocklist: s.blocklist.update(head@, None), ..s };
        assert forall|t: int| 0 <= t < THREADS_NUMOF implies exists|c: int|
            0 <= c < s1.current.len() && (#[trigger] s1.tcbs[t]).core_affinity.allows(c) by {
            let c = choose|c: int|
                0 <= c < s.current.len() && (#[trigger] s.tcbs[t]).core_affinity.allows(c);
        }
        assert forall|t: int| 0 <= t < THREADS_NUMOF implies (#[trigger] s1.blocklist[t] matches Some(
            n,
        ) ==> n@ < THREADS_NUMOF) by {
            assert(s.blocklist[t] matches Some(n) ==> n@ < THREADS_NUMOF);
        }
        assert forall|q: int, m: u8|
            0 <= q < crate::model::SCHED_PRIO_LEVELS && #[trigger] s1.queues[q].contains(m) implies m
            < THREADS_NUMOF && s1.tcbs[m as int].state == ThreadState::Running
            && s1.tcbs[m as int].prio@ == q by {
            assert(s.queues[q].contains(m));
        }
        assert forall|t: int|
            0 <= t < THREADS_NUMOF && (#[trigger] s1.tcbs[t]).state
                == ThreadState::Running implies s1.is_queued(ThreadId(t as u8)) || (s1.n_cores() > 1
            && s1.is_current(ThreadId(t as u8))) by {
            SchedState::lemma_running_kept(s, s1, t);
        }
    }

    /// A list without its head is intact once the head has been unlinked
    /// and runs again.
    pub proof fn lemma_popped(l0: Self, l1: Self, s: SchedState, s2: SchedState)
        requires
            l0.wf(s),
            s.wf_table(),
            l0@.len() > 0,
            l1@ == l0@.drop_first(),
            l1.head == s.blocklist[l0@[0]@],
            s2.blocklist == s.blocklist.update(l0@[0]@, None),
            s2.tcbs == s.tcbs.update(
                l0@[0]@,
                crate::thread::Thread { state: ThreadState::Running, ..s.tcbs[l0@[0]@] },
            ),
        ensures
            l1.wf(s2),
            l0.sorted(s) ==> l1.sorted(s2),
    {
        let w = l0@;
        let w2 = l1@;
        assert(w[0]@ < THREADS_NUMOF);
        assert forall|k: int| 0 <= k < w2.len() implies {
            &&& (#[trigger] w2[k])@ < THREADS_NUMOF
            &&& s2.blocklist[w2[k]@] == waiter_at(w2, k + 1)
            &&& is_blocked(s2.tcbs[w2[k]@].state)
        } by {
            assert(w2[k] == w[k + 1]);
            assert(w[0] != w[k + 1]);
            if k + 1 < w2.len() {
                assert(w2[k + 1] == w[k + 2]);
            }
        }
        assert forall|a: int, b: int| 0 <= a < b < w2.len() implies #[trigger] w2[a]
            != #[trigger] w2[b] by {
            assert(w2[a] == w[a + 1] && w2[b] == w[b + 1]);
            assert(w[a + 1] != w[b + 1]);
        }
        if l0.sorted(s) {
            assert forall|a: int, b: int| 0 <= a < b < w2.len() implies s2.tcbs[(
            #[trigger] w2[a])@].prio@ >= s2.tcbs[(#[trigger] w2[b])@].prio@ by {
                assert(w2[a] == w[a + 1] && w2[b] == w[b + 1]);
                assert(w[0] != w[a + 1]);
                assert(w[0] != w[b + 1]);
                assert(s.tcbs[w[a + 1]@].prio@ >= s.tcbs[w[b + 1]@].prio@);
            }
        }
        if w2.len() > 0 {
            assert(w2[0] == w[1]);
        }
    }

    /// Removes all threads from this [`ThreadList`], the head first, and
    /// sets each of them `Running`.
    pub fn drain<const N_CORES: usize>(&mut self, threads: &mut Threads<N_CORES>, core: CoreId)
        requires
            old(threads).wf(),
            old(self).wf(old(threads)@),
            core@ < N_CORES,
        ensures
            final(threads).wf(),
            final(self).wf(final(threads)@),
            final(self)@.len() == 0,
            final(threads)@ == drained(old(threads)@, old(self)@, core@),
    {
        loop
            invariant
                threads.wf(),
                self.wf(threads@),
                core@ < N_CORES,
                drained(old(threads)@, old(self)@, core@) == drained(threads@, self@, core@),
            ensures
                self@.len() == 0,
            decreases self@.len(),
        {
            if self.pop(threads, core).is_none() {
                break ;
            }
        }
    }
}

} // verus!
