//! A synchronous channel without buffer: sender and receiver meet, and the
//! one that arrives first blocks until the other appears.
//!
//! The value itself does not pass through this module. A thread that blocks
//! leaves the address of its value, or of the place for it, in its state;
//! the thread that finds it waiting is told both addresses and copies the
//! value before it goes on.
use vstd::prelude::*;
use crate::ids::{CoreId, ThreadId};
use crate::model::{SchedState, THREADS_NUMOF};
use crate::thread::ThreadState;
use crate::threadlist::{insert_pos, linked_in, woken, ThreadList};
use crate::threads::Threads;

verus! {

/// The state of a channel.
pub enum ChannelState {
    /// No thread waits.
    Idle,
    /// These threads wait to send. Each is blocked in the state
    /// `ChannelTxBlocked`, with the address of its value.
    SendersWaiting(ThreadList),
    /// These threads wait to receive. Each is blocked in the state
    /// `ChannelRxBlocked`, with the address of the place for the value.
    ReceiversWaiting(ThreadList),
}

/// The copy that completes an exchange: the value at `src` belongs at `dst`.
/// `partner` is the thread that was waiting and now runs again.
#[derive(Copy, Clone, PartialEq, Eq, Debug, Structural)]
pub struct Transfer {
    pub partner: ThreadId,
    pub src: usize,
    pub dst: usize,
}

/// A rendez-vous channel.
pub struct Channel {
    pub state: ChannelState,
}

impl Channel {
    /// The threads that wait to send, the first to be served first.
    pub open spec fn senders(&self) -> Seq<ThreadId> {
        match self.state {
            ChannelState::SendersWaiting(waiters) => waiters@,
            _ => Seq::empty(),
        }
    }

    /// The threads that wait to receive, the first to be served first.
    pub open spec fn receivers(&self) -> Seq<ThreadId> {
        match self.state {
            ChannelState::ReceiversWaiting(waiters) => waiters@,
            _ => Seq::empty(),
        }
    }

    /// Whether the channel is intact in the scheduler state `s`: a list of
    /// waiting threads is not empty, and each of its threads is blocked as a
    /// sender or as a receiver, as the list says.
    pub open spec fn wf(&self, s: SchedState) -> bool {
        match self.state {
            ChannelState::Idle => true,
            ChannelState::SendersWaiting(waiters) => {
                &&& waiters.wf(s)
                &&& waiters@.len() > 0
                &&& forall|i: int|
                    0 <= i < waiters@.len() ==> s.tcbs[(
                    #[trigger] waiters@[i])@].state is ChannelTxBlocked
            },
            ChannelState::ReceiversWaiting(waiters) => {
                &&& waiters.wf(s)
                &&& waiters@.len() > 0
                &&& forall|i: int|
                    0 <= i < waiters@.len() ==> s.tcbs[(
                    #[trigger] waiters@[i])@].state is ChannelRxBlocked
            },
        }
    }

    /// At no time do both senders and receivers wait.
    pub proof fn law_one_side_waits(&self)
        ensures
            self.senders().len() == 0 || self.receivers().len() == 0,
    {
    }

    /// Creates a channel on which no thread waits.
    pub fn new() -> (r: Self)
        ensures
            r.state is Idle,
            forall|s: SchedState| r.wf(s),
    {
        Channel { state: ChannelState::Idle }
    }

    /// Takes the first of the waiting threads `waiters` as the partner of an
    /// exchange, and says whether threads are left.
    fn take_partner<const N_CORES: usize>(
        waiters: &mut ThreadList,
        threads: &mut Threads<N_CORES>,
        core: CoreId,
    ) -> (r: (ThreadId, ThreadState, bool))
        requires
            old(threads).wf(),
            old(waiters).wf(old(threads)@),
            old(waiters)@.len() > 0,
            core@ < N_CORES,
        ensures
            final(threads).wf(),
            final(waiters).wf(final(threads)@),
            r.0 == old(waiters)@[0],
            r.1 == old(threads)@.tcbs[r.0@].state,
            r.2 == (old(waiters)@.len() > 1),
            final(waiters)@ == old(waiters)@.drop_first(),
            final(threads)@ == woken(old(threads)@, old(waiters)@[0], core@),
            forall|i: int|
                0 <= i < final(waiters)@.len() ==> final(threads)@.tcbs[(
                #[trigger] final(waiters)@[i])@].state == old(threads)@.tcbs[final(waiters)@[i]@].state,
    {
        let ghost w0 = waiters@;
        let ghost s = threads@;
        let popped = waiters.pop(threads, core);
        proof {
            assert(w0[0]@ < THREADS_NUMOF);
            assert forall|i: int| 0 <= i < waiters@.len() implies threads@.tcbs[(
            #[trigger] waiters@[i])@].state == s.tcbs[waiters@[i]@].state by {
                assert(waiters@[i] == w0[i + 1]);
                assert(w0[0] != w0[i + 1]);
            }
        }
        match popped {
            Some((partner, state)) => (partner, state, !waiters.is_empty()),
            None => (ThreadId(0), ThreadState::Invalid, false),
        }
    }

    /// Sends the value at the address `src` on behalf of the thread that is
    /// current on `core`.
    ///
    /// If a receiver waits, it runs again, and the transfer that is returned
    /// says where the value is to be copied to. Otherwise the thread blocks
    /// as a sender and `None` is returned; a receiver will have copied the
    /// value when the thread runs again.
    pub fn send<const N_CORES: usize>(
        &mut self,
        threads: &mut Threads<N_CORES>,
        core: CoreId,
        src: usize,
    ) -> (r: Option<Transfer>)
        requires
            old(threads).wf(),
            old(self).wf(old(threads)@),
            core@ < N_CORES,
            old(threads)@.dispatched(core@),
        ensures
            final(threads).wf(),
            final(self).wf(final(threads)@),
            r is Some <==> old(self).receivers().len() > 0,
            old(self).receivers().len() > 0 ==> {
                let partner = old(self).receivers()[0];
                &&& r == Some(
                    Transfer {
                        partner: partner,
                        src: src,
                        dst: old(threads)@.tcbs[partner@].state->ChannelRxBlocked_0,
                    },
                )
                &&& final(self).receivers() == old(self).receivers().drop_first()
                &&& final(self).senders().len() == 0
                &&& final(threads)@ == woken(old(threads)@, partner, core@)
            },
            old(self).receivers().len() == 0 ==> {
                let s = old(threads)@;
                let pid = s.current[core@].unwrap();
                let pos = insert_pos(old(self).senders(), s, s.tcbs[pid@].prio@, 0);
                &&& final(self).senders() == old(self).senders().insert(pos, pid)
                &&& final(self).receivers().len() == 0
                &&& final(threads)@ == linked_in(s, old(self).senders(), pid, pos).set_state(
                    core@,
                    pid@,
                    ThreadState::ChannelTxBlocked(src),
                )
            },
    {
        let ghost s = threads@;
        let ghost pid = s.current[core@].unwrap();
        match &mut self.state {
            ChannelState::Idle => {
                let mut waiters = ThreadList::new();
                waiters.put_current(threads, core, ThreadState::ChannelTxBlocked(src));
                proof {
                    assert(waiters@[0] == pid);
                }
                self.state = ChannelState::SendersWaiting(waiters);
                None
            },
            ChannelState::SendersWaiting(waiters) => {
                let ghost w0 = waiters@;
                let ghost pos = insert_pos(w0, s, s.tcbs[pid@].prio@, 0);
                waiters.put_current(threads, core, ThreadState::ChannelTxBlocked(src));
                proof {
                    crate::threadlist::lemma_insert_pos(w0, s, s.tcbs[pid@].prio@, 0);
                    Self::lemma_members_kept(
                        w0,
                        waiters@,
                        pid,
                        pos,
                        s,
                        threads@,
                        ThreadState::ChannelTxBlocked(src),
                    );
                }
                None
            },
            ChannelState::ReceiversWaiting(waiters) => {
                let (partner, state, more) = Self::take_partner(waiters, threads, core);
                let dst = match state {
                    ThreadState::ChannelRxBlocked(ptr) => ptr,
                    _ => 0,
                };
                if !more {
                    self.state = ChannelState::Idle;
                }
                Some(Transfer { partner: partner, src: src, dst: dst })
            },
        }
    }

    /// Receives a value into the place at the address `dst` on behalf of the
    /// thread that is current on `core`.
    ///
    /// If a sender waits, it runs again, and the transfer that is returned
    /// says where the value is to be copied from. Otherwise the thread
    /// blocks as a receiver and `None` is returned; a sender will have
    /// copied the value when the thread runs again.
    pub fn recv<const N_CORES: usize>(
        &mut self,
        threads: &mut Threads<N_CORES>,
        core: CoreId,
        dst: usize,
    ) -> (r: Option<Transfer>)
        requires
            old(threads).wf(),
            old(self).wf(old(threads)@),
            core@ < N_CORES,
            old(threads)@.dispatched(core@),
        ensures
            final(threads).wf(),
            final(self).wf(final(threads)@),
            r is Some <==> old(self).senders().len() > 0,
            old(self).senders().len() > 0 ==> {
                let partner = old(self).senders()[0];
                &&& r == Some(
                    Transfer {
                        partner: partner,
                        src: old(threads)@.tcbs[partner@].state->ChannelTxBlocked_0,
                        dst: dst,
                    },
                )
                &&& final(self).senders() == old(self).senders().drop_first()
                &&& final(self).receivers().len() == 0
                &&& final(threads)@ == woken(old(threads)@, partner, core@)
            },
            old(self).senders().len() == 0 ==> {
                let s = old(threads)@;
                let pid = s.current[core@].unwrap();
                let pos = insert_pos(old(self).receivers(), s, s.tcbs[pid@].prio@, 0);
                &&& final(self).receivers() == old(self).receivers().insert(pos, pid)
                &&& final(self).senders().len() == 0
                &&& final(threads)@ == linked_in(s, old(self).receivers(), pid, pos).set_state(
                    core@,
                    pid@,
                    ThreadState::ChannelRxBlocked(dst),
                )
            },
    {
        let ghost s = threads@;
        let ghost pid = s.current[core@].unwrap();
        match &mut self.state {
            ChannelState::Idle => {
                let mut waiters = ThreadList::new();
                waiters.put_current(threads, core, ThreadState::ChannelRxBlocked(dst));
                proof {
                    assert(waiters@[0] == pid);
                }
                self.state = ChannelState::ReceiversWaiting(waiters);
                None
            },
            ChannelState::ReceiversWaiting(waiters) => {
                let ghost w0 = waiters@;
                let ghost pos = insert_pos(w0, s, s.tcbs[pid@].prio@, 0);
                waiters.put_current(threads, core, ThreadState::ChannelRxBlocked(dst));
                proof {
                    crate::threadlist::lemma_insert_pos(w0, s, s.tcbs[pid@].prio@, 0);
                    Self::lemma_members_kept(
                        w0,
                        waiters@,
                        pid,
                        pos,
                        s,
                        threads@,
                        ThreadState::ChannelRxBlocked(dst),
                    );
                }
                None
            },
            ChannelState::SendersWaiting(waiters) => {
                let (partner, state, more) = Self::take_partner(waiters, threads, core);
                let src = match state {
                    ThreadState::ChannelTxBlocked(ptr) => ptr,
                    _ => 0,
                };
                if !more {
                    self.state = ChannelState::Idle;
                }
                Some(Transfer { partner: partner, src: src, dst: dst })
            },
        }
    }

    /// Sends the value at the address `src` if a receiver waits. Nothing
    /// happens, and `None` is returned, if none does: the thread does not
    /// block.
    pub fn try_send<const N_CORES: usize>(
        &mut self,
        threads: &mut Threads<N_CORES>,
        core: CoreId,
        src: usize,
    ) -> (r: Option<Transfer>)
        requires
            old(threads).wf(),
            old(self).wf(old(threads)@),
            core@ < N_CORES,
        ensures
            final(threads).wf(),
            final(self).wf(final(threads)@),
            r is Some <==> old(self).receivers().len() > 0,
            old(self).receivers().len() > 0 ==> {
                let partner = old(self).receivers()[0];
                &&& r == Some(
                    Transfer {
                        partner: partner,
                        src: src,
                        dst: old(threads)@.tcbs[partner@].state->ChannelRxBlocked_0,
                    },
                )
                &&& final(self).receivers() == old(self).receivers().drop_first()
                &&& final(self).senders().len() == 0
                &&& final(threads)@ == woken(old(threads)@, partner, core@)
            },
            old(self).receivers().len() == 0 ==> final(self).state == old(self).state && final(threads)@ == old(threads)@,
    {
        match &mut self.state {
            ChannelState::ReceiversWaiting(waiters) => {
                let (partner, state, more) = Self::take_partner(waiters, threads, core);
                let dst = match state {
                    ThreadState::ChannelRxBlocked(ptr) => ptr,
                    _ => 0,
                };
                if !more {
                    self.state = ChannelState::Idle;
                }
                Some(Transfer { partner: partner, src: src, dst: dst })
            },
            _ => None,
        }
    }

    /// Receives a value into the place at the address `dst` if a sender
    /// waits. Nothing happens, and `None` is returned, if none does: the
    /// thread does not block.
    pub fn try_recv<const N_CORES: usize>(
        &mut self,
        threads: &mut Threads<N_CORES>,
        core: CoreId,
        dst: usize,
    ) -> (r: Option<Transfer>)
        requires
            old(threads).wf(),
            old(self).wf(old(threads)@),
            core@ < N_CORES,
        ensures
            final(threads).wf(),
            final(self).wf(final(threads)@),
            r is Some <==> old(self).senders().len() > 0,
            old(self).senders().len() > 0 ==> {
                let partner = old(self).senders()[0];
                &&& r == Some(
                    Transfer {
                        partner: partner,
                        src: old(threads)@.tcbs[partner@].state->ChannelTxBlocked_0,
                        dst: dst,
                    },
                )
                &&& final(self).senders() == old(self).senders().drop_first()
                &&& final(self).receivers().len() == 0
                &&& final(threads)@ == woken(old(threads)@, partner, core@)
            },
            old(self).senders().len() == 0 ==> final(self).state == old(self).state && final(threads)@ == old(threads)@,
    {
        match &mut self.state {
            ChannelState::SendersWaiting(waiters) => {
                let (partner, state, more) = Self::take_partner(waiters, threads, core);
                let src = match state {
                    ThreadState::ChannelTxBlocked(ptr) => ptr,
                    _ => 0,
                };
                if !more {
                    self.state = ChannelState::Idle;
                }
                Some(Transfer { partner: partner, src: src, dst: dst })
            },
            _ => None,
        }
    }

    /// The threads that were waiting are in the state in which they were,
    /// after one more thread has been put on the list.
    proof fn lemma_members_kept(
        w0: Seq<ThreadId>,
        w: Seq<ThreadId>,
        pid: ThreadId,
        pos: int,
        s: SchedState,
        s2: SchedState,
        state: ThreadState,
    )
        requires
            0 <= pos <= w0.len(),
            w == w0.insert(pos, pid),
            forall|i: int| 0 <= i < w0.len() ==> (#[trigger] w0[i])@ < THREADS_NUMOF && w0[i] != pid,
            pid@ < THREADS_NUMOF,
            s.tcbs.len() == THREADS_NUMOF,
            s2.tcbs == linked_in(s, w0, pid, pos).tcbs.update(
                pid@,
                crate::thread::Thread { state: state, ..s.tcbs[pid@] },
            ),
        ensures
            forall|i: int|
                0 <= i < w.len() && i != pos ==> s2.tcbs[(#[trigger] w[i])@].state == s.tcbs[w[i]@].state,
            forall|i: int|
                0 <= i < w.len() && i != pos ==> exists|j: int|
                    0 <= j < w0.len() && w0[j] == #[trigger] w[i],
            w[pos] == pid,
    {
        assert forall|i: int| 0 <= i < w.len() && i != pos implies s2.tcbs[(#[trigger] w[i])@].state
            == s.tcbs[w[i]@].state && exists|j: int| 0 <= j < w0.len() && w0[j] == w[i] by {
            let j = if i < pos {
                i
            } else {
                i - 1
            };
            assert(w[i] == w0[j]);
        }
    }
}

} // verus!
