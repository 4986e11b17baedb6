//! The thread control block and the states of a thread.
use vstd::prelude::*;
use crate::ids::{CoreId, RunqueueId, ThreadId};

verus! {

/// Bitmask of the flags that are set for a thread.
pub type ThreadFlags = u16;

/// The two ways of waiting for thread flags.
#[derive(Copy, Clone, PartialEq, Eq, Debug, Structural)]
pub enum WaitMode {
    /// Wait until any flag of the mask is set.
    Any(ThreadFlags),
    /// Wait until all flags of the mask are set.
    All(ThreadFlags),
}

/// The states of a thread.
///
/// Any state but `Invalid` can move to `Running`; `Running` can move to any
/// other state.
#[derive(Copy, Clone, PartialEq, Eq, Debug, Structural)]
pub enum ThreadState {
    /// The slot is free.
    Invalid,
    /// The thread is runnable, or runs.
    Running,
    /// The thread has suspended itself.
    Parked,
    /// The thread waits for a lock, a mutex or a semaphore.
    LockBlocked,
    /// The thread waits on a condition variable.
    CondVarBlocked,
    /// The thread waits for thread flags.
    FlagBlocked(WaitMode),
    /// The thread waits for a sender; the payload is the address to which
    /// the value is to be copied.
    ChannelRxBlocked(usize),
    /// The thread waits for a receiver; the payload is the address from which
    /// the value is to be copied.
    ChannelTxBlocked(usize),
}

/// The set of cores on which a thread may run, as a bitmask: bit `c` stands
/// for core `c`.
#[derive(Copy, Clone, PartialEq, Eq, Debug, Structural)]
pub struct CoreAffinity(pub u8);

impl CoreAffinity {
    /// Whether the mask allows core `core`.
    pub open spec fn allows(&self, core: int) -> bool {
        0 <= core < 8 && (self.0 >> (core as u8)) & 1 == 1
    }

    /// Allows a thread to run on every core.
    pub fn no_affinity() -> (r: Self)
        ensures
            r == CoreAffinity(0xFF),
            forall|c: int| 0 <= c < 8 ==> r.allows(c),
    {
        proof {
            assert forall|c: int| 0 <= c < 8 implies CoreAffinity(0xFF).allows(c) by {
                let s: u8 = c as u8;
                assert((0xFFu8 >> s) & 1 == 1) by (bit_vector)
                    requires
                        s < 8,
                ;
            }
        }
        CoreAffinity(0xFF)
    }

    /// Restricts a thread to the one core `core`.
    pub fn one(core: CoreId) -> (r: Self)
        requires
            core@ < 8,
        ensures
            forall|c: int| r.allows(c) <==> c == core@,
    {
        let r = CoreAffinity(1u8 << core.0);
        proof {
            assert forall|c: int| r.allows(c) <==> c == core@ by {
                if 0 <= c < 8 {
                    let s: u8 = c as u8;
                    let k: u8 = core.0;
                    assert((((1u8 << k) >> s) & 1 == 1) <==> s == k) by (bit_vector)
                        requires
                            s < 8,
                            k < 8,
                    ;
                }
            }
        }
        r
    }

    /// Whether the thread may run on `core`.
    pub fn contains(&self, core: CoreId) -> (r: bool)
        ensures
            r == self.allows(core@),
    {
        if core.0 >= 8 {
            return false;
        }
        let bit: u8 = (self.0 >> core.0) & 1;
        proof {
            let m: u8 = self.0;
            let s: u8 = core.0;
            assert(((m >> s) & 1 == 1) || ((m >> s) & 1 == 0)) by (bit_vector);
        }
        bit == 1
    }
}

impl Default for CoreAffinity {
    fn default() -> (r: Self)
        ensures
            r == CoreAffinity(0xFF),
    {
        Self::no_affinity()
    }
}

/// What is saved of a thread's registers while it does not run, beyond the
/// stack pointer: where execution resumes, the first argument register and
/// the return address.
#[derive(Copy, Clone, PartialEq, Eq, Debug, Structural)]
pub struct ThreadData {
    /// The program counter.
    pub pc: usize,
    /// The first argument register.
    pub arg: usize,
    /// The link register.
    pub ra: usize,
}

/// The thread control block: all that the scheduler records of one thread.
#[derive(Copy, Clone, PartialEq, Eq, Debug, Structural)]
pub struct Thread {
    /// The saved stack pointer.
    pub sp: usize,
    /// The saved registers.
    pub data: ThreadData,
    pub state: ThreadState,
    pub prio: RunqueueId,
    pub pid: ThreadId,
    /// The thread flags that are set.
    pub flags: ThreadFlags,
    pub core_affinity: CoreAffinity,
}

impl Thread {
    /// The content of a free slot.
    pub open spec fn free() -> Thread {
        Thread {
            sp: 0,
            data: ThreadData { pc: 0, arg: 0, ra: 0 },
            state: ThreadState::Invalid,
            prio: RunqueueId(0),
            pid: ThreadId(0),
            flags: 0,
            core_affinity: CoreAffinity(0xFF),
        }
    }

    /// A free slot.
    pub fn default() -> (r: Self)
        ensures
            r == Thread::free(),
    {
        Thread {
            sp: 0,
            data: ThreadData { pc: 0, arg: 0, ra: 0 },
            state: ThreadState::Invalid,
            prio: RunqueueId(0),
            pid: ThreadId(0),
            flags: 0,
            core_affinity: CoreAffinity(0xFF),
        }
    }
}

} // verus!
