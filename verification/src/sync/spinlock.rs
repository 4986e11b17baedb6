//! The state of a spinlock that many readers or one writer can hold, in the
//! two forms in which it is kept: as a value behind a lock of its own, and
//! as a count in one word that is updated atomically.
//!
//! Only the decisions are here. Spinning, and what makes an update atomic,
//! are left to the caller.
use vstd::prelude::*;

verus! {

/// Who holds a spinlock.
#[derive(Copy, Clone, PartialEq, Eq, Debug, Structural)]
pub enum LockState {
    /// Nobody.
    Unlocked,
    /// This many readers; the number is not zero.
    Locked(usize),
    /// One writer.
    LockedMut,
}

/// Spinlock backend that keeps its state as a value. It differentiates
/// between read and write accesses.
pub struct Cs {
    pub state: LockState,
}

impl Cs {
    /// The number of readers that hold the lock.
    pub open spec fn readers(&self) -> int {
        match self.state {
            LockState::Locked(count) => count as int,
            _ => 0,
        }
    }

    /// Whether a writer holds the lock.
    pub open spec fn writer(&self) -> bool {
        self.state is LockedMut
    }

    /// Whether the count of readers is not zero where readers hold the
    /// lock.
    pub open spec fn wf(&self) -> bool {
        self.state matches LockState::Locked(count) ==> count >= 1
    }

    /// Creates a lock that nobody holds.
    pub fn new() -> (r: Self)
        ensures
            r.state is Unlocked,
            r.wf(),
    {
        Self { state: LockState::Unlocked }
    }

    /// Tries to acquire the lock for reading. This succeeds unless a writer
    /// holds the lock, or as many readers as can be counted.
    pub fn try_acquire(&mut self) -> (r: bool)
        requires
            old(self).wf(),
        ensures
            final(self).wf(),
            r == (!old(self).writer() && old(self).readers() < usize::MAX),
            r ==> !final(self).writer() && final(self).readers() == old(self).readers() + 1,
            !r ==> final(self).state == old(self).state,
    {
        match self.state {
            LockState::Unlocked => {
                self.state = LockState::Locked(1);
                true
            },
            LockState::Locked(count) => {
                if count == usize::MAX {
                    false
                } else {
                    self.state = LockState::Locked(count + 1);
                    true
                }
            },
            LockState::LockedMut => false,
        }
    }

    /// Tries to acquire the lock for writing. This succeeds if nobody holds
    /// the lock.
    pub fn try_acquire_mut(&mut self) -> (r: bool)
        ensures
            r == (old(self).state is Unlocked),
            r ==> final(self).writer(),
            !r ==> final(self).state == old(self).state,
    {
        if matches!(self.state, LockState::Unlocked) {
            self.state = LockState::LockedMut;
            true
        } else {
            false
        }
    }

    /// Releases the lock on behalf of one of those that hold it: of the
    /// writer, or of one reader. Nothing happens if nobody holds the lock.
    pub fn release(&mut self)
        requires
            old(self).wf(),
        ensures
            final(self).wf(),
            !final(self).writer(),
            final(self).readers() == if old(self).readers() > 0 {
                old(self).readers() - 1
            } else {
                0
            },
    {
        match self.state {
            LockState::Locked(count) => {
                if count == 1 {
                    self.state = LockState::Unlocked;
                } else {
                    self.state = LockState::Locked(count - 1);
                }
            },
            LockState::LockedMut => {
                self.state = LockState::Unlocked;
            },
            LockState::Unlocked => {},
        }
    }

    /// Releases the lock on behalf of the writer: see [`Self::release`].
    pub fn release_mut(&mut self)
        requires
            old(self).wf(),
        ensures
            final(self).wf(),
            !final(self).writer(),
            final(self).readers() == if old(self).readers() > 0 {
                old(self).readers() - 1
            } else {
                0
            },
    {
        self.release()
    }
}

/// The count that stands for a writer where the state of a spinlock is kept
/// in one word.
pub const WRITER: usize = usize::MAX;

/// The count after one more reader has acquired a spinlock whose count is
/// `val`, if it can: it cannot while a writer holds the lock.
pub fn reader_enters(val: usize) -> (r: Option<usize>)
    ensures
        r == if val < WRITER {
            Some((val + 1) as usize)
        } else {
            None
        },
{
    if val < usize::MAX {
        Some(val + 1)
    } else {
        None
    }
}

} // verus!
