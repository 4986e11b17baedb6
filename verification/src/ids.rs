//! Identifiers of threads, run queues (priorities) and cores.
use vstd::prelude::*;
use vstd::std_specs::convert::FromSpecImpl;

verus! {

/// Run queue number: the priority of the threads in it. A higher number is a
/// higher priority.
#[derive(Clone, Copy, Debug, PartialEq, Eq, PartialOrd, Ord, Structural)]
pub struct RunqueueId(pub u8);

/// Index of a thread's slot in the thread table.
#[derive(Clone, Copy, Debug, PartialEq, Eq, PartialOrd, Ord, Structural)]
pub struct ThreadId(pub u8);

/// Number of a physical core.
#[derive(Clone, Copy, Debug, PartialEq, Eq, PartialOrd, Ord, Structural)]
pub struct CoreId(pub u8);

impl View for RunqueueId {
    type V = int;

    open spec fn view(&self) -> int {
        self.0 as int
    }
}

impl View for ThreadId {
    type V = int;

    open spec fn view(&self) -> int {
        self.0 as int
    }
}

impl View for CoreId {
    type V = int;

    open spec fn view(&self) -> int {
        self.0 as int
    }
}

impl RunqueueId {
    pub fn new(value: u8) -> (r: Self)
        ensures
            r == RunqueueId(value),
    {
        Self(value)
    }
}

impl ThreadId {
    pub fn new(value: u8) -> (r: Self)
        ensures
            r == ThreadId(value),
    {
        Self(value)
    }
}

impl CoreId {
    pub fn new(value: u8) -> (r: Self)
        ensures
            r == CoreId(value),
    {
        Self(value)
    }
}

impl From<RunqueueId> for usize {
    fn from(value: RunqueueId) -> (r: usize) {
        value.0 as usize
    }
}

impl FromSpecImpl<RunqueueId> for usize {
    open spec fn obeys_from_spec() -> bool {
        true
    }

    open spec fn from_spec(value: RunqueueId) -> usize {
        value.0 as usize
    }
}

impl From<ThreadId> for usize {
    fn from(value: ThreadId) -> (r: usize) {
        value.0 as usize
    }
}

impl FromSpecImpl<ThreadId> for usize {
    open spec fn obeys_from_spec() -> bool {
        true
    }

    open spec fn from_spec(value: ThreadId) -> usize {
        value.0 as usize
    }
}

impl From<CoreId> for usize {
    fn from(value: CoreId) -> (r: usize) {
        value.0 as usize
    }
}

impl FromSpecImpl<CoreId> for usize {
    open spec fn obeys_from_spec() -> bool {
        true
    }

    open spec fn from_spec(value: CoreId) -> usize {
        value.0 as usize
    }
}

} // verus!
