//! Synchronization primitives: what each of them does to its own state and
//! to the scheduler state when a thread uses it.

pub mod channel;
pub mod condvar;
pub mod lock;
pub mod mutex;
pub mod semaphore;
pub mod spinlock;
