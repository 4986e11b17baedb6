//! What the cores ask of each other: how a request to reschedule a core is
//! delivered.
//!
//! The two decisions here are those of the chips with two cores. On the one
//! a core interrupts the other by setting its interrupt bit; on the other it
//! sends a token through the queue between the cores.
use vstd::prelude::*;
use crate::ids::CoreId;

verus! {

/// The token that asks the other core to schedule.
pub const SCHEDULE_TOKEN: u32 = 0x111;

/// How a request to reschedule a core is delivered through the queue
/// between two cores.
#[derive(Copy, Clone, PartialEq, Eq, Debug, Structural)]
pub enum FifoAction {
    /// The core is the one that asks: it triggers its own scheduler.
    Local,
    /// The queue is full, so the other core has been asked already: nothing
    /// is sent.
    Skip,
    /// The token is sent, and the other core is woken in case it waits for
    /// an event.
    SendToken,
}

/// Decides which core is interrupted when the scheduler is to run on core
/// `id` of two cores that interrupt each other.
///
/// `already_set` says whether the interrupt of core `id` is pending already.
/// If it is, the run queue has changed more than once in the meantime, and
/// the other core is interrupted, so that both schedulers see the latest
/// state of the run queue.
pub fn schedule_on_core(id: CoreId, already_set: bool) -> (r: CoreId)
    requires
        id@ < 2,
    ensures
        r@ < 2,
        r == if already_set {
            CoreId((1 - id.0) as u8)
        } else {
            id
        },
{
    let mut core: u8 = id.0;
    if already_set {
        // A scheduling attempt is pending already: trigger the scheduler on
        // the other core as well.
        core ^= 1;
        proof {
            let c: u8 = id.0;
            assert(c < 2 ==> c ^ 1 == (1 - c) as u8) by (bit_vector);
        }
    }
    CoreId(core)
}

/// Decides how the scheduler of core `id` is triggered from core `this_core`
/// on two cores that are joined by a queue. `ready` says whether the queue
/// takes another token.
pub fn fifo_action(id: CoreId, this_core: CoreId, ready: bool) -> (r: FifoAction)
    ensures
        r == if id == this_core {
            FifoAction::Local
        } else if !ready {
            FifoAction::Skip
        } else {
            FifoAction::SendToken
        },
{
    if id.0 == this_core.0 {
        return FifoAction::Local;
    }
    // The queue is only used to trigger the scheduler. If it is full
    // already, there is no need to send another token.
    if !ready {
        return FifoAction::Skip;
    }
    FifoAction::SendToken
}

/// Handles a token that has arrived from the other core: the scheduler is to
/// be triggered if and only if it is the [`SCHEDULE_TOKEN`].
pub fn handle_fifo_token(token: u32) -> (r: bool)
    ensures
        r == (token == SCHEDULE_TOKEN),
{
    token == SCHEDULE_TOKEN
}

} // verus!
