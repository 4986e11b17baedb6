//! What the scheduler needs of the architecture when it creates a thread:
//! where the saved context lies in the thread's stack, and what it holds.
use vstd::prelude::*;
use crate::thread::{Thread, ThreadData};

verus! {

/// The bytes that a full saved context takes on the stack: eight registers
/// and the stack pointer.
pub const CONTEXT_SIZE: usize = 36;

/// The stack pointer of a new thread whose stack is the `stack_len` bytes at
/// `stack_start`: the stack grows downwards from its end, room is left for a
/// full saved context, and the result is aligned to eight bytes.
pub open spec fn initial_sp(stack_start: usize, stack_len: usize) -> usize {
    ((stack_start + stack_len - CONTEXT_SIZE) as usize) & 0xFFFF_FFF8
}

/// Primes the saved context of `thread` so that, when it is first
/// dispatched, it starts `func` with the argument `arg` and returns into
/// `cleanup`.
pub fn setup_stack(
    thread: &mut Thread,
    stack_start: usize,
    stack_len: usize,
    func: usize,
    arg: usize,
    cleanup: usize,
)
    requires
        stack_start + stack_len <= usize::MAX,
        stack_start + stack_len >= CONTEXT_SIZE,
    ensures
        final(thread).sp == initial_sp(stack_start, stack_len),
        final(thread).sp % 8 == 0,
        final(thread).sp <= stack_start + stack_len - CONTEXT_SIZE,
        stack_start + stack_len <= 0x1_0000_0000 ==> final(thread).sp + CONTEXT_SIZE + 7
            >= stack_start + stack_len,
        final(thread).data == (ThreadData { pc: func, arg: arg, ra: cleanup }),
        final(thread).state == old(thread).state,
        final(thread).prio == old(thread).prio,
        final(thread).pid == old(thread).pid,
        final(thread).flags == old(thread).flags,
        final(thread).core_affinity == old(thread).core_affinity,
{
    // 1. The stack starts at the highest address and grows downwards.
    // 2. Room is reserved for a full saved context.
    // 3. The stack pointer is aligned to 8 bytes by clearing its lowest
    //    three bits.
    let top: usize = stack_start + stack_len - 36;
    let stack_pos: usize = top & 0xFFFF_FFF8;
    proof {
        assert((top & 0xFFFF_FFF8) % 8 == 0) by (bit_vector);
        assert((top & 0xFFFF_FFF8) <= top) by (bit_vector);
        assert(top < 0x1_0000_0000 ==> (top & 0xFFFF_FFF8) + 7 >= top) by (bit_vector);
    }
    thread.data = ThreadData { pc: func, arg: arg, ra: cleanup };
    thread.sp = stack_pos;
}

} // verus!
