use ariel_os_threads::arch::setup_stack;
use ariel_os_threads::bitmap::{ffs, from_bitmap};
use ariel_os_threads::ids::{CoreId, RunqueueId, ThreadId};
use ariel_os_threads::runqueue::{GlobalRunqueue, RunQueue};
use ariel_os_threads::sync::spinlock::{reader_enters, Cs, LockState};
use ariel_os_threads::smp::{fifo_action, handle_fifo_token, schedule_on_core, FifoAction};
use ariel_os_threads::thread::{Thread, ThreadData, ThreadState};

#[test]
fn ffs_is_one_above_the_highest_bit() {
    assert_eq!(ffs(0), 0);
    assert_eq!(ffs(1), 1);
    assert_eq!(ffs(0b1010), 4);
    assert_eq!(ffs(1 << 31), 32);
    assert_eq!(ffs(u64::MAX), 64);
}

#[test]
fn from_bitmap_is_the_highest_member() {
    assert_eq!(from_bitmap(0), None);
    assert_eq!(from_bitmap(1), Some(0));
    assert_eq!(from_bitmap(0b0110_0000), Some(6));
    assert_eq!(from_bitmap(1 << 63), Some(63));
}

#[test]
fn ids_convert_to_indices() {
    assert_eq!(usize::from(ThreadId::new(7)), 7);
    assert_eq!(usize::from(RunqueueId::new(255)), 255);
    assert_eq!(usize::from(CoreId::new(1)), 1);
    assert!(ThreadId::new(1) < ThreadId::new(2));
    assert_eq!(RunqueueId::new(3), RunqueueId(3));
}

#[test]
fn setup_stack_primes_the_saved_context() {
    let mut thread = Thread::default();
    thread.flags = 0b11;
    setup_stack(&mut thread, 1000, 100, 0xAA, 0xBB, 0xCC);
    // 1000 + 100 - 36 = 1064, which is a multiple of eight.
    assert_eq!(thread.sp, 1064);
    assert_eq!(thread.data, ThreadData { pc: 0xAA, arg: 0xBB, ra: 0xCC });
    assert_eq!(thread.state, ThreadState::Invalid);
    assert_eq!(thread.flags, 0b11);
    setup_stack(&mut thread, 1000, 103, 0, 0, 0);
    // 1067 is rounded down.
    assert_eq!(thread.sp, 1064);
    setup_stack(&mut thread, 0, 36, 0, 0, 0);
    assert_eq!(thread.sp, 0);
}

#[test]
fn schedule_on_core_goes_to_the_other_core_if_pending() {
    assert_eq!(schedule_on_core(CoreId(0), false), CoreId(0));
    assert_eq!(schedule_on_core(CoreId(1), false), CoreId(1));
    assert_eq!(schedule_on_core(CoreId(0), true), CoreId(1));
    assert_eq!(schedule_on_core(CoreId(1), true), CoreId(0));
}

#[test]
fn fifo_action_by_core_and_queue() {
    assert_eq!(fifo_action(CoreId(0), CoreId(0), true), FifoAction::Local);
    assert_eq!(fifo_action(CoreId(1), CoreId(1), false), FifoAction::Local);
    assert_eq!(fifo_action(CoreId(1), CoreId(0), false), FifoAction::Skip);
    assert_eq!(fifo_action(CoreId(1), CoreId(0), true), FifoAction::SendToken);
}

#[test]
fn only_the_schedule_token_triggers_the_scheduler() {
    assert!(handle_fifo_token(0x111));
    assert!(!handle_fifo_token(0x110));
    assert!(!handle_fifo_token(0));
}

#[test]
fn runqueue_add_reports_a_new_priority_level() {
    let mut runqueue: RunQueue<8, 32, 1> = RunQueue::new();
    assert_eq!(runqueue.add(ThreadId::new(0), RunqueueId::new(1)), Some(CoreId::new(0)));
    assert_eq!(runqueue.add(ThreadId::new(1), RunqueueId::new(1)), None);
    assert_eq!(runqueue.add(ThreadId::new(1), RunqueueId::new(1)), None);
    assert_eq!(runqueue.add(ThreadId::new(2), RunqueueId::new(7)), Some(CoreId::new(0)));
    assert!(!runqueue.is_empty(RunqueueId::new(1)));
    assert!(runqueue.is_empty(RunqueueId::new(0)));
}

#[test]
fn runqueue_advance_of_an_empty_queue_changes_nothing() {
    let mut runqueue: RunQueue<8, 32, 1> = RunQueue::new();
    assert_eq!(runqueue.advance(ThreadId::new(0), RunqueueId::new(3)), None);
    runqueue.add(ThreadId::new(4), RunqueueId::new(3));
    assert_eq!(runqueue.advance(ThreadId::new(0), RunqueueId::new(3)), Some(CoreId::new(0)));
    assert_eq!(runqueue.get_next(CoreId::new(0)), Some(ThreadId::new(4)));
}

#[test]
fn runqueue_del_of_a_thread_that_is_not_the_head() {
    let mut runqueue: RunQueue<8, 32, 1> = RunQueue::new();
    for n in 0..4 {
        runqueue.add(ThreadId::new(n), RunqueueId::new(2));
    }
    assert_eq!(runqueue.del(ThreadId::new(2), RunqueueId::new(2)), Some(CoreId::new(0)));
    // A thread that is not in the run queue: nothing changes.
    assert_eq!(runqueue.del(ThreadId::new(9), RunqueueId::new(2)), Some(CoreId::new(0)));
    assert_eq!(runqueue.pop_next(), Some(ThreadId::new(0)));
    assert_eq!(runqueue.pop_next(), Some(ThreadId::new(1)));
    assert_eq!(runqueue.pop_next(), Some(ThreadId::new(3)));
    assert_eq!(runqueue.pop_next(), None);
    assert!(runqueue.is_empty(RunqueueId::new(2)));
}

#[test]
fn runqueue_pop_head_and_pop_next() {
    let mut runqueue: RunQueue<8, 32, 1> = RunQueue::new();
    runqueue.add(ThreadId::new(0), RunqueueId::new(1));
    runqueue.add(ThreadId::new(1), RunqueueId::new(5));
    runqueue.add(ThreadId::new(2), RunqueueId::new(5));
    runqueue.pop_head(ThreadId::new(1), RunqueueId::new(5));
    assert_eq!(runqueue.get_next(CoreId::new(0)), Some(ThreadId::new(2)));
    assert_eq!(runqueue.pop_next(), Some(ThreadId::new(2)));
    // The bit of the emptied priority is cleared: the next is found below.
    assert_eq!(runqueue.get_next(CoreId::new(0)), Some(ThreadId::new(0)));
    assert_eq!(runqueue.pop_next(), Some(ThreadId::new(0)));
    assert_eq!(runqueue.pop_next(), None);
    assert_eq!(runqueue.get_next(CoreId::new(0)), None);
}

#[test]
fn runqueue_get_next_filter() {
    let mut runqueue: RunQueue<8, 32, 1> = RunQueue::new();
    for n in 0..4 {
        runqueue.add(ThreadId::new(n), RunqueueId::new(3));
    }
    runqueue.add(ThreadId::new(10), RunqueueId::new(1));
    assert_eq!(runqueue.get_next_filter(|t: &ThreadId| t.0 == 2), Some(ThreadId::new(2)));
    // The thread that was found is the head; those skipped stand behind.
    assert_eq!(runqueue.pop_next(), Some(ThreadId::new(2)));
    assert_eq!(runqueue.pop_next(), Some(ThreadId::new(3)));
    assert_eq!(runqueue.get_next_filter(|t: &ThreadId| t.0 >= 10), Some(ThreadId::new(10)));
    // A queue in which nothing was found is as it was.
    assert_eq!(runqueue.get_next_filter(|_: &ThreadId| false), None);
    assert_eq!(runqueue.pop_next(), Some(ThreadId::new(0)));
    assert_eq!(runqueue.pop_next(), Some(ThreadId::new(1)));
    assert_eq!(runqueue.pop_next(), Some(ThreadId::new(10)));
}

#[test]
fn runqueue_two_cores_advance_of_the_second_thread() {
    let mut runqueue: RunQueue<8, 32, 2> = RunQueue::new();
    assert_eq!(runqueue.add(ThreadId::new(0), RunqueueId::new(0)), Some(CoreId::new(0)));
    assert_eq!(runqueue.add(ThreadId::new(1), RunqueueId::new(0)), Some(CoreId::new(1)));
    assert_eq!(runqueue.add(ThreadId::new(2), RunqueueId::new(0)), None);
    // The second thread moves to the tail; the third takes its core.
    assert_eq!(runqueue.advance(ThreadId::new(1), RunqueueId::new(0)), Some(CoreId::new(1)));
    assert_eq!(runqueue.get_next(CoreId::new(0)), Some(ThreadId::new(0)));
    assert_eq!(runqueue.get_next(CoreId::new(1)), Some(ThreadId::new(2)));
    assert_eq!(runqueue.del(ThreadId::new(0), RunqueueId::new(0)), Some(CoreId::new(0)));
    assert_eq!(runqueue.get_next(CoreId::new(0)), Some(ThreadId::new(1)));
    // Nothing changes where the cores run the first threads already.
    assert_eq!(runqueue.reallocate(), None);
}

#[test]
fn runqueue_a_thread_resumes_on_the_core_that_it_ran_on() {
    let mut runqueue: RunQueue<8, 32, 2> = RunQueue::new();
    runqueue.add(ThreadId::new(0), RunqueueId::new(1));
    runqueue.add(ThreadId::new(1), RunqueueId::new(1));
    assert_eq!(runqueue.del(ThreadId::new(1), RunqueueId::new(1)), Some(CoreId::new(1)));
    assert_eq!(runqueue.get_next(CoreId::new(1)), None);
    assert_eq!(runqueue.add(ThreadId::new(1), RunqueueId::new(1)), Some(CoreId::new(1)));
    assert_eq!(runqueue.get_next(CoreId::new(1)), Some(ThreadId::new(1)));
}

#[test]
fn cs_spinlock_counts_readers() {
    let mut lock = Cs::new();
    assert_eq!(lock.state, LockState::Unlocked);
    assert!(lock.try_acquire());
    assert!(lock.try_acquire());
    assert_eq!(lock.state, LockState::Locked(2));
    assert!(!lock.try_acquire_mut());
    lock.release();
    assert_eq!(lock.state, LockState::Locked(1));
    lock.release();
    assert_eq!(lock.state, LockState::Unlocked);
    lock.release();
    assert_eq!(lock.state, LockState::Unlocked);
}

#[test]
fn cs_spinlock_has_one_writer() {
    let mut lock = Cs::new();
    assert!(lock.try_acquire_mut());
    assert_eq!(lock.state, LockState::LockedMut);
    assert!(!lock.try_acquire_mut());
    assert!(!lock.try_acquire());
    lock.release_mut();
    assert_eq!(lock.state, LockState::Unlocked);
    assert!(lock.try_acquire());
}

#[test]
fn cs_spinlock_is_full_at_the_highest_count() {
    let mut lock = Cs { state: LockState::Locked(usize::MAX) };
    assert!(!lock.try_acquire());
    assert_eq!(lock.state, LockState::Locked(usize::MAX));
}

#[test]
fn reader_enters_unless_a_writer_holds() {
    assert_eq!(reader_enters(0), Some(1));
    assert_eq!(reader_enters(41), Some(42));
    assert_eq!(reader_enters(usize::MAX - 1), Some(usize::MAX));
    assert_eq!(reader_enters(usize::MAX), None);
}
