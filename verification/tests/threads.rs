use ariel_os_threads::ids::{CoreId, RunqueueId, ThreadId};
use ariel_os_threads::model::SchedResult;
use ariel_os_threads::thread::{CoreAffinity, ThreadState};
use ariel_os_threads::threads::{CurrentThreads, TCBs, Threads, ThreadsInner};
use ariel_os_threads::{
    cleanup, create, current_pid, get_priority, is_valid_pid, park, set_priority, unpark,
    yield_same, Error,
};

const CORE0: CoreId = CoreId(0);
const CORE1: CoreId = CoreId(1);
const STACK: usize = 0x2000_0000;
const STACK_LEN: usize = 2048;

fn spawn<const N: usize>(threads: &mut Threads<N>, core: CoreId, prio: u8) -> ThreadId {
    create(threads, core, 0x100, 7, STACK, STACK_LEN, 0x200, prio, None).unwrap()
}

fn spawn_on<const N: usize>(
    threads: &mut Threads<N>,
    core: CoreId,
    prio: u8,
    affinity: CoreAffinity,
) -> ThreadId {
    create(threads, core, 0x100, 7, STACK, STACK_LEN, 0x200, prio, Some(affinity)).unwrap()
}

/// Runs the scheduler on `core` and returns the thread that is current then.
fn dispatch<const N: usize>(threads: &mut Threads<N>, core: CoreId) -> Option<ThreadId> {
    threads.take_reschedule(core);
    threads.sched(core, 0x2000_0400);
    threads.current_pid(core)
}

#[test]
fn test_basic() {
    assert_eq!(1, 1);
}

#[test]
fn new_scheduler_has_no_thread() {
    let threads: Threads<1> = Threads::new();
    assert_eq!(current_pid(&threads, CORE0), None);
    assert!(!is_valid_pid(&threads, ThreadId::new(0)));
    assert!(threads.is_in_bound(ThreadId::new(15)));
    assert!(!threads.is_in_bound(ThreadId::new(16)));
    assert_eq!(threads.get_state(ThreadId::new(3)), Some(ThreadState::Invalid));
    assert_eq!(threads.get_state(ThreadId::new(16)), None);
    assert_eq!(get_priority(&threads, ThreadId::new(0)), None);
    assert_eq!(get_priority(&threads, ThreadId::new(200)), None);
}

#[test]
fn parts_of_the_state_start_empty() {
    let tcbs = TCBs::new();
    assert_eq!(tcbs.get_unchecked(ThreadId::new(5)).state, ThreadState::Invalid);
    assert_eq!(tcbs.get_priority(ThreadId::new(5)), RunqueueId::new(0));
    let mut current: CurrentThreads<2> = CurrentThreads::new();
    assert_eq!(current.current_pid(CORE1), None);
    assert_eq!(current.is_running(ThreadId::new(3)), None);
    current.set_current_pid(CORE1, ThreadId::new(3));
    assert_eq!(current.current_pid(CORE1), Some(ThreadId::new(3)));
    assert_eq!(current.current_pid(CORE0), None);
    assert_eq!(current.is_running(ThreadId::new(3)), Some(1));
    let inner: ThreadsInner<2> = ThreadsInner::new();
    assert_eq!(inner.thread_blocklist[0], None);
    assert_eq!(inner.current_threads.current_pid(CORE0), None);
}

#[test]
fn create_fills_the_first_free_slot() {
    let mut threads: Threads<1> = Threads::new();
    let t0 = spawn(&mut threads, CORE0, 1);
    let t1 = spawn(&mut threads, CORE0, 2);
    assert_eq!(t0, ThreadId::new(0));
    assert_eq!(t1, ThreadId::new(1));
    assert!(is_valid_pid(&threads, t0));
    assert_eq!(threads.get_state(t1), Some(ThreadState::Running));
    assert_eq!(get_priority(&threads, t1), Some(RunqueueId::new(2)));
    let tcb = threads.inner.tcbs.get_unchecked(t1);
    assert_eq!(tcb.pid, t1);
    assert_eq!(tcb.data.pc, 0x100);
    assert_eq!(tcb.data.arg, 7);
    assert_eq!(tcb.data.ra, 0x200);
    // (0x2000_0000 + 2048 - 36) rounded down to a multiple of eight.
    assert_eq!(tcb.sp, 0x2000_07D8);
    assert_eq!(tcb.core_affinity, CoreAffinity::no_affinity());
}

#[test]
fn create_without_set_state_leaves_the_slot_free() {
    let mut threads: Threads<1> = Threads::new();
    let first = threads.create(1, 2, STACK, STACK_LEN, 3, RunqueueId::new(1), None);
    let second = threads.create(1, 2, STACK, STACK_LEN, 3, RunqueueId::new(4), None);
    assert_eq!(first, Some(ThreadId::new(0)));
    assert_eq!(second, Some(ThreadId::new(0)));
    assert_eq!(threads.get_state(ThreadId::new(0)), Some(ThreadState::Invalid));
    assert_eq!(threads.get_priority(ThreadId::new(0)), RunqueueId::new(4));
}

#[test]
fn creating_one_thread_too_many_fails() {
    let mut threads: Threads<1> = Threads::new();
    for i in 0..16u8 {
        let r = create(&mut threads, CORE0, 1, 0, STACK, STACK_LEN, 2, 1, None);
        assert_eq!(r, Ok(ThreadId::new(i)));
    }
    let r = create(&mut threads, CORE0, 1, 0, STACK, STACK_LEN, 2, 1, None);
    assert_eq!(r, Err(Error::OutOfThreads));
    assert_eq!(threads.create(1, 0, STACK, STACK_LEN, 2, RunqueueId::new(1), None), None);
}

#[test]
fn a_slot_is_free_again_after_cleanup() {
    let mut threads: Threads<1> = Threads::new();
    for _ in 0..16 {
        spawn(&mut threads, CORE0, 1);
    }
    assert_eq!(dispatch(&mut threads, CORE0), Some(ThreadId::new(0)));
    cleanup(&mut threads, CORE0);
    assert!(!is_valid_pid(&threads, ThreadId::new(0)));
    assert!(threads.take_reschedule(CORE0));
    assert_eq!(threads.sched(CORE0, 0), SchedResult::Switch {
        prev: Some(ThreadId::new(0)),
        next: ThreadId::new(1),
        sp: 0x2000_07D8,
    });
    assert_eq!(spawn(&mut threads, CORE0, 3), ThreadId::new(0));
}

#[test]
fn the_scheduler_picks_the_highest_priority() {
    let mut threads: Threads<1> = Threads::new();
    assert_eq!(threads.sched(CORE0, 0), SchedResult::Idle);
    let low = spawn(&mut threads, CORE0, 1);
    let high = spawn(&mut threads, CORE0, 5);
    let mid = spawn(&mut threads, CORE0, 3);
    assert_eq!(
        threads.sched(CORE0, 0x1234),
        SchedResult::Switch { prev: None, next: high, sp: 0x2000_07D8 }
    );
    assert_eq!(current_pid(&threads, CORE0), Some(high));
    // The same thread is selected again: no switch.
    assert_eq!(threads.sched(CORE0, 0x1238), SchedResult::Same);
    park(&mut threads, CORE0);
    assert_eq!(
        threads.sched(CORE0, 0x1000),
        SchedResult::Switch { prev: Some(high), next: mid, sp: 0x2000_07D8 }
    );
    // The stack pointer of the thread that was switched out is saved.
    assert_eq!(threads.inner.tcbs.get_unchecked(high).sp, 0x1000);
    park(&mut threads, CORE0);
    assert_eq!(dispatch(&mut threads, CORE0), Some(low));
    park(&mut threads, CORE0);
    assert_eq!(threads.sched(CORE0, 0), SchedResult::Idle);
}

#[test]
fn a_new_thread_of_higher_priority_requests_a_reschedule() {
    let mut threads: Threads<1> = Threads::new();
    spawn(&mut threads, CORE0, 2);
    // No thread is current yet: nothing to preempt.
    assert!(!threads.take_reschedule(CORE0));
    dispatch(&mut threads, CORE0);
    spawn(&mut threads, CORE0, 2);
    assert!(!threads.take_reschedule(CORE0));
    spawn(&mut threads, CORE0, 1);
    assert!(!threads.take_reschedule(CORE0));
    spawn(&mut threads, CORE0, 3);
    assert!(threads.take_reschedule(CORE0));
    // Taking the request leaves none pending.
    assert!(!threads.take_reschedule(CORE0));
}

#[test]
fn reschedule_requests_coalesce() {
    let mut threads: Threads<2> = Threads::new();
    threads.schedule_on_core(CORE1);
    threads.schedule_on_core(CORE1);
    assert!(!threads.take_reschedule(CORE0));
    assert!(threads.take_reschedule(CORE1));
    assert!(!threads.take_reschedule(CORE1));
}

#[test]
fn park_and_unpark() {
    let mut threads: Threads<1> = Threads::new();
    let t0 = spawn(&mut threads, CORE0, 1);
    let t1 = spawn(&mut threads, CORE0, 1);
    assert_eq!(dispatch(&mut threads, CORE0), Some(t0));
    // Only a parked thread can be unparked.
    assert!(!unpark(&mut threads, CORE0, t1));
    assert!(!unpark(&mut threads, CORE0, ThreadId::new(9)));
    assert!(!unpark(&mut threads, CORE0, ThreadId::new(99)));
    park(&mut threads, CORE0);
    assert_eq!(threads.get_state(t0), Some(ThreadState::Parked));
    assert!(threads.take_reschedule(CORE0));
    assert_eq!(dispatch(&mut threads, CORE0), Some(t1));
    assert!(unpark(&mut threads, CORE0, t0));
    assert_eq!(threads.get_state(t0), Some(ThreadState::Running));
    // The same priority as the current thread: no reschedule.
    assert!(!threads.take_reschedule(CORE0));
    assert!(!unpark(&mut threads, CORE0, t0));
}

#[test]
fn park_then_unpark_is_like_yield_same() {
    let mut parked: Threads<1> = Threads::new();
    let mut yielded: Threads<1> = Threads::new();
    for threads in [&mut parked, &mut yielded] {
        spawn(threads, CORE0, 2);
        spawn(threads, CORE0, 2);
        spawn(threads, CORE0, 2);
        assert_eq!(dispatch(threads, CORE0), Some(ThreadId::new(0)));
    }
    park(&mut parked, CORE0);
    assert!(unpark(&mut parked, CORE0, ThreadId::new(0)));
    yield_same(&mut yielded, CORE0);
    for threads in [&mut parked, &mut yielded] {
        assert_eq!(threads.get_state(ThreadId::new(0)), Some(ThreadState::Running));
        assert!(threads.take_reschedule(CORE0));
        assert_eq!(dispatch(threads, CORE0), Some(ThreadId::new(1)));
        yield_same(threads, CORE0);
        assert_eq!(dispatch(threads, CORE0), Some(ThreadId::new(2)));
        yield_same(threads, CORE0);
        assert_eq!(dispatch(threads, CORE0), Some(ThreadId::new(0)));
    }
}

#[test]
fn yield_same_rotates_in_the_order_of_arrival() {
    let mut threads: Threads<1> = Threads::new();
    let x = spawn(&mut threads, CORE0, 1);
    let y = spawn(&mut threads, CORE0, 1);
    let z = spawn(&mut threads, CORE0, 1);
    assert_eq!(dispatch(&mut threads, CORE0), Some(x));
    yield_same(&mut threads, CORE0);
    assert!(threads.take_reschedule(CORE0));
    assert_eq!(dispatch(&mut threads, CORE0), Some(y));
    yield_same(&mut threads, CORE0);
    assert_eq!(dispatch(&mut threads, CORE0), Some(z));
    yield_same(&mut threads, CORE0);
    assert_eq!(dispatch(&mut threads, CORE0), Some(x));
    yield_same(&mut threads, CORE0);
    assert_eq!(dispatch(&mut threads, CORE0), Some(y));
}

#[test]
fn yield_same_without_a_current_thread_does_nothing() {
    let mut threads: Threads<1> = Threads::new();
    spawn(&mut threads, CORE0, 1);
    yield_same(&mut threads, CORE0);
    assert!(!threads.take_reschedule(CORE0));
    assert_eq!(dispatch(&mut threads, CORE0), Some(ThreadId::new(0)));
}

#[test]
fn yield_same_of_the_only_thread_keeps_it_running() {
    let mut threads: Threads<1> = Threads::new();
    let only = spawn(&mut threads, CORE0, 1);
    dispatch(&mut threads, CORE0);
    yield_same(&mut threads, CORE0);
    assert_eq!(threads.sched(CORE0, 0), SchedResult::Same);
    assert_eq!(current_pid(&threads, CORE0), Some(only));
}

#[test]
fn dynamic_priorities() {
    let mut threads: Threads<1> = Threads::new();
    let t0 = spawn(&mut threads, CORE0, 3);
    let t1 = spawn(&mut threads, CORE0, 1);
    let t2 = spawn(&mut threads, CORE0, 2);
    assert_eq!(dispatch(&mut threads, CORE0), Some(t0));
    // Thread 0 raises the priority of thread 1 above its own.
    set_priority(&mut threads, CORE0, t1, RunqueueId::new(5));
    assert_eq!(get_priority(&threads, t1), Some(RunqueueId::new(5)));
    assert!(threads.take_reschedule(CORE0));
    assert_eq!(dispatch(&mut threads, CORE0), Some(t1));
    // Thread 1 restores its priority, and thread 0 runs again.
    set_priority(&mut threads, CORE0, t1, RunqueueId::new(1));
    assert!(threads.take_reschedule(CORE0));
    assert_eq!(dispatch(&mut threads, CORE0), Some(t0));
    park(&mut threads, CORE0);
    assert_eq!(dispatch(&mut threads, CORE0), Some(t2));
    park(&mut threads, CORE0);
    assert_eq!(dispatch(&mut threads, CORE0), Some(t1));
}

#[test]
fn set_priority_to_the_same_value_changes_nothing() {
    let mut threads: Threads<1> = Threads::new();
    let t0 = spawn(&mut threads, CORE0, 2);
    let t1 = spawn(&mut threads, CORE0, 2);
    let t2 = spawn(&mut threads, CORE0, 2);
    assert_eq!(dispatch(&mut threads, CORE0), Some(t0));
    set_priority(&mut threads, CORE0, t0, RunqueueId::new(2));
    set_priority(&mut threads, CORE0, t1, RunqueueId::new(2));
    assert!(!threads.take_reschedule(CORE0));
    // The order of the queue is as it was.
    assert_eq!(threads.sched(CORE0, 0), SchedResult::Same);
    yield_same(&mut threads, CORE0);
    assert_eq!(dispatch(&mut threads, CORE0), Some(t1));
    yield_same(&mut threads, CORE0);
    assert_eq!(dispatch(&mut threads, CORE0), Some(t2));
}

#[test]
fn set_priority_twice_is_like_once() {
    let mut twice: Threads<1> = Threads::new();
    let mut once: Threads<1> = Threads::new();
    for threads in [&mut twice, &mut once] {
        spawn(threads, CORE0, 4);
        spawn(threads, CORE0, 1);
        spawn(threads, CORE0, 3);
        spawn(threads, CORE0, 3);
        assert_eq!(dispatch(threads, CORE0), Some(ThreadId::new(0)));
    }
    set_priority(&mut twice, CORE0, ThreadId::new(1), RunqueueId::new(2));
    set_priority(&mut twice, CORE0, ThreadId::new(1), RunqueueId::new(3));
    set_priority(&mut once, CORE0, ThreadId::new(1), RunqueueId::new(3));
    for threads in [&mut twice, &mut once] {
        park(threads, CORE0);
        assert_eq!(dispatch(threads, CORE0), Some(ThreadId::new(2)));
        park(threads, CORE0);
        assert_eq!(dispatch(threads, CORE0), Some(ThreadId::new(3)));
        park(threads, CORE0);
        assert_eq!(dispatch(threads, CORE0), Some(ThreadId::new(1)));
    }
}

#[test]
fn set_priority_of_an_invalid_thread_does_nothing() {
    let mut threads: Threads<1> = Threads::new();
    spawn(&mut threads, CORE0, 1);
    set_priority(&mut threads, CORE0, ThreadId::new(7), RunqueueId::new(5));
    set_priority(&mut threads, CORE0, ThreadId::new(77), RunqueueId::new(5));
    assert_eq!(threads.get_priority(ThreadId::new(7)), RunqueueId::new(0));
    assert!(!threads.take_reschedule(CORE0));
}

#[test]
fn set_priority_of_a_blocked_thread_only_changes_the_priority() {
    let mut threads: Threads<1> = Threads::new();
    let t0 = spawn(&mut threads, CORE0, 1);
    let t1 = spawn(&mut threads, CORE0, 1);
    dispatch(&mut threads, CORE0);
    park(&mut threads, CORE0);
    assert_eq!(dispatch(&mut threads, CORE0), Some(t1));
    set_priority(&mut threads, CORE0, t0, RunqueueId::new(9));
    assert!(!threads.take_reschedule(CORE0));
    assert_eq!(threads.sched(CORE0, 0), SchedResult::Same);
    // Once it runs again, it runs with its new priority.
    assert!(unpark(&mut threads, CORE0, t0));
    assert!(threads.take_reschedule(CORE0));
    assert_eq!(dispatch(&mut threads, CORE0), Some(t0));
}

#[test]
fn lowering_the_priority_of_the_current_thread_requests_a_reschedule() {
    let mut threads: Threads<1> = Threads::new();
    let t0 = spawn(&mut threads, CORE0, 5);
    let t1 = spawn(&mut threads, CORE0, 3);
    dispatch(&mut threads, CORE0);
    set_priority(&mut threads, CORE0, t0, RunqueueId::new(7));
    assert!(!threads.take_reschedule(CORE0));
    set_priority(&mut threads, CORE0, t0, RunqueueId::new(2));
    assert!(threads.take_reschedule(CORE0));
    assert_eq!(dispatch(&mut threads, CORE0), Some(t1));
}

#[test]
fn schedule_if_higher_prio_compares_with_the_current_thread() {
    let mut threads: Threads<1> = Threads::new();
    let t0 = spawn(&mut threads, CORE0, 4);
    dispatch(&mut threads, CORE0);
    threads.schedule_if_higher_prio(CORE0, t0, RunqueueId::new(4));
    assert!(!threads.take_reschedule(CORE0));
    threads.schedule_if_higher_prio(CORE0, t0, RunqueueId::new(5));
    assert!(threads.take_reschedule(CORE0));
}

#[test]
fn two_cores_take_different_threads() {
    let mut threads: Threads<2> = Threads::new();
    let a = spawn(&mut threads, CORE0, 2);
    let b = spawn(&mut threads, CORE0, 2);
    let c = spawn(&mut threads, CORE0, 1);
    assert_eq!(dispatch(&mut threads, CORE0), Some(a));
    assert_eq!(dispatch(&mut threads, CORE1), Some(b));
    assert_eq!(threads.is_running(a), Some(0));
    assert_eq!(threads.is_running(b), Some(1));
    assert_eq!(threads.is_running(c), None);
    // Each is put back and taken again: nothing changes.
    assert_eq!(threads.sched(CORE0, 0), SchedResult::Same);
    assert_eq!(threads.sched(CORE1, 0), SchedResult::Same);
    // A parked thread makes room for the one that waits.
    park(&mut threads, CORE1);
    assert!(threads.take_reschedule(CORE1));
    assert_eq!(dispatch(&mut threads, CORE1), Some(c));
    // The unparked thread preempts the core that runs the lowest priority.
    assert!(unpark(&mut threads, CORE0, b));
    assert!(!threads.take_reschedule(CORE0));
    assert!(threads.take_reschedule(CORE1));
    assert_eq!(dispatch(&mut threads, CORE1), Some(b));
}

#[test]
fn an_idle_core_is_not_asked_to_reschedule() {
    let mut threads: Threads<2> = Threads::new();
    spawn(&mut threads, CORE0, 2);
    assert_eq!(dispatch(&mut threads, CORE0), Some(ThreadId::new(0)));
    spawn(&mut threads, CORE0, 3);
    // Core 1 is idle and counts as the lowest: no request is made.
    assert!(!threads.take_reschedule(CORE0));
    assert!(!threads.take_reschedule(CORE1));
}

#[test]
fn yield_same_on_two_cores() {
    let mut threads: Threads<2> = Threads::new();
    let a = spawn(&mut threads, CORE0, 2);
    let b = spawn(&mut threads, CORE0, 2);
    let c = spawn(&mut threads, CORE0, 2);
    assert_eq!(dispatch(&mut threads, CORE0), Some(a));
    assert_eq!(dispatch(&mut threads, CORE1), Some(b));
    yield_same(&mut threads, CORE0);
    assert!(threads.take_reschedule(CORE0));
    assert_eq!(dispatch(&mut threads, CORE0), Some(c));
    yield_same(&mut threads, CORE1);
    assert_eq!(dispatch(&mut threads, CORE1), Some(a));
    // No thread of this priority waits: nothing to yield to.
    park(&mut threads, CORE0);
    dispatch(&mut threads, CORE0);
    threads.take_reschedule(CORE1);
    yield_same(&mut threads, CORE1);
    assert!(!threads.take_reschedule(CORE1));
}

#[test]
fn affinity_pins_a_thread_to_its_core() {
    let mut threads: Threads<2> = Threads::new();
    let idle0 = spawn_on(&mut threads, CORE0, 0, CoreAffinity::one(CORE0));
    let idle1 = spawn_on(&mut threads, CORE0, 0, CoreAffinity::one(CORE1));
    let hi = spawn_on(&mut threads, CORE0, 3, CoreAffinity::one(CORE1));
    // Core 0 skips the thread that is pinned to core 1.
    assert_eq!(dispatch(&mut threads, CORE0), Some(idle0));
    assert_eq!(dispatch(&mut threads, CORE1), Some(hi));
    assert_eq!(dispatch(&mut threads, CORE0), Some(idle0));
    // A thread of the same priority without affinity runs on core 0.
    let free = spawn(&mut threads, CORE1, 3);
    assert!(threads.take_reschedule(CORE0));
    assert!(!threads.take_reschedule(CORE1));
    assert_eq!(dispatch(&mut threads, CORE0), Some(free));
    assert_eq!(dispatch(&mut threads, CORE1), Some(hi));
    park(&mut threads, CORE1);
    assert_eq!(dispatch(&mut threads, CORE1), Some(idle1));
}

#[test]
fn the_threads_that_were_skipped_stand_behind_the_others() {
    let mut threads: Threads<2> = Threads::new();
    let pinned = spawn_on(&mut threads, CORE0, 1, CoreAffinity::one(CORE1));
    let a = spawn(&mut threads, CORE0, 1);
    let b = spawn(&mut threads, CORE0, 1);
    // Core 0 skips the pinned thread and takes the next.
    assert_eq!(dispatch(&mut threads, CORE0), Some(a));
    // The queue is now b, pinned.
    assert_eq!(dispatch(&mut threads, CORE1), Some(b));
    park(&mut threads, CORE1);
    assert_eq!(dispatch(&mut threads, CORE1), Some(pinned));
}

#[test]
fn core_affinity_masks() {
    let all = CoreAffinity::no_affinity();
    assert!(all.contains(CORE0));
    assert!(all.contains(CoreId(7)));
    assert!(!all.contains(CoreId(8)));
    let one = CoreAffinity::one(CORE1);
    assert!(!one.contains(CORE0));
    assert!(one.contains(CORE1));
    assert_eq!(one, CoreAffinity(0b10));
    assert_eq!(CoreAffinity::default(), all);
}

#[test]
fn add_current_thread_to_rq_puts_a_runnable_thread_back() {
    let mut threads: Threads<2> = Threads::new();
    let a = spawn(&mut threads, CORE0, 1);
    let b = spawn(&mut threads, CORE0, 1);
    assert_eq!(dispatch(&mut threads, CORE0), Some(a));
    threads.add_current_thread_to_rq(CORE0);
    // The queue is now b, a.
    assert_eq!(dispatch(&mut threads, CORE1), Some(b));
    threads.add_current_thread_to_rq(CORE1);
    assert_eq!(
        Threads::<2>::get_next_pid(&mut threads.inner.runqueue, &threads.inner.tcbs, CORE1),
        Some(a)
    );
    assert_eq!(
        Threads::<2>::get_next_pid(&mut threads.inner.runqueue, &threads.inner.tcbs, CORE1),
        Some(b)
    );
    assert_eq!(
        Threads::<2>::get_next_pid(&mut threads.inner.runqueue, &threads.inner.tcbs, CORE1),
        None
    );
}

#[test]
fn get_next_pid_with_one_core_leaves_the_thread_in_the_queue() {
    let mut threads: Threads<1> = Threads::new();
    spawn(&mut threads, CORE0, 1);
    let high = spawn(&mut threads, CORE0, 2);
    for _ in 0..2 {
        assert_eq!(
            Threads::<1>::get_next_pid(&mut threads.inner.runqueue, &threads.inner.tcbs, CORE0),
            Some(high)
        );
    }
}

#[test]
fn a_thread_is_in_one_place() {
    let mut threads: Threads<2> = Threads::new();
    let a = spawn(&mut threads, CORE0, 2);
    let b = spawn(&mut threads, CORE0, 2);
    let free = ThreadId::new(5);
    // Runnable threads are in the run queue, a free slot is not.
    assert!(threads.inner.runqueue.is_queued(a));
    assert!(threads.inner.runqueue.is_queued(b));
    assert!(!threads.inner.runqueue.is_queued(free));
    assert_eq!(threads.is_running(a), None);
    // With two cores the thread that a core runs is taken out.
    assert_eq!(dispatch(&mut threads, CORE0), Some(a));
    assert!(!threads.inner.runqueue.is_queued(a));
    assert!(threads.inner.runqueue.is_queued(b));
    assert_eq!(threads.is_running(a), Some(0));
    assert_eq!(dispatch(&mut threads, CORE1), Some(b));
    assert!(!threads.inner.runqueue.is_queued(b));
    // A parked thread is neither in the run queue nor runnable.
    park(&mut threads, CORE0);
    assert!(!threads.inner.runqueue.is_queued(a));
    assert_eq!(threads.sched(CORE0, 0), SchedResult::Idle);
    cleanup(&mut threads, CORE1);
    assert!(!threads.inner.runqueue.is_queued(b));
    assert!(!is_valid_pid(&threads, b));
}

#[test]
fn with_one_core_the_current_thread_heads_its_queue() {
    let mut threads: Threads<1> = Threads::new();
    let a = spawn(&mut threads, CORE0, 2);
    let b = spawn(&mut threads, CORE0, 2);
    assert!(!threads.is_dispatched(CORE0));
    assert_eq!(dispatch(&mut threads, CORE0), Some(a));
    assert!(threads.is_dispatched(CORE0));
    assert!(threads.inner.runqueue.is_queued(a));
    assert_eq!(threads.inner.runqueue.head(RunqueueId::new(2)), Some(a));
    assert_eq!(threads.inner.runqueue.head(RunqueueId::new(3)), None);
    // After a yield the thread is at the tail until the scheduler has run.
    yield_same(&mut threads, CORE0);
    assert!(!threads.is_dispatched(CORE0));
    assert_eq!(threads.inner.runqueue.head(RunqueueId::new(2)), Some(b));
    assert_eq!(dispatch(&mut threads, CORE0), Some(b));
    assert!(threads.is_dispatched(CORE0));
    park(&mut threads, CORE0);
    assert!(!threads.is_dispatched(CORE0));
}

#[test]
fn a_thread_that_is_woken_while_current_is_queued_as_well() {
    let mut threads: Threads<2> = Threads::new();
    let a = spawn(&mut threads, CORE0, 2);
    assert_eq!(dispatch(&mut threads, CORE0), Some(a));
    assert!(threads.is_dispatched(CORE0));
    assert!(threads.can_set_priority(a));
    park(&mut threads, CORE0);
    // Core 1 wakes the thread before core 0 has scheduled.
    assert!(unpark(&mut threads, CORE1, a));
    assert!(threads.inner.runqueue.is_queued(a));
    assert!(!threads.is_dispatched(CORE0));
    assert!(!threads.can_set_priority(a));
    // Once core 0 has scheduled, the thread is out of the run queue again.
    assert_eq!(threads.sched(CORE0, 0), SchedResult::Same);
    assert!(!threads.inner.runqueue.is_queued(a));
    assert!(threads.is_dispatched(CORE0));
    assert!(threads.can_set_priority(a));
    assert!(threads.can_set_priority(ThreadId::new(200)));
}
