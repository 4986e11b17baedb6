use ariel_os_threads::ids::{CoreId, RunqueueId, ThreadId};
use ariel_os_threads::sync::channel::{Channel, Transfer};
use ariel_os_threads::sync::condvar::Condvar;
use ariel_os_threads::sync::lock::Lock;
use ariel_os_threads::sync::mutex::Mutex;
use ariel_os_threads::sync::semaphore::Semaphore;
use ariel_os_threads::thread::{ThreadState, WaitMode};
use ariel_os_threads::thread_flags;
use ariel_os_threads::threadlist::ThreadList;
use ariel_os_threads::threads::Threads;
use ariel_os_threads::{create, get_priority, park, set_priority, unpark};

const CORE0: CoreId = CoreId(0);
const CORE1: CoreId = CoreId(1);

fn start<const N: usize>(threads: &mut Threads<N>, prio: u8) -> ThreadId {
    create(threads, CORE0, 0x100, 0, 0x2000_0000, 1024, 0x200, prio, None).unwrap()
}

/// Runs the scheduler on `core` and returns the thread that is current then.
fn run<const N: usize>(threads: &mut Threads<N>, core: CoreId) -> Option<ThreadId> {
    threads.take_reschedule(core);
    threads.sched(core, 0);
    threads.current_pid(core)
}

fn prio<const N: usize>(threads: &Threads<N>, thread: ThreadId) -> u8 {
    get_priority(threads, thread).unwrap().0
}

#[test]
fn thread_list_orders_by_priority_then_arrival() {
    let mut threads: Threads<1> = Threads::new();
    let mut list = ThreadList::new();
    assert!(list.is_empty());
    assert_eq!(list.pop(&mut threads, CORE0), None);
    let t0 = start(&mut threads, 2);
    let t1 = start(&mut threads, 5);
    let t2 = start(&mut threads, 2);
    let t3 = start(&mut threads, 3);
    let idle = start(&mut threads, 0);
    assert_eq!(run(&mut threads, CORE0), Some(t1));
    // The first to wait is the head: its priority is returned.
    assert_eq!(
        list.put_current(&mut threads, CORE0, ThreadState::Parked),
        Some(RunqueueId::new(5))
    );
    assert_eq!(run(&mut threads, CORE0), Some(t3));
    assert_eq!(list.put_current(&mut threads, CORE0, ThreadState::Parked), None);
    assert_eq!(run(&mut threads, CORE0), Some(t0));
    assert_eq!(list.put_current(&mut threads, CORE0, ThreadState::Parked), None);
    assert_eq!(run(&mut threads, CORE0), Some(t2));
    assert_eq!(list.put_current(&mut threads, CORE0, ThreadState::LockBlocked), None);
    assert_eq!(run(&mut threads, CORE0), Some(idle));
    assert!(!list.is_empty());
    assert_eq!(list.head, Some(t1));
    assert_eq!(list.pop(&mut threads, CORE0), Some((t1, ThreadState::Parked)));
    assert_eq!(threads.get_state(t1), Some(ThreadState::Running));
    assert!(threads.take_reschedule(CORE0));
    assert_eq!(list.pop(&mut threads, CORE0), Some((t3, ThreadState::Parked)));
    assert_eq!(list.pop(&mut threads, CORE0), Some((t0, ThreadState::Parked)));
    assert_eq!(list.pop(&mut threads, CORE0), Some((t2, ThreadState::LockBlocked)));
    assert_eq!(list.pop(&mut threads, CORE0), None);
    assert!(list.is_empty());
}

#[test]
fn thread_list_a_higher_priority_becomes_the_head() {
    let mut threads: Threads<1> = Threads::new();
    let mut list = ThreadList::new();
    let low = start(&mut threads, 1);
    let high = start(&mut threads, 4);
    start(&mut threads, 0);
    assert_eq!(run(&mut threads, CORE0), Some(high));
    park(&mut threads, CORE0);
    assert_eq!(run(&mut threads, CORE0), Some(low));
    assert_eq!(
        list.put_current(&mut threads, CORE0, ThreadState::LockBlocked),
        Some(RunqueueId::new(1))
    );
    run(&mut threads, CORE0);
    unpark(&mut threads, CORE0, high);
    assert_eq!(run(&mut threads, CORE0), Some(high));
    assert_eq!(
        list.put_current(&mut threads, CORE0, ThreadState::LockBlocked),
        Some(RunqueueId::new(4))
    );
    assert_eq!(list.head, Some(high));
    assert_eq!(threads.inner.thread_blocklist[high.0 as usize], Some(low));
    assert_eq!(threads.inner.thread_blocklist[low.0 as usize], None);
}

#[test]
fn thread_list_drain_wakes_all() {
    let mut threads: Threads<1> = Threads::new();
    let mut list = ThreadList::new();
    let t0 = start(&mut threads, 1);
    let t1 = start(&mut threads, 1);
    start(&mut threads, 0);
    run(&mut threads, CORE0);
    list.put_current(&mut threads, CORE0, ThreadState::CondVarBlocked);
    run(&mut threads, CORE0);
    list.put_current(&mut threads, CORE0, ThreadState::CondVarBlocked);
    run(&mut threads, CORE0);
    list.drain(&mut threads, CORE0);
    assert!(list.is_empty());
    assert_eq!(threads.get_state(t0), Some(ThreadState::Running));
    assert_eq!(threads.get_state(t1), Some(ThreadState::Running));
    assert_eq!(run(&mut threads, CORE0), Some(t0));
}

#[test]
fn lock_is_taken_and_released() {
    let mut threads: Threads<1> = Threads::new();
    let mut lock = Lock::new();
    let t0 = start(&mut threads, 1);
    run(&mut threads, CORE0);
    assert!(!lock.is_locked());
    // Releasing an unlocked lock does nothing.
    lock.release(&mut threads, CORE0);
    assert!(!lock.is_locked());
    assert!(lock.acquire(&mut threads, CORE0));
    assert!(lock.is_locked());
    // The owner acquires its lock again without blocking.
    assert!(lock.acquire(&mut threads, CORE0));
    assert!(lock.try_acquire(&threads, CORE0));
    assert_eq!(threads.get_state(t0), Some(ThreadState::Running));
    lock.release(&mut threads, CORE0);
    assert!(!lock.is_locked());
    assert!(lock.try_acquire(&threads, CORE0));
    assert!(lock.is_locked());
}

#[test]
fn lock_release_by_another_thread_is_ignored() {
    let mut threads: Threads<1> = Threads::new();
    let mut lock = Lock::new();
    let owner = start(&mut threads, 2);
    let other = start(&mut threads, 1);
    assert_eq!(run(&mut threads, CORE0), Some(owner));
    assert!(lock.acquire(&mut threads, CORE0));
    park(&mut threads, CORE0);
    assert_eq!(run(&mut threads, CORE0), Some(other));
    assert!(!lock.try_acquire(&threads, CORE0));
    lock.release(&mut threads, CORE0);
    assert!(lock.is_locked());
    assert!(!lock.try_acquire(&threads, CORE0));
    assert!(!threads.take_reschedule(CORE0));
}

#[test]
fn lock_with_priority_inheritance() {
    let mut threads: Threads<1> = Threads::new();
    let mut lock = Lock::new();
    let t0 = start(&mut threads, 1);
    let t1 = start(&mut threads, 10);
    let t2 = start(&mut threads, 1);
    // Threads 1 and 2 do not run yet.
    assert_eq!(run(&mut threads, CORE0), Some(t1));
    park(&mut threads, CORE0);
    assert_eq!(run(&mut threads, CORE0), Some(t0));
    assert!(lock.acquire(&mut threads, CORE0));
    // Thread 1 wants the lock: thread 0 inherits its priority.
    unpark(&mut threads, CORE0, t1);
    assert_eq!(run(&mut threads, CORE0), Some(t1));
    assert!(!lock.acquire(&mut threads, CORE0));
    assert_eq!(threads.get_state(t1), Some(ThreadState::LockBlocked));
    assert_eq!(prio(&threads, t0), 10);
    assert_eq!(run(&mut threads, CORE0), Some(t0));
    // Thread 2 queues for the lock too, while thread 0 yields to nobody.
    park(&mut threads, CORE0);
    assert_eq!(run(&mut threads, CORE0), Some(t2));
    assert!(!lock.acquire(&mut threads, CORE0));
    assert_eq!(prio(&threads, t0), 10);
    unpark(&mut threads, CORE0, t0);
    assert_eq!(run(&mut threads, CORE0), Some(t0));
    // Thread 0 releases: it has its own priority again, thread 1 owns.
    lock.release(&mut threads, CORE0);
    assert_eq!(prio(&threads, t0), 1);
    assert!(lock.is_locked());
    assert_eq!(threads.get_state(t1), Some(ThreadState::Running));
    assert!(threads.take_reschedule(CORE0));
    assert_eq!(run(&mut threads, CORE0), Some(t1));
    assert!(lock.acquire(&mut threads, CORE0));
    lock.release(&mut threads, CORE0);
    assert_eq!(prio(&threads, t1), 10);
    assert_eq!(threads.get_state(t2), Some(ThreadState::Running));
    park(&mut threads, CORE0);
    // Thread 0 was runnable before thread 2 was woken.
    assert_eq!(run(&mut threads, CORE0), Some(t0));
    park(&mut threads, CORE0);
    assert_eq!(run(&mut threads, CORE0), Some(t2));
    assert!(lock.acquire(&mut threads, CORE0));
    lock.release(&mut threads, CORE0);
    assert!(!lock.is_locked());
}

#[test]
fn lock_does_not_lower_the_priority_of_the_owner() {
    let mut threads: Threads<1> = Threads::new();
    let mut lock = Lock::new();
    let owner = start(&mut threads, 5);
    let waiter = start(&mut threads, 3);
    assert_eq!(run(&mut threads, CORE0), Some(owner));
    assert!(lock.acquire(&mut threads, CORE0));
    park(&mut threads, CORE0);
    assert_eq!(run(&mut threads, CORE0), Some(waiter));
    assert!(!lock.acquire(&mut threads, CORE0));
    assert_eq!(prio(&threads, owner), 5);
}

#[test]
fn mutex_guards_its_data() {
    let mut threads: Threads<1> = Threads::new();
    let mut mutex = Mutex::new(10u32);
    let a = start(&mut threads, 2);
    let b = start(&mut threads, 1);
    assert_eq!(run(&mut threads, CORE0), Some(a));
    assert!(!mutex.is_locked());
    assert_eq!(mutex.get(&threads, CORE0), None);
    assert!(!mutex.set(&threads, CORE0, 11));
    assert!(mutex.lock(&mut threads, CORE0));
    assert!(mutex.is_locked());
    assert_eq!(mutex.get(&threads, CORE0), Some(&10));
    assert!(mutex.set(&threads, CORE0, 12));
    park(&mut threads, CORE0);
    assert_eq!(run(&mut threads, CORE0), Some(b));
    assert!(!mutex.try_lock(&threads, CORE0));
    assert_eq!(mutex.get(&threads, CORE0), None);
    assert!(!mutex.set(&threads, CORE0, 13));
    assert!(!mutex.lock(&mut threads, CORE0));
    assert_eq!(threads.get_state(b), Some(ThreadState::LockBlocked));
    unpark(&mut threads, CORE0, a);
    assert_eq!(run(&mut threads, CORE0), Some(a));
    mutex.release(&mut threads, CORE0);
    assert_eq!(mutex.get(&threads, CORE0), None);
    park(&mut threads, CORE0);
    assert_eq!(run(&mut threads, CORE0), Some(b));
    assert_eq!(mutex.get(&threads, CORE0), Some(&12));
    mutex.release(&mut threads, CORE0);
    assert!(!mutex.is_locked());
    assert!(mutex.try_lock(&threads, CORE0));
}

#[test]
fn semaphore_counts_down_and_up() {
    let mut threads: Threads<1> = Threads::new();
    let mut semaphore: Semaphore<2> = Semaphore::new();
    let a = start(&mut threads, 1);
    let b = start(&mut threads, 1);
    start(&mut threads, 0);
    assert_eq!(run(&mut threads, CORE0), Some(a));
    assert!(!semaphore.is_locked());
    assert!(semaphore.acquire(&mut threads, CORE0));
    assert!(!semaphore.is_locked());
    assert!(semaphore.try_acquire());
    assert!(semaphore.is_locked());
    assert!(!semaphore.try_acquire());
    assert!(!semaphore.acquire(&mut threads, CORE0));
    assert_eq!(threads.get_state(a), Some(ThreadState::LockBlocked));
    assert_eq!(run(&mut threads, CORE0), Some(b));
    // The waiting thread gets the semaphore: it stays locked.
    semaphore.release(&mut threads, CORE0);
    assert_eq!(threads.get_state(a), Some(ThreadState::Running));
    assert!(semaphore.is_locked());
    semaphore.release(&mut threads, CORE0);
    assert!(!semaphore.is_locked());
    semaphore.release(&mut threads, CORE0);
    assert!(semaphore.try_acquire());
    assert!(semaphore.try_acquire());
    assert!(!semaphore.try_acquire());
}

#[test]
fn semaphore_can_start_locked() {
    let mut threads: Threads<1> = Threads::new();
    let mut semaphore: Semaphore<1> = Semaphore::new_locked();
    assert!(semaphore.is_locked());
    assert!(!semaphore.try_acquire());
    semaphore.release(&mut threads, CORE0);
    assert!(!semaphore.is_locked());
    assert!(semaphore.try_acquire());
}

#[test]
fn condvar_notifies_in_order() {
    let mut threads: Threads<1> = Threads::new();
    let mut mutex = Mutex::new(0u32);
    let mut condvar = Condvar::new();
    let main = start(&mut threads, 1);
    let w0 = start(&mut threads, 2);
    let w1 = start(&mut threads, 2);
    let w2 = start(&mut threads, 2);
    // The three waiters take the mutex in turn, wait, and release it.
    for waiter in [w0, w1, w2] {
        assert_eq!(run(&mut threads, CORE0), Some(waiter));
        assert!(mutex.lock(&mut threads, CORE0));
        condvar.wait(&mut mutex, &mut threads, CORE0);
        assert_eq!(threads.get_state(waiter), Some(ThreadState::CondVarBlocked));
        assert!(!mutex.is_locked());
    }
    assert_eq!(run(&mut threads, CORE0), Some(main));
    assert!(mutex.lock(&mut threads, CORE0));
    assert!(mutex.set(&threads, CORE0, 1));
    mutex.release(&mut threads, CORE0);
    condvar.notify_one(&mut threads, CORE0);
    // The waiter that waited first wakes up, and preempts.
    assert_eq!(threads.get_state(w0), Some(ThreadState::Running));
    assert_eq!(threads.get_state(w1), Some(ThreadState::CondVarBlocked));
    assert!(threads.take_reschedule(CORE0));
    assert_eq!(run(&mut threads, CORE0), Some(w0));
    assert!(mutex.lock(&mut threads, CORE0));
    assert_eq!(mutex.get(&threads, CORE0), Some(&1));
    assert!(mutex.set(&threads, CORE0, 2));
    mutex.release(&mut threads, CORE0);
    condvar.notify_all(&mut threads, CORE0);
    assert_eq!(threads.get_state(w1), Some(ThreadState::Running));
    assert_eq!(threads.get_state(w2), Some(ThreadState::Running));
    park(&mut threads, CORE0);
    assert_eq!(run(&mut threads, CORE0), Some(w1));
    assert!(mutex.lock(&mut threads, CORE0));
    assert_eq!(mutex.get(&threads, CORE0), Some(&2));
    mutex.release(&mut threads, CORE0);
    park(&mut threads, CORE0);
    assert_eq!(run(&mut threads, CORE0), Some(w2));
    // Notifications are not kept.
    condvar.notify_one(&mut threads, CORE0);
    condvar.notify_all(&mut threads, CORE0);
    assert!(!threads.take_reschedule(CORE0));
}

#[test]
fn condvar_wait_hands_the_mutex_to_the_next() {
    let mut threads: Threads<1> = Threads::new();
    let mut mutex = Mutex::new(());
    let mut condvar = Condvar::new();
    let a = start(&mut threads, 2);
    let b = start(&mut threads, 2);
    start(&mut threads, 0);
    assert_eq!(run(&mut threads, CORE0), Some(a));
    assert!(mutex.lock(&mut threads, CORE0));
    park(&mut threads, CORE0);
    assert_eq!(run(&mut threads, CORE0), Some(b));
    assert!(!mutex.lock(&mut threads, CORE0));
    unpark(&mut threads, CORE0, a);
    assert_eq!(run(&mut threads, CORE0), Some(a));
    condvar.wait(&mut mutex, &mut threads, CORE0);
    assert_eq!(threads.get_state(a), Some(ThreadState::CondVarBlocked));
    assert_eq!(threads.get_state(b), Some(ThreadState::Running));
    assert_eq!(run(&mut threads, CORE0), Some(b));
    assert!(mutex.get(&threads, CORE0).is_some());
}

#[test]
fn channel_receiver_waits_first() {
    let mut threads: Threads<1> = Threads::new();
    let mut channel = Channel::new();
    let sender = start(&mut threads, 1);
    let receiver = start(&mut threads, 2);
    assert_eq!(run(&mut threads, CORE0), Some(receiver));
    assert_eq!(channel.try_recv(&mut threads, CORE0, 0x500), None);
    assert_eq!(channel.recv(&mut threads, CORE0, 0x500), None);
    assert_eq!(threads.get_state(receiver), Some(ThreadState::ChannelRxBlocked(0x500)));
    assert_eq!(run(&mut threads, CORE0), Some(sender));
    // The sender finds the receiver waiting, and does not block.
    assert_eq!(
        channel.send(&mut threads, CORE0, 0x900),
        Some(Transfer { partner: receiver, src: 0x900, dst: 0x500 })
    );
    assert_eq!(threads.get_state(sender), Some(ThreadState::Running));
    assert_eq!(threads.get_state(receiver), Some(ThreadState::Running));
    assert!(threads.take_reschedule(CORE0));
    // The channel is idle again.
    assert_eq!(channel.try_send(&mut threads, CORE0, 0x900), None);
}

#[test]
fn channel_sender_waits_first() {
    let mut threads: Threads<1> = Threads::new();
    let mut channel = Channel::new();
    let sender = start(&mut threads, 2);
    let receiver = start(&mut threads, 1);
    assert_eq!(run(&mut threads, CORE0), Some(sender));
    assert_eq!(channel.try_send(&mut threads, CORE0, 0x900), None);
    assert_eq!(threads.get_state(sender), Some(ThreadState::Running));
    assert_eq!(channel.send(&mut threads, CORE0, 0x900), None);
    assert_eq!(threads.get_state(sender), Some(ThreadState::ChannelTxBlocked(0x900)));
    assert_eq!(run(&mut threads, CORE0), Some(receiver));
    // The receiver copies from the place that the sender left.
    assert_eq!(
        channel.recv(&mut threads, CORE0, 0x500),
        Some(Transfer { partner: sender, src: 0x900, dst: 0x500 })
    );
    assert_eq!(threads.get_state(sender), Some(ThreadState::Running));
    assert_eq!(channel.try_recv(&mut threads, CORE0, 0x500), None);
}

#[test]
fn channel_serves_senders_by_priority() {
    let mut threads: Threads<1> = Threads::new();
    let mut channel = Channel::new();
    let low = start(&mut threads, 1);
    let high = start(&mut threads, 3);
    let receiver = start(&mut threads, 0);
    assert_eq!(run(&mut threads, CORE0), Some(high));
    park(&mut threads, CORE0);
    assert_eq!(run(&mut threads, CORE0), Some(low));
    assert_eq!(channel.send(&mut threads, CORE0, 0x10), None);
    unpark(&mut threads, CORE0, high);
    assert_eq!(run(&mut threads, CORE0), Some(high));
    assert_eq!(channel.send(&mut threads, CORE0, 0x30), None);
    assert_eq!(run(&mut threads, CORE0), Some(receiver));
    assert_eq!(
        channel.try_recv(&mut threads, CORE0, 0x500),
        Some(Transfer { partner: high, src: 0x30, dst: 0x500 })
    );
    assert_eq!(
        channel.recv(&mut threads, CORE0, 0x508),
        Some(Transfer { partner: low, src: 0x10, dst: 0x508 })
    );
    // No sender is left: the receiver blocks.
    assert_eq!(channel.recv(&mut threads, CORE0, 0x510), None);
    assert_eq!(threads.get_state(receiver), Some(ThreadState::ChannelRxBlocked(0x510)));
}

#[test]
fn flags_wait_any() {
    let mut threads: Threads<1> = Threads::new();
    let waiter = start(&mut threads, 2);
    let setter = start(&mut threads, 1);
    assert_eq!(run(&mut threads, CORE0), Some(waiter));
    assert_eq!(thread_flags::get(&threads, CORE0), 0);
    assert_eq!(thread_flags::wait_any(&mut threads, CORE0, 0b0110), None);
    assert_eq!(
        threads.get_state(waiter),
        Some(ThreadState::FlagBlocked(WaitMode::Any(0b0110)))
    );
    assert_eq!(run(&mut threads, CORE0), Some(setter));
    // A flag outside the mask does not wake the thread.
    thread_flags::set(&mut threads, CORE0, waiter, 0b1000);
    assert_eq!(
        threads.get_state(waiter),
        Some(ThreadState::FlagBlocked(WaitMode::Any(0b0110)))
    );
    thread_flags::set(&mut threads, CORE0, waiter, 0b0011);
    assert_eq!(threads.get_state(waiter), Some(ThreadState::Running));
    assert!(threads.take_reschedule(CORE0));
    assert_eq!(run(&mut threads, CORE0), Some(waiter));
    // The flags of the mask that are set are returned and cleared.
    assert_eq!(thread_flags::wait_any(&mut threads, CORE0, 0b0110), Some(0b0010));
    assert_eq!(thread_flags::get(&threads, CORE0), 0b1001);
}

#[test]
fn flags_wait_all() {
    let mut threads: Threads<1> = Threads::new();
    let waiter = start(&mut threads, 2);
    let setter = start(&mut threads, 1);
    assert_eq!(run(&mut threads, CORE0), Some(waiter));
    assert_eq!(thread_flags::wait_all(&mut threads, CORE0, 0b0101), None);
    assert_eq!(run(&mut threads, CORE0), Some(setter));
    thread_flags::set(&mut threads, CORE0, waiter, 0b0001);
    assert_eq!(
        threads.get_state(waiter),
        Some(ThreadState::FlagBlocked(WaitMode::All(0b0101)))
    );
    thread_flags::set(&mut threads, CORE0, waiter, 0b1100);
    assert_eq!(threads.get_state(waiter), Some(ThreadState::Running));
    assert_eq!(run(&mut threads, CORE0), Some(waiter));
    assert_eq!(thread_flags::wait_all(&mut threads, CORE0, 0b0101), Some(0b0101));
    assert_eq!(thread_flags::get(&threads, CORE0), 0b1000);
}

#[test]
fn flags_wait_one_takes_the_lowest() {
    let mut threads: Threads<1> = Threads::new();
    let thread = start(&mut threads, 1);
    assert_eq!(run(&mut threads, CORE0), Some(thread));
    thread_flags::set(&mut threads, CORE0, thread, 0b1011_0100);
    assert_eq!(thread_flags::wait_one(&mut threads, CORE0, 0b1111_0000), Some(0b0001_0000));
    assert_eq!(thread_flags::wait_one(&mut threads, CORE0, 0b1111_0000), Some(0b0010_0000));
    assert_eq!(thread_flags::wait_one(&mut threads, CORE0, 0xFFFF), Some(0b0000_0100));
    assert_eq!(thread_flags::get(&threads, CORE0), 0b1000_0000);
    assert_eq!(thread_flags::wait_one(&mut threads, CORE0, 0x8000), None);
    assert_eq!(
        threads.get_state(thread),
        Some(ThreadState::FlagBlocked(WaitMode::Any(0x8000)))
    );
}

#[test]
fn flags_clear() {
    let mut threads: Threads<1> = Threads::new();
    let thread = start(&mut threads, 1);
    run(&mut threads, CORE0);
    thread_flags::set(&mut threads, CORE0, thread, 0b1110);
    assert_eq!(thread_flags::clear(&mut threads, CORE0, 0b0111), 0b0110);
    assert_eq!(thread_flags::get(&threads, CORE0), 0b1000);
    assert_eq!(thread_flags::clear(&mut threads, CORE0, 0b0111), 0);
}

#[test]
fn flags_set_for_a_thread_that_does_not_wait() {
    let mut threads: Threads<1> = Threads::new();
    let a = start(&mut threads, 1);
    let b = start(&mut threads, 1);
    run(&mut threads, CORE0);
    thread_flags::set(&mut threads, CORE0, b, 0b1);
    assert!(!threads.take_reschedule(CORE0));
    assert_eq!(threads.get_state(b), Some(ThreadState::Running));
    park(&mut threads, CORE0);
    assert_eq!(run(&mut threads, CORE0), Some(b));
    // A parked thread is not woken by flags.
    thread_flags::set(&mut threads, CORE0, a, 0xFFFF);
    assert_eq!(threads.get_state(a), Some(ThreadState::Parked));
    assert_eq!(thread_flags::wait_all(&mut threads, CORE0, 0b1), Some(0b1));
}

#[test]
fn lock_on_two_cores() {
    let mut threads: Threads<2> = Threads::new();
    let mut lock = Lock::new();
    let a = start(&mut threads, 1);
    let b = start(&mut threads, 4);
    assert_eq!(run(&mut threads, CORE0), Some(b));
    assert_eq!(run(&mut threads, CORE1), Some(a));
    assert!(lock.acquire(&mut threads, CORE1));
    assert!(!lock.acquire(&mut threads, CORE0));
    // The owner runs on core 1 with the priority of the thread that waits.
    assert_eq!(prio(&threads, a), 4);
    assert!(threads.take_reschedule(CORE0));
    // Core 0 finds nothing to run: the blocked thread stays its current.
    assert_eq!(run(&mut threads, CORE0), Some(b));
    lock.release(&mut threads, CORE1);
    assert_eq!(prio(&threads, a), 1);
    assert_eq!(threads.get_state(b), Some(ThreadState::Running));
    set_priority(&mut threads, CORE1, a, RunqueueId::new(1));
    assert!(lock.is_locked());
}

#[test]
fn lock_keeps_a_priority_of_the_owner_that_is_higher_still() {
    let mut threads: Threads<1> = Threads::new();
    let mut lock = Lock::new();
    let owner = start(&mut threads, 1);
    let waiter = start(&mut threads, 5);
    assert_eq!(run(&mut threads, CORE0), Some(waiter));
    park(&mut threads, CORE0);
    assert_eq!(run(&mut threads, CORE0), Some(owner));
    assert!(lock.acquire(&mut threads, CORE0));
    // The owner is given a higher priority while it holds the lock.
    set_priority(&mut threads, CORE0, owner, RunqueueId::new(8));
    unpark(&mut threads, CORE0, waiter);
    park(&mut threads, CORE0);
    assert_eq!(run(&mut threads, CORE0), Some(waiter));
    assert!(!lock.acquire(&mut threads, CORE0));
    assert_eq!(prio(&threads, owner), 8);
    unpark(&mut threads, CORE0, owner);
    assert_eq!(run(&mut threads, CORE0), Some(owner));
    // On release it has the priority with which it took the lock.
    lock.release(&mut threads, CORE0);
    assert_eq!(prio(&threads, owner), 1);
    assert_eq!(threads.get_state(waiter), Some(ThreadState::Running));
}
