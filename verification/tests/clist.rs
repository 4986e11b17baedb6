use ariel_os_threads::clist::CList;

#[test]
fn test_clist_basic() {
    let mut clist: CList<8, 32> = CList::new();
    assert!(clist.is_empty(0));
    clist.push(0, 0);
    assert_eq!(clist.pop_head(0), Some(0));
    assert_eq!(clist.pop_head(0), None);
}

#[test]
fn test_clist_push_already_in_list() {
    let mut clist: CList<8, 32> = CList::new();
    assert!(clist.is_empty(0));
    clist.push(0, 0);
    clist.push(0, 0);
    assert_eq!(clist.pop_head(0), Some(0));
    assert_eq!(clist.pop_head(0), None);
    assert!(clist.is_empty(0));
}

#[test]
fn test_clist_push_two() {
    let mut clist: CList<8, 32> = CList::new();
    assert!(clist.is_empty(0));
    clist.push(0, 0);
    clist.push(1, 0);
    assert_eq!(clist.pop_head(0), Some(0));
    assert_eq!(clist.pop_head(0), Some(1));
    assert_eq!(clist.pop_head(0), None);
    assert!(clist.is_empty(0));
}

#[test]
fn test_clist_push_all() {
    const N: usize = 255;
    let mut clist: CList<8, N> = CList::new();
    assert!(clist.is_empty(0));
    for i in 0..(N - 1) {
        println!("pushing {}", i);
        clist.push(i as u8, 0);
    }
    for i in 0..(N - 1) {
        println!("{}", i);
        assert_eq!(clist.pop_head(0), Some(i as u8));
    }
    assert_eq!(clist.pop_head(0), None);
    assert!(clist.is_empty(0));
}

#[test]
fn test_clist_advance() {
    let mut clist: CList<8, 32> = CList::new();
    assert!(clist.is_empty(0));
    clist.push(0, 0);
    clist.push(1, 0);
    clist.advance(0);
    assert_eq!(clist.pop_head(0), Some(1));
    assert_eq!(clist.pop_head(0), Some(0));
    assert_eq!(clist.pop_head(0), None);
    assert!(clist.is_empty(0));
}

#[test]
fn test_clist_peek_head() {
    let mut clist: CList<8, 32> = CList::new();
    assert!(clist.is_empty(0));
    clist.push(0, 0);
    clist.push(1, 0);
    assert_eq!(clist.peek_head(0), Some(0));
    assert_eq!(clist.peek_head(0), Some(0));
    assert_eq!(clist.pop_head(0), Some(0));
    assert_eq!(clist.peek_head(0), Some(1));
    assert_eq!(clist.pop_head(0), Some(1));
    assert_eq!(clist.peek_head(0), None);
    assert_eq!(clist.peek_head(0), None);
    assert_eq!(clist.pop_head(0), None);
    assert!(clist.is_empty(0));
}

#[test]
fn clist_sentinel_is_0xff() {
    assert_eq!(CList::<8, 32>::sentinel(), 0xFF);
}

#[test]
fn clist_pop_head_of_empty_queue_is_none() {
    let mut clist: CList<4, 8> = CList::new();
    assert_eq!(clist.pop_head(3), None);
    clist.push(1, 2);
    assert_eq!(clist.pop_head(3), None);
    assert_eq!(clist.peek_head(2), Some(1));
}

#[test]
fn clist_del_of_thread_in_no_list_changes_nothing() {
    let mut clist: CList<4, 8> = CList::new();
    clist.push(1, 0);
    clist.push(2, 0);
    clist.del(5, 0);
    assert_eq!(clist.pop_head(0), Some(1));
    assert_eq!(clist.pop_head(0), Some(2));
    assert_eq!(clist.pop_head(0), None);
}

#[test]
fn clist_del_head_middle_and_tail() {
    let mut clist: CList<4, 8> = CList::new();
    for n in 0..5u8 {
        clist.push(n, 1);
    }
    clist.del(2, 1);
    clist.del(0, 1);
    clist.del(4, 1);
    // The tail has moved to 3: a new member goes behind it.
    clist.push(6, 1);
    assert_eq!(clist.pop_head(1), Some(1));
    assert_eq!(clist.pop_head(1), Some(3));
    assert_eq!(clist.pop_head(1), Some(6));
    assert_eq!(clist.pop_head(1), None);
    // The deleted members are free again.
    clist.push(2, 0);
    assert_eq!(clist.peek_head(0), Some(2));
}

#[test]
fn clist_del_only_member_empties_the_list() {
    let mut clist: CList<4, 8> = CList::new();
    clist.push(3, 2);
    clist.del(3, 2);
    assert!(clist.is_empty(2));
    assert_eq!(clist.peek_next(3), 0xFF);
}

#[test]
fn clist_peek_next_follows_the_cycle() {
    let mut clist: CList<4, 8> = CList::new();
    clist.push(4, 0);
    clist.push(5, 0);
    clist.push(6, 0);
    assert_eq!(clist.peek_next(4), 5);
    assert_eq!(clist.peek_next(5), 6);
    assert_eq!(clist.peek_next(6), 4);
    assert_eq!(clist.peek_next(7), 0xFF);
}

#[test]
fn clist_pop_next_takes_the_second_member() {
    let mut clist: CList<4, 8> = CList::new();
    assert_eq!(clist.pop_next(0), None);
    clist.push(1, 0);
    assert_eq!(clist.pop_next(0), None);
    clist.push(2, 0);
    clist.push(3, 0);
    assert_eq!(clist.pop_next(0), Some(2));
    assert_eq!(clist.pop_next(0), Some(3));
    assert_eq!(clist.pop_next(0), None);
    // With the second of two members gone, the head is the tail.
    clist.push(4, 0);
    assert_eq!(clist.pop_head(0), Some(1));
    assert_eq!(clist.pop_head(0), Some(4));
    assert_eq!(clist.pop_head(0), None);
}

#[test]
fn clist_queues_are_independent() {
    let mut clist: CList<4, 8> = CList::new();
    clist.push(0, 0);
    clist.push(1, 1);
    clist.push(2, 0);
    // A member of one list is not pushed to another.
    clist.push(1, 0);
    assert_eq!(clist.pop_head(0), Some(0));
    assert_eq!(clist.pop_head(0), Some(2));
    assert_eq!(clist.pop_head(0), None);
    assert_eq!(clist.pop_head(1), Some(1));
}

#[test]
fn clist_advance_of_empty_queue_is_false() {
    let mut clist: CList<4, 8> = CList::new();
    assert!(!clist.advance(0));
    clist.push(1, 0);
    assert!(clist.advance(0));
    assert_eq!(clist.peek_head(0), Some(1));
}

#[test]
fn clist_is_in_list() {
    let mut clist: CList<4, 8> = CList::new();
    assert!(!clist.is_in_list(3));
    clist.push(3, 1);
    assert!(clist.is_in_list(3));
    assert!(!clist.is_in_list(2));
    clist.pop_head(1);
    assert!(!clist.is_in_list(3));
}
