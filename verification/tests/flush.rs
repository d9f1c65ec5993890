use vanyline_sandbox::flush::FlushBook;

#[test]
fn flush_ids_start_at_one_and_increase() {
    let mut b = FlushBook::new();
    assert_eq!(b.waiter_count(), 0);
    assert!(b.can_begin());
    assert_eq!(b.begin(), 1);
    assert_eq!(b.begin(), 2);
    assert_eq!(b.waiter_count(), 2);
}

#[test]
fn flush_first_ack_wins() {
    let mut b = FlushBook::new();
    let id = b.begin();
    assert!(b.ack(id));
    assert!(!b.ack(id));
    assert_eq!(b.waiter_count(), 0);
}

#[test]
fn flush_unknown_ack_is_ignored() {
    let mut b = FlushBook::new();
    let id = b.begin();
    assert!(!b.ack(id + 41));
    assert_eq!(b.waiter_count(), 1);
}

#[test]
fn flush_timeout_leaves_no_waiter() {
    let mut b = FlushBook::new();
    let first = b.begin();
    let second = b.begin();
    b.expire(first);
    assert_eq!(b.waiter_count(), 1);
    assert!(!b.ack(first));
    assert!(b.ack(second));
    assert_eq!(b.waiter_count(), 0);
}
