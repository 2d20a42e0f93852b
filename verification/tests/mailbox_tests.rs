use sched_core::mailbox::{Mailbox, SpawnError};

#[test]
fn fifo_order_is_kept() {
    let mut m: Mailbox<u32> = Mailbox::new(4);
    assert!(m.is_empty());
    assert_eq!(m.capacity(), 4);
    assert!(m.enqueue(10).is_ok());
    assert!(m.enqueue(20).is_ok());
    assert!(m.enqueue(30).is_ok());
    assert_eq!(m.len(), 3);
    assert_eq!(m.dequeue(), Some(10));
    assert_eq!(m.dequeue(), Some(20));
    assert_eq!(m.dequeue(), Some(30));
    assert_eq!(m.dequeue(), None);
}

#[test]
fn burst_past_capacity_reports_each_overflow() {
    // Capacity 3: the first three of a burst are delivered in order,
    // every later one is refused — never silently dropped.
    let mut m: Mailbox<u32> = Mailbox::new(3);
    assert_eq!(m.enqueue(1), Ok(()));
    assert_eq!(m.enqueue(2), Ok(()));
    assert_eq!(m.enqueue(3), Ok(()));
    assert_eq!(m.enqueue(4), Err(SpawnError::CapacityExceeded));
    assert_eq!(m.enqueue(5), Err(SpawnError::CapacityExceeded));
    assert_eq!(m.len(), 3);
    assert_eq!(m.dequeue(), Some(1));
    assert_eq!(m.dequeue(), Some(2));
    assert_eq!(m.dequeue(), Some(3));
    assert_eq!(m.dequeue(), None);
}

#[test]
fn zero_capacity_refuses_everything() {
    let mut m: Mailbox<u8> = Mailbox::new(0);
    assert_eq!(m.enqueue(1), Err(SpawnError::CapacityExceeded));
    assert!(m.is_empty());
}

#[test]
fn capacity_frees_up_after_dequeue() {
    let mut m: Mailbox<u32> = Mailbox::new(1);
    assert_eq!(m.enqueue(7), Ok(()));
    assert_eq!(m.enqueue(8), Err(SpawnError::CapacityExceeded));
    assert_eq!(m.dequeue(), Some(7));
    assert_eq!(m.enqueue(8), Ok(()));
    assert_eq!(m.dequeue(), Some(8));
}
