use sched_core::config::{Binding, TaskInfo};
use sched_core::dispatch::Dispatcher;
use sched_core::resource::ResourceCell;

fn running_at_3() -> Dispatcher<u32> {
    let tasks = vec![TaskInfo { priority: 3, binding: Binding::Software }];
    let mut d: Dispatcher<u32> = Dispatcher::new(&tasks, &vec![1]);
    assert!(d.spawn(0, 0).is_ok());
    assert_eq!(d.start_next(), Some((0, 0)));
    d
}

#[test]
fn direct_access_at_or_above_the_ceiling() {
    let d = running_at_3();
    let mut cell: ResourceCell<u64> = ResourceCell::new(2, 5);
    assert_eq!(cell.ceiling(), 2);
    assert_eq!(cell.get_at(&d), 5);
    cell.write_at(&d, 9);
    assert_eq!(*cell.read_at(&d), 9);
    assert_eq!(cell.replace_at(&d, 11), 9);
    assert_eq!(cell.get_at(&d), 11);
}

#[test]
fn lock_equals_direct_access_for_a_high_priority_task() {
    // The same sequence of accesses, once directly (legal: the running
    // priority 3 is above the ceiling 2) and once through the lock, must
    // leave the same final value — and the lock must leave the
    // scheduling state untouched.
    let mut d = running_at_3();
    let mut direct: ResourceCell<u64> = ResourceCell::new(2, 0);
    let mut locked: ResourceCell<u64> = ResourceCell::new(2, 0);

    let v = direct.get_at(&d);
    direct.write_at(&d, v + 41);

    let before = d.current_priority();
    let w = locked.lock_get(&mut d);
    locked.lock_write(&mut d, w + 41);
    assert_eq!(d.current_priority(), before);
    assert_eq!(d.depth(), 1);

    assert_eq!(direct.get_at(&d), locked.get_at(&d));
    assert_eq!(direct.get_at(&d), 41);
}

#[test]
fn update_under_lock_equals_direct_update() {
    // The same update function, applied once directly (the running
    // priority 3 exceeds the ceiling 2) and once through the lock
    // protocol, must leave the same final value.
    let mut d = running_at_3();
    let mut direct: ResourceCell<u64> = ResourceCell::new(2, 6);
    let mut locked: ResourceCell<u64> = ResourceCell::new(2, 6);
    direct.update_at(&d, |x| x * 7);
    locked.lock_update(&mut d, |x| x * 7);
    assert_eq!(direct.get_at(&d), locked.get_at(&d));
    assert_eq!(direct.get_at(&d), 42);
    assert_eq!(d.current_priority(), 3);
}

#[test]
fn lock_from_a_low_context_restores_the_priority() {
    let tasks = vec![TaskInfo { priority: 3, binding: Binding::Software }];
    let mut d: Dispatcher<u32> = Dispatcher::new(&tasks, &vec![1]);
    // The idle context (priority 0) locks a ceiling-3 resource.
    let mut cell: ResourceCell<u64> = ResourceCell::new(3, 7);
    assert_eq!(cell.lock_replace(&mut d, 8), 7);
    assert_eq!(cell.lock_get(&mut d), 8);
    assert_eq!(d.current_priority(), 0);
    assert_eq!(d.depth(), 0);
}
