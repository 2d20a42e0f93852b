use sched_core::config::{Binding, TaskInfo};
use sched_core::dispatch::{Dispatcher, TaskState, TriggerError};

fn infos() -> Vec<TaskInfo> {
    vec![
        TaskInfo { priority: 3, binding: Binding::Interrupt(7) },
        TaskInfo { priority: 2, binding: Binding::Software },
        TaskInfo { priority: 1, binding: Binding::Software },
    ]
}

fn fresh(caps: Vec<usize>) -> Dispatcher<u32> {
    Dispatcher::new(&infos(), &caps)
}

#[test]
fn everything_starts_idle() {
    let d = fresh(vec![2, 2, 2]);
    assert_eq!(d.task_count(), 3);
    assert_eq!(d.current_priority(), 0);
    assert_eq!(d.depth(), 0);
    assert_eq!(d.state_of(0), TaskState::Idle);
    assert_eq!(d.state_of(1), TaskState::Idle);
    assert_eq!(d.state_of(2), TaskState::Idle);
}

#[test]
fn higher_priority_pending_task_runs_first() {
    let mut d = fresh(vec![2, 2, 2]);
    // Make the priority-1 and priority-2 tasks pending at the same time.
    assert!(d.spawn(2, 111).is_ok());
    assert!(d.spawn(1, 222).is_ok());
    assert_eq!(d.state_of(1), TaskState::Pending);
    assert_eq!(d.state_of(2), TaskState::Pending);
    // The higher-priority one is chosen.
    assert_eq!(d.next_ready(), Some(1));
    assert_eq!(d.start_next(), Some((1, 222)));
    assert_eq!(d.state_of(1), TaskState::Running);
    assert_eq!(d.current_priority(), 2);
    // The lower one cannot start while it runs.
    assert_eq!(d.next_ready(), None);
    assert_eq!(d.start_next(), None);
    assert_eq!(d.complete_current(), 1);
    assert_eq!(d.state_of(1), TaskState::Idle);
    // Now the lower one goes.
    assert_eq!(d.start_next(), Some((2, 111)));
    assert_eq!(d.complete_current(), 2);
}

#[test]
fn preemption_nests_and_resumes() {
    let mut d = fresh(vec![2, 2, 2]);
    assert!(d.spawn(2, 5).is_ok());
    assert_eq!(d.start_next(), Some((2, 5)));
    assert_eq!(d.depth(), 1);
    // A higher-priority task arrives while the low one runs: it preempts.
    assert!(d.spawn(0, 9).is_ok());
    assert_eq!(d.start_next(), Some((0, 9)));
    assert_eq!(d.depth(), 2);
    assert_eq!(d.current_priority(), 3);
    assert_eq!(d.state_of(2), TaskState::Suspended);
    assert_eq!(d.state_of(0), TaskState::Running);
    // The preempted task resumes exactly when the preemptor returns.
    assert_eq!(d.complete_current(), 0);
    assert_eq!(d.state_of(2), TaskState::Running);
    assert_eq!(d.current_priority(), 1);
    assert_eq!(d.complete_current(), 2);
    assert_eq!(d.depth(), 0);
    assert_eq!(d.current_priority(), 0);
}

#[test]
fn equal_priority_does_not_preempt() {
    let tasks = vec![
        TaskInfo { priority: 2, binding: Binding::Software },
        TaskInfo { priority: 2, binding: Binding::Software },
    ];
    let mut d: Dispatcher<u32> = Dispatcher::new(&tasks, &vec![1, 1]);
    assert!(d.spawn(0, 1).is_ok());
    assert_eq!(d.start_next(), Some((0, 1)));
    assert!(d.spawn(1, 2).is_ok());
    // Same priority: stays pending until the running task returns.
    assert_eq!(d.start_next(), None);
    assert_eq!(d.complete_current(), 0);
    assert_eq!(d.start_next(), Some((1, 2)));
}

#[test]
fn one_payload_is_drained_per_dispatch() {
    let mut d = fresh(vec![2, 2, 2]);
    assert!(d.spawn(1, 10).is_ok());
    assert!(d.spawn(1, 20).is_ok());
    assert_eq!(d.queued_count(1), 2);
    assert_eq!(d.start_next(), Some((1, 10)));
    assert_eq!(d.queued_count(1), 1);
    // Still one queued: the task re-enters Pending on return.
    assert_eq!(d.complete_current(), 1);
    assert_eq!(d.state_of(1), TaskState::Pending);
    assert_eq!(d.start_next(), Some((1, 20)));
    assert_eq!(d.complete_current(), 1);
    assert_eq!(d.state_of(1), TaskState::Idle);
}

#[test]
fn trigger_reaches_the_bound_task() {
    let mut d = fresh(vec![2, 2, 2]);
    assert_eq!(d.find_bound(7), Some(0));
    assert_eq!(d.find_bound(9), None);
    assert_eq!(d.trigger(7, 42), Ok(()));
    assert_eq!(d.state_of(0), TaskState::Pending);
    assert_eq!(d.start_next(), Some((0, 42)));
    assert_eq!(d.complete_current(), 0);
    assert_eq!(d.trigger(9, 42), Err(TriggerError::NoSuchBinding));
}

#[test]
fn interrupt_burst_past_capacity_is_reported() {
    // Mailbox capacity 2 on the interrupt-bound task: of three
    // back-to-back trigger events the first two are delivered in order,
    // the third is refused — not silently lost.
    let mut d = fresh(vec![2, 2, 2]);
    assert_eq!(d.trigger(7, 1), Ok(()));
    assert_eq!(d.trigger(7, 2), Ok(()));
    assert_eq!(d.trigger(7, 3), Err(TriggerError::CapacityExceeded));
    assert_eq!(d.queued_count(0), 2);
    assert_eq!(d.start_next(), Some((0, 1)));
    assert_eq!(d.complete_current(), 0);
    assert_eq!(d.start_next(), Some((0, 2)));
    assert_eq!(d.complete_current(), 0);
    assert_eq!(d.start_next(), None);
}

#[test]
fn raised_priority_blocks_dispatch_until_restored() {
    let mut d = fresh(vec![2, 2, 2]);
    // Idle context takes a ceiling-2 lock: the priority-2 task must wait.
    let saved = d.lock_raise(2);
    assert_eq!(saved, 0);
    assert_eq!(d.current_priority(), 2);
    assert!(d.spawn(1, 77).is_ok());
    assert_eq!(d.start_next(), None);
    // A priority above the ceiling still gets through.
    assert!(d.spawn(0, 88).is_ok());
    assert_eq!(d.next_ready(), Some(0));
    d.lock_restore(saved);
    assert_eq!(d.current_priority(), 0);
    assert_eq!(d.start_next(), Some((0, 88)));
    assert_eq!(d.complete_current(), 0);
    assert_eq!(d.start_next(), Some((1, 77)));
    assert_eq!(d.complete_current(), 1);
}
