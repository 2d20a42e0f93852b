use sched_core::clock::Instant;
use sched_core::config::{Binding, TaskInfo};
use sched_core::dispatch::Dispatcher;
use sched_core::timer::{ScheduleError, TimerQueue};

#[test]
fn entries_fire_in_instant_order() {
    let mut q: TimerQueue<u32> = TimerQueue::new(Instant::new(0));
    assert!(q.schedule(1, Instant::new(100), 11).is_ok());
    assert!(q.schedule(2, Instant::new(50), 22).is_ok());
    assert!(q.schedule(3, Instant::new(150), 33).is_ok());
    assert_eq!(q.len(), 3);

    let fired = q.advance(Instant::new(60));
    assert_eq!(fired, vec![(2, 22)]);
    assert_eq!(q.len(), 2);

    let fired = q.advance(Instant::new(150));
    assert_eq!(fired, vec![(1, 11), (3, 33)]);
    assert_eq!(q.len(), 0);
}

#[test]
fn equal_instants_fire_in_insertion_order() {
    let mut q: TimerQueue<u32> = TimerQueue::new(Instant::new(0));
    assert!(q.schedule(5, Instant::new(40), 1).is_ok());
    assert!(q.schedule(6, Instant::new(40), 2).is_ok());
    assert!(q.schedule(7, Instant::new(40), 3).is_ok());
    let fired = q.advance(Instant::new(40));
    assert_eq!(fired, vec![(5, 1), (6, 2), (7, 3)]);
}

#[test]
fn scheduling_into_the_past_is_refused() {
    let mut q: TimerQueue<u32> = TimerQueue::new(Instant::new(1_000));
    // Half a range back — in the cursor's past half-window.
    assert_eq!(
        q.schedule(1, Instant::new(999), 0),
        Err(ScheduleError::AlreadyPast)
    );
    assert_eq!(q.len(), 0);
    // Exactly at the cursor is allowed and fires at once.
    assert!(q.schedule(1, Instant::new(1_000), 4).is_ok());
    let fired = q.advance(Instant::new(1_000));
    assert_eq!(fired, vec![(1, 4)]);
}

#[test]
fn firing_across_the_counter_wrap() {
    let start = Instant::new(u32::MAX - 100);
    let mut q: TimerQueue<u32> = TimerQueue::new(start);
    let target = start.plus_ticks(200); // wraps past u32::MAX
    assert_eq!(target.ticks, 99);
    assert!(q.schedule(1, target, 77).is_ok());

    // 150 ticks later (already wrapped): not yet due.
    let fired = q.advance(start.plus_ticks(150));
    assert_eq!(fired, vec![]);
    // 250 ticks later: due.
    let fired = q.advance(start.plus_ticks(250));
    assert_eq!(fired, vec![(1, 77)]);
}

#[test]
fn periodic_task_reschedules_itself() {
    // A polling task runs every 16_000 ticks by rescheduling itself from
    // its own body — cooperative rescheduling instead of blocking.
    let tasks = vec![TaskInfo { priority: 2, binding: Binding::Software }];
    let mut d: Dispatcher<u32> = Dispatcher::new(&tasks, &vec![1]);
    let mut q: TimerQueue<u32> = TimerQueue::new(Instant::new(0));
    assert!(q.schedule(0, Instant::new(16_000), 0).is_ok());

    let mut runs = 0;
    for step in 1..=5u32 {
        let now = Instant::new(step * 16_000);
        for (task, payload) in q.advance(now) {
            assert!(d.spawn(task, payload).is_ok());
        }
        while let Some((task, _payload)) = d.start_next() {
            if task == 0 {
                runs += 1;
                assert!(q.schedule(0, now.plus_ticks(16_000), 0).is_ok());
            }
            d.complete_current();
        }
    }
    assert_eq!(runs, 5);
}

#[test]
fn fired_entries_feed_the_dispatcher() {
    let tasks = vec![
        TaskInfo { priority: 2, binding: Binding::Software },
        TaskInfo { priority: 1, binding: Binding::Software },
    ];
    let mut d: Dispatcher<u32> = Dispatcher::new(&tasks, &vec![2, 2]);
    let mut q: TimerQueue<u32> = TimerQueue::new(Instant::new(0));
    assert!(q.schedule(1, Instant::new(10), 100).is_ok());
    assert!(q.schedule(0, Instant::new(20), 200).is_ok());

    let fired = q.advance(Instant::new(25));
    let mut capacity_errors = 0;
    for (task, payload) in fired {
        if d.spawn(task, payload).is_err() {
            capacity_errors += 1;
        }
    }
    assert_eq!(capacity_errors, 0);
    // Both became pending; the higher-priority one runs first.
    assert_eq!(d.start_next(), Some((0, 200)));
    assert_eq!(d.complete_current(), 0);
    assert_eq!(d.start_next(), Some((1, 100)));
    assert_eq!(d.complete_current(), 1);
}
