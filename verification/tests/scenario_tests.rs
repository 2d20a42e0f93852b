use sched_core::config::{AccessSet, Binding, TaskInfo};
use sched_core::dispatch::Dispatcher;
use sched_core::resource::ResourceCell;

const ISR: usize = 0;
const PROCESS: usize = 1;
const TRACE: usize = 2;

#[test]
fn thousand_interrupts_reach_the_low_priority_resource() {
    // Three tasks: a priority-3 interrupt handler writing a shared
    // counter, a priority-2 processing task spawned by it, reading the
    // counter under lock and incrementing a separate resource, and a
    // priority-1 trace task spawned by the processor. After 1000 firings
    // with the system draining between bursts, the low-priority resource
    // holds exactly 1000 and nothing overflowed a mailbox.
    let tasks = vec![
        TaskInfo { priority: 3, binding: Binding::Interrupt(7) },
        TaskInfo { priority: 2, binding: Binding::Software },
        TaskInfo { priority: 1, binding: Binding::Software },
    ];
    let resources = vec![
        AccessSet { members: vec![ISR, PROCESS] },
        AccessSet { members: vec![PROCESS, TRACE] },
    ];
    let (mut d, ceilings): (Dispatcher<u64>, Vec<u8>) =
        Dispatcher::try_new(&tasks, &vec![1, 1, 1], &resources).unwrap();
    assert_eq!(ceilings, vec![3, 2]);
    let mut counter: ResourceCell<u64> = ResourceCell::new(ceilings[0], 0);
    let mut tally: ResourceCell<u64> = ResourceCell::new(ceilings[1], 0);
    let mut traced: u64 = 0;
    let mut capacity_errors: u64 = 0;

    for _ in 0..1000u32 {
        if d.trigger(7, 0).is_err() {
            capacity_errors += 1;
        }
        // Drain until idle before the next burst.
        while let Some((task, payload)) = d.start_next() {
            match task {
                ISR => {
                    // Priority 3 is the counter's ceiling: direct access.
                    let c = counter.get_at(&d);
                    counter.write_at(&d, c + 1);
                    if d.spawn(PROCESS, 0).is_err() {
                        capacity_errors += 1;
                    }
                },
                PROCESS => {
                    // Below the counter's ceiling: read it under lock.
                    let seen = counter.lock_get(&mut d);
                    // At the tally's ceiling: direct increment.
                    let t = tally.get_at(&d);
                    tally.write_at(&d, t + 1);
                    if d.spawn(TRACE, seen).is_err() {
                        capacity_errors += 1;
                    }
                },
                TRACE => {
                    traced = payload;
                },
                _ => panic!("no such task"),
            }
            d.complete_current();
        }
    }

    assert_eq!(capacity_errors, 0);
    assert_eq!(tally.lock_get(&mut d), 1000);
    assert_eq!(counter.lock_get(&mut d), 1000);
    assert_eq!(traced, 1000);
    assert_eq!(d.current_priority(), 0);
    assert_eq!(d.depth(), 0);
}
