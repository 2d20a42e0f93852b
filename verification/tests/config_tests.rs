use sched_core::config::{
    ceiling_of, compute_ceilings, validate, AccessSet, Binding, ConfigError, TaskInfo,
};

fn three_tasks() -> Vec<TaskInfo> {
    vec![
        TaskInfo { priority: 3, binding: Binding::Interrupt(7) },
        TaskInfo { priority: 2, binding: Binding::Software },
        TaskInfo { priority: 1, binding: Binding::Software },
    ]
}

#[test]
fn ceiling_is_the_highest_member_priority() {
    let tasks = three_tasks();
    assert_eq!(ceiling_of(&tasks, &vec![0, 1]), 3);
    assert_eq!(ceiling_of(&tasks, &vec![1, 2]), 2);
    assert_eq!(ceiling_of(&tasks, &vec![2]), 1);
    assert_eq!(ceiling_of(&tasks, &vec![]), 0);
}

#[test]
fn ceilings_of_all_resources() {
    let tasks = three_tasks();
    let resources = vec![
        AccessSet { members: vec![0, 1] },
        AccessSet { members: vec![1, 2] },
    ];
    let cs = compute_ceilings(&tasks, &resources);
    assert_eq!(cs, vec![3, 2]);
}

#[test]
fn valid_configuration_passes() {
    let tasks = three_tasks();
    let resources = vec![AccessSet { members: vec![0, 1] }];
    assert_eq!(validate(&tasks, &resources), Ok(()));
}

#[test]
fn zero_priority_is_refused() {
    let tasks = vec![
        TaskInfo { priority: 1, binding: Binding::Software },
        TaskInfo { priority: 0, binding: Binding::Software },
    ];
    assert_eq!(validate(&tasks, &vec![]), Err(ConfigError::ZeroPriority(1)));
}

#[test]
fn duplicate_interrupt_binding_is_refused() {
    let tasks = vec![
        TaskInfo { priority: 2, binding: Binding::Interrupt(4) },
        TaskInfo { priority: 1, binding: Binding::Software },
        TaskInfo { priority: 1, binding: Binding::Interrupt(4) },
    ];
    assert_eq!(validate(&tasks, &vec![]), Err(ConfigError::DuplicateBinding(0, 2)));
}

#[test]
fn unknown_task_in_access_set_is_refused() {
    let tasks = three_tasks();
    let resources = vec![AccessSet { members: vec![0, 9] }];
    assert_eq!(validate(&tasks, &resources), Err(ConfigError::UnknownTask(0, 1)));
}

#[test]
fn same_interrupt_is_fine_on_one_task_only() {
    let tasks = vec![
        TaskInfo { priority: 2, binding: Binding::Interrupt(4) },
        TaskInfo { priority: 1, binding: Binding::Interrupt(5) },
    ];
    assert_eq!(validate(&tasks, &vec![]), Ok(()));
}
