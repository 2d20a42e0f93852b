//! Static system configuration: task descriptors, interrupt bindings and
//! resource access sets, with the checks that must pass before the system
//! starts.
//!
//! Tasks are created at system-definition time and never destroyed. A
//! configuration error — a task with no priority, two tasks bound to the
//! same interrupt, a resource naming a task that does not exist — is
//! fatal and is caught here, before anything runs. The ceiling of a
//! resource is the highest static priority among the tasks in its access
//! set; it is a pure function of the task and resource tables.

use vstd::prelude::*;

verus! {

/// What makes a task ready: a hardware interrupt source, or only being
/// spawned by other tasks.
#[derive(Clone, Copy, PartialEq, Eq, Structural, Debug)]
pub enum Binding {
    Interrupt(u16),
    Software,
}

/// The static description of one task: its fixed priority (higher is
/// more urgent, at least 1) and its binding.
#[derive(Clone, Copy, PartialEq, Eq, Structural, Debug)]
pub struct TaskInfo {
    pub priority: u8,
    pub binding: Binding,
}

/// The access set of one shared resource: the indices of the tasks that
/// may touch it.
pub struct AccessSet {
    pub members: Vec<usize>,
}

/// A configuration rejected before the system starts.
#[derive(Clone, Copy, PartialEq, Eq, Structural, Debug)]
pub enum ConfigError {
    /// The task at this index has priority 0, which is reserved for the
    /// idle context.
    ZeroPriority(usize),
    /// The two tasks at these indices are bound to the same interrupt.
    DuplicateBinding(usize, usize),
    /// The resource at the first index names, at the second position of
    /// its access set, a task index out of range.
    UnknownTask(usize, usize),
}

/// The ceiling of an access set: the maximum static priority among its
/// member tasks, 0 for an empty set.
pub open spec fn spec_ceiling(tasks: Seq<TaskInfo>, members: Seq<usize>) -> int
    decreases members.len(),
{
    if members.len() == 0 {
        0
    } else {
        let rest = spec_ceiling(tasks, members.drop_last());
        let p = tasks[members.last() as int].priority as int;
        if p > rest {
            p
        } else {
            rest
        }
    }
}

/// Two distinct tasks bound to the same hardware interrupt.
pub open spec fn binding_clash(tasks: Seq<TaskInfo>, i: int, j: int) -> bool {
    &&& 0 <= i < tasks.len()
    &&& 0 <= j < tasks.len()
    &&& i != j
    &&& tasks[i].binding is Interrupt
    &&& tasks[i].binding == tasks[j].binding
}

/// Some hardware interrupt is bound to more than one task.
pub open spec fn has_duplicate_binding(tasks: Seq<TaskInfo>) -> bool {
    exists|i: int, j: int| #[trigger] binding_clash(tasks, i, j)
}

/// Every access-set entry names an existing task.
pub open spec fn members_in_range(tasks: Seq<TaskInfo>, resources: Seq<AccessSet>) -> bool {
    forall|r: int, k: int|
        0 <= r < resources.len() && 0 <= k < resources[r].members@.len()
            ==> #[trigger] resources[r].members@[k] < tasks.len()
}

/// A configuration the system may start from: every task has a positive
/// priority, no interrupt is bound twice, and every access set names
/// only existing tasks.
pub open spec fn config_ok(tasks: Seq<TaskInfo>, resources: Seq<AccessSet>) -> bool {
    &&& forall|t: int| 0 <= t < tasks.len() ==> #[trigger] tasks[t].priority >= 1
    &&& !has_duplicate_binding(tasks)
    &&& members_in_range(tasks, resources)
}

/// Computes the ceiling of one access set.
pub fn ceiling_of(tasks: &Vec<TaskInfo>, members: &Vec<usize>) -> (c: u8)
    requires
        forall|k: int| 0 <= k < members@.len() ==> #[trigger] members@[k] < tasks@.len(),
    ensures
        c == spec_ceiling(tasks@, members@),
{
    let mut c: u8 = 0;
    let mut k: usize = 0;
    while k < members.len()
        invariant
            k <= members@.len(),
            forall|m: int| 0 <= m < members@.len() ==> #[trigger] members@[m] < tasks@.len(),
            c == spec_ceiling(tasks@, members@.take(k as int)),
        decreases members@.len() - k,
    {
        let p = tasks[members[k]].priority;
        if p > c {
            c = p;
        }
        proof {
            assert(members@.take(k + 1).drop_last() =~= members@.take(k as int));
            assert(members@.take(k + 1).last() == members@[k as int]);
        }
        k = k + 1;
    }
    proof {
        assert(members@.take(members@.len() as int) =~= members@);
    }
    c
}

/// The ceiling dominates the priority of every member of the access set.
pub proof fn lemma_ceiling_dominates(tasks: Seq<TaskInfo>, members: Seq<usize>, k: int)
    requires
        0 <= k < members.len(),
        members[k] < tasks.len(),
    ensures
        tasks[members[k] as int].priority <= spec_ceiling(tasks, members),
    decreases members.len(),
{
    if k + 1 < members.len() {
        assert(members.drop_last()[k] == members[k]);
        lemma_ceiling_dominates(tasks, members.drop_last(), k);
    }
}

/// Computes the ceilings of all resources.
pub fn compute_ceilings(tasks: &Vec<TaskInfo>, resources: &Vec<AccessSet>) -> (cs: Vec<u8>)
    requires
        members_in_range(tasks@, resources@),
    ensures
        cs@.len() == resources@.len(),
        forall|r: int| 0 <= r < resources@.len()
            ==> #[trigger] cs@[r] == spec_ceiling(tasks@, resources@[r].members@),
{
    let mut cs: Vec<u8> = Vec::new();
    let mut r: usize = 0;
    while r < resources.len()
        invariant
            r <= resources@.len(),
            members_in_range(tasks@, resources@),
            cs@.len() == r,
            forall|q: int| 0 <= q < r
                ==> #[trigger] cs@[q] == spec_ceiling(tasks@, resources@[q].members@),
        decreases resources@.len() - r,
    {
        assert(forall|k: int| 0 <= k < resources@[r as int].members@.len()
            ==> #[trigger] resources@[r as int].members@[k] < tasks@.len());
        let c = ceiling_of(tasks, &resources[r].members);
        cs.push(c);
        r = r + 1;
    }
    cs
}

/// Checks a configuration, reporting the first violation found: zero
/// priorities first, then duplicate interrupt bindings (reported as the
/// first clashing pair in index order), then out-of-range access-set
/// entries. Succeeds exactly on configurations the system may start from.
pub fn validate(tasks: &Vec<TaskInfo>, resources: &Vec<AccessSet>) -> (r: Result<(), ConfigError>)
    ensures
        r is Ok <==> config_ok(tasks@, resources@),
        r matches Err(ConfigError::ZeroPriority(t)) ==> t < tasks@.len() && tasks@[t as int].priority == 0,
        r matches Err(ConfigError::DuplicateBinding(i, j)) ==> binding_clash(tasks@, i as int, j as int),
        r matches Err(ConfigError::UnknownTask(q, k)) ==> q < resources@.len()
            && k < resources@[q as int].members@.len()
            && resources@[q as int].members@[k as int] >= tasks@.len(),
    {
    let mut t: usize = 0;
    while t < tasks.len()
        invariant
            t <= tasks@.len(),
            forall|m: int| 0 <= m < t ==> #[trigger] tasks@[m].priority >= 1,
        decreases tasks@.len() - t,
    {
        if tasks[t].priority == 0 {
            return Err(ConfigError::ZeroPriority(t));
        }
        t = t + 1;
    }
    let mut i: usize = 0;
    while i < tasks.len()
        invariant
            i <= tasks@.len(),
            forall|a: int, b: int| 0 <= a < i && a < b < tasks@.len()
                ==> !binding_clash(tasks@, a, b),
        decreases tasks@.len() - i,
    {
        let mut j: usize = i + 1;
        while j < tasks.len()
            invariant
                i < tasks@.len(),
                i < j,
                forall|a: int, b: int| 0 <= a < i && a < b < tasks@.len()
                    ==> !binding_clash(tasks@, a, b),
                forall|b: int| i < b < j ==> !binding_clash(tasks@, i as int, b),
            decreases tasks@.len() - j,
        {
            match (tasks[i].binding, tasks[j].binding) {
                (Binding::Interrupt(x), Binding::Interrupt(y)) => {
                    if x == y {
                        assert(binding_clash(tasks@, i as int, j as int));
                        return Err(ConfigError::DuplicateBinding(i, j));
                    }
                },
                _ => {},
            }
            assert(!binding_clash(tasks@, i as int, j as int));
            j = j + 1;
        }
        i = i + 1;
    }
    assert forall|a: int, b: int| !#[trigger] binding_clash(tasks@, a, b) by {
        if binding_clash(tasks@, a, b) {
            if a < b {
            } else {
                assert(binding_clash(tasks@, b, a));
            }
        }
    }
    let mut q: usize = 0;
    while q < resources.len()
        invariant
            q <= resources@.len(),
            forall|r0: int, k: int|
                0 <= r0 < q && 0 <= k < resources@[r0].members@.len()
                    ==> #[trigger] resources@[r0].members@[k] < tasks@.len(),
        decreases resources@.len() - q,
    {
        let mut k: usize = 0;
        while k < resources[q].members.len()
            invariant
                q < resources@.len(),
                k <= resources@[q as int].members@.len(),
                forall|m: int| 0 <= m < k
                    ==> #[trigger] resources@[q as int].members@[m] < tasks@.len(),
            decreases resources@[q as int].members@.len() - k,
        {
            if resources[q].members[k] >= tasks.len() {
                return Err(ConfigError::UnknownTask(q, k));
            }
            k = k + 1;
        }
        q = q + 1;
    }
    Ok(())
}

} // verus!
