//! The preemptive, priority-driven dispatcher.
//!
//! The dispatcher owns the static task table and the preemption stack.
//! Execution is single-core: the only concurrency is interrupt nesting,
//! so "running" is a LIFO stack of started-but-unfinished tasks, with the
//! top actually executing and everything beneath it suspended by
//! preemption. The dispatcher itself does not call task bodies; it is the
//! decision core. The surrounding runtime asks [`Dispatcher::start_next`]
//! which task to begin (the highest-priority pending task above the
//! current running priority, or none), executes that task's body, and
//! reports the return with [`Dispatcher::complete_current`]. Hardware
//! interrupts and software spawns arrive through
//! [`Dispatcher::trigger`] and [`Dispatcher::spawn`].
//!
//! Mailbox draining policy: one queued payload is taken per dispatch, so
//! a task whose mailbox is still non-empty when it returns re-enters
//! `Pending` and is dispatched again later, rather than draining its
//! queue in one run.
//!
//! Tie rule: when several pending tasks share the highest priority, the
//! one with the lowest task index is started first — equal-priority
//! tasks never preempt each other, so at most one of them is ever
//! mid-execution.
//!
//! The ceiling-lock protocol is the pair [`Dispatcher::lock_raise`] /
//! [`Dispatcher::lock_restore`]: a scoped raise of the running priority.
//! While the running priority is at a resource's ceiling, no task of
//! lower or equal priority can be started, which is exactly the
//! exclusion the resource needs — no blocking, no spinning.

use vstd::prelude::*;
use crate::config::{compute_ceilings, config_ok, spec_ceiling, validate, AccessSet, Binding,
    ConfigError, TaskInfo};
use crate::mailbox::{enqueue_step, Mailbox, SpawnError};

verus! {

/// The lifecycle state of one task.
#[derive(Clone, Copy, PartialEq, Eq, Structural, Debug)]
pub enum TaskState {
    /// Not pending and not started.
    Idle,
    /// Made ready (interrupt fired or payload queued), awaiting dispatch.
    Pending,
    /// Currently executing: top of the preemption stack.
    Running,
    /// Started but preempted: on the stack beneath a running task.
    Suspended,
}

/// One task of the static table: its descriptor, its mailbox of pending
/// spawn payloads, and its current state.
pub struct TaskEntry<P> {
    pub info: TaskInfo,
    pub mailbox: Mailbox<P>,
    pub state: TaskState,
}

/// One frame of the preemption stack: the started task, and the
/// effective running priority to restore when it returns.
#[derive(Clone, Copy, PartialEq, Eq, Structural, Debug)]
pub struct StackFrame {
    pub task: usize,
    pub resumed_priority: u8,
}

/// Failure of a hardware trigger.
#[derive(Clone, Copy, PartialEq, Eq, Structural, Debug)]
pub enum TriggerError {
    /// No task is bound to the raised interrupt.
    NoSuchBinding,
    /// The bound task's mailbox is full; the event is reported, never
    /// silently lost.
    CapacityExceeded,
}

/// Whether some frame of `s` belongs to task `t`.
pub open spec fn in_frames(s: Seq<StackFrame>, t: int) -> bool {
    exists|k: int| 0 <= k < s.len() && (#[trigger] s[k]).task == t
}

/// Pushing a frame adds exactly its task to the tasks on the stack.
proof fn lemma_in_frames_push(s: Seq<StackFrame>, f: StackFrame, u: int)
    ensures
        in_frames(s.push(f), u) <==> (in_frames(s, u) || f.task == u),
{
    if in_frames(s, u) {
        let k = choose|k: int| 0 <= k < s.len() && (#[trigger] s[k]).task == u;
        assert(s.push(f)[k].task == u);
    }
    if f.task == u {
        assert(s.push(f)[s.len() as int].task == u);
    }
    if in_frames(s.push(f), u) {
        let k = choose|k: int| 0 <= k < s.push(f).len() && (#[trigger] s.push(f)[k]).task == u;
        if k < s.len() {
            assert(s[k].task == u);
        }
    }
}

/// Dropping the top frame removes exactly its task from a stack of
/// distinct tasks.
proof fn lemma_in_frames_drop(s: Seq<StackFrame>, u: int)
    requires
        s.len() > 0,
    ensures
        in_frames(s, u) <==> (in_frames(s.drop_last(), u) || s.last().task == u),
{
    if in_frames(s.drop_last(), u) {
        let k = choose|k: int| 0 <= k < s.drop_last().len() && (#[trigger] s.drop_last()[k]).task == u;
        assert(s[k].task == u);
    }
    if s.last().task == u {
        assert(s[s.len() - 1].task == u);
    }
    if in_frames(s, u) {
        let k = choose|k: int| 0 <= k < s.len() && (#[trigger] s[k]).task == u;
        if k < s.len() - 1 {
            assert(s.drop_last()[k].task == u);
        }
    }
}

/// The dispatcher: task table, preemption stack, and the effective
/// running priority (0 while only the idle context runs).
pub struct Dispatcher<P> {
    tasks: Vec<TaskEntry<P>>,
    stack: Vec<StackFrame>,
    current: u8,
}

impl<P> Dispatcher<P> {
    /// The task table.
    pub closed spec fn spec_tasks(&self) -> Seq<TaskEntry<P>> {
        self.tasks@
    }

    /// The preemption stack, bottom first.
    pub closed spec fn spec_stack(&self) -> Seq<StackFrame> {
        self.stack@
    }

    /// The effective running priority.
    pub closed spec fn spec_current(&self) -> int {
        self.current as int
    }

    /// Number of tasks in the static table.
    pub open spec fn n_tasks(&self) -> int {
        self.spec_tasks().len() as int
    }

    /// The static priority of task `t`.
    pub open spec fn prio(&self, t: int) -> int {
        self.spec_tasks()[t].info.priority as int
    }

    /// The binding of task `t`.
    pub open spec fn binding_of(&self, t: int) -> Binding {
        self.spec_tasks()[t].info.binding
    }

    /// The state of task `t`.
    pub open spec fn state_spec(&self, t: int) -> TaskState {
        self.spec_tasks()[t].state
    }

    /// The queued payloads of task `t`, oldest first.
    pub open spec fn queued(&self, t: int) -> Seq<P> {
        self.spec_tasks()[t].mailbox@
    }

    /// The mailbox capacity of task `t`.
    pub open spec fn queue_capacity(&self, t: int) -> nat {
        self.spec_tasks()[t].mailbox.spec_capacity()
    }

    /// Whether task `t` occupies some frame of the preemption stack.
    pub open spec fn on_stack(&self, t: int) -> bool {
        in_frames(self.spec_stack(), t)
    }

    /// Whether task `t` is pending.
    pub open spec fn is_pending(&self, t: int) -> bool {
        0 <= t < self.n_tasks() && self.state_spec(t) is Pending
    }

    /// The state a task must be in, given where it stands: the stack top
    /// runs, lower frames are suspended, and a task off the stack is
    /// pending exactly when its mailbox is non-empty.
    pub open spec fn consistent_state(&self, t: int) -> bool {
        if self.on_stack(t) {
            if self.spec_stack().last().task == t {
                self.state_spec(t) is Running
            } else {
                self.state_spec(t) is Suspended
            }
        } else {
            if self.queued(t).len() > 0 {
                self.state_spec(t) is Pending
            } else {
                self.state_spec(t) is Idle
            }
        }
    }

    /// Well-formedness: the preemption stack names distinct, existing
    /// tasks in strictly increasing order of static priority; each frame
    /// restores a priority below its own task's and at or above the
    /// task it preempted; the running priority is at or above the top's
    /// static priority; all priorities are positive, all mailboxes are
    /// within capacity, and every task's state matches its position.
    pub open spec fn wf(&self) -> bool {
        &&& forall|k: int| 0 <= k < self.spec_stack().len()
            ==> 0 <= (#[trigger] self.spec_stack()[k]).task < self.n_tasks()
        &&& forall|k1: int, k2: int| 0 <= k1 < k2 < self.spec_stack().len()
            ==> (#[trigger] self.spec_stack()[k1]).task != (#[trigger] self.spec_stack()[k2]).task
        &&& forall|k1: int, k2: int| 0 <= k1 < k2 < self.spec_stack().len()
            ==> self.prio((#[trigger] self.spec_stack()[k1]).task as int)
                < self.prio((#[trigger] self.spec_stack()[k2]).task as int)
        &&& forall|k: int| 0 <= k < self.spec_stack().len()
            ==> (#[trigger] self.spec_stack()[k]).resumed_priority
                < self.prio(self.spec_stack()[k].task as int)
        &&& forall|k: int| 1 <= k < self.spec_stack().len()
            ==> (#[trigger] self.spec_stack()[k]).resumed_priority
                >= self.prio(self.spec_stack()[k - 1].task as int)
        &&& self.spec_stack().len() > 0
            ==> self.spec_current() >= self.prio(self.spec_stack().last().task as int)
        &&& forall|t: int| 0 <= t < self.n_tasks() ==> #[trigger] self.prio(t) >= 1
        &&& forall|t: int| 0 <= t < self.n_tasks()
            ==> (#[trigger] self.queued(t)).len() <= self.queue_capacity(t)
        &&& forall|t: int| 0 <= t < self.n_tasks() ==> #[trigger] self.consistent_state(t)
    }

    /// The static descriptors of `self` and `other` agree, as do the
    /// mailbox capacities.
    pub open spec fn same_table(&self, other: &Self) -> bool {
        &&& self.n_tasks() == other.n_tasks()
        &&& forall|t: int| 0 <= t < self.n_tasks()
            ==> #[trigger] other.spec_tasks()[t].info == self.spec_tasks()[t].info
        &&& forall|t: int| 0 <= t < self.n_tasks()
            ==> #[trigger] other.queue_capacity(t) == self.queue_capacity(t)
    }

    /// Task `t` looks the same in `self` and `other`: same state and
    /// same queued payloads.
    pub open spec fn task_unchanged(&self, other: &Self, t: int) -> bool {
        &&& other.state_spec(t) == self.state_spec(t)
        &&& other.queued(t) == self.queued(t)
    }

    /// A dispatcher over the given task table, with one empty mailbox of
    /// the given capacity per task; everything idle, nothing running.
    pub fn new(infos: &Vec<TaskInfo>, capacities: &Vec<usize>) -> (d: Dispatcher<P>)
        requires
            infos@.len() == capacities@.len(),
            forall|t: int| 0 <= t < infos@.len() ==> #[trigger] infos@[t].priority >= 1,
        ensures
            d.wf(),
            d.n_tasks() == infos@.len(),
            forall|t: int| 0 <= t < d.n_tasks() ==> #[trigger] d.spec_tasks()[t].info == infos@[t],
            forall|t: int| 0 <= t < d.n_tasks() ==> #[trigger] d.queue_capacity(t) == capacities@[t],
            forall|t: int| 0 <= t < d.n_tasks() ==> #[trigger] d.queued(t) == Seq::<P>::empty(),
            forall|t: int| 0 <= t < d.n_tasks() ==> #[trigger] d.state_spec(t) is Idle,
            d.spec_stack() == Seq::<StackFrame>::empty(),
            d.spec_current() == 0,
    {
        let mut tasks: Vec<TaskEntry<P>> = Vec::new();
        let mut t: usize = 0;
        while t < infos.len()
            invariant
                t <= infos@.len(),
                infos@.len() == capacities@.len(),
                forall|u: int| 0 <= u < infos@.len() ==> #[trigger] infos@[u].priority >= 1,
                tasks@.len() == t,
                forall|u: int| 0 <= u < t ==> #[trigger] tasks@[u].info == infos@[u],
                forall|u: int| 0 <= u < t ==> (#[trigger] tasks@[u].mailbox).spec_capacity() == capacities@[u],
                forall|u: int| 0 <= u < t ==> (#[trigger] tasks@[u].mailbox)@ == Seq::<P>::empty(),
                forall|u: int| 0 <= u < t ==> (#[trigger] tasks@[u].state) is Idle,
            decreases infos@.len() - t,
        {
            tasks.push(TaskEntry {
                info: infos[t],
                mailbox: Mailbox::new(capacities[t]),
                state: TaskState::Idle,
            });
            t = t + 1;
        }
        let d = Dispatcher { tasks, stack: Vec::new(), current: 0 };
        proof {
            assert forall|u: int| 0 <= u < d.n_tasks() implies #[trigger] d.consistent_state(u) by {
                assert(!d.on_stack(u));
            }
        }
        d
    }

    /// Checks the configuration and builds the system in one step: the
    /// dispatcher over the task table, and the computed ceiling of every
    /// resource. A configuration error is returned instead and prevents
    /// the system from starting at all.
    #[verifier::rlimit(100)]
    pub fn try_new(
        infos: &Vec<TaskInfo>,
        capacities: &Vec<usize>,
        resources: &Vec<AccessSet>,
    ) -> (r: Result<(Dispatcher<P>, Vec<u8>), ConfigError>)
        requires
            infos@.len() == capacities@.len(),
        ensures
            r is Ok <==> config_ok(infos@, resources@),
            r matches Ok(pair) ==> {
                &&& pair.0.wf()
                &&& pair.0.n_tasks() == infos@.len()
                &&& forall|t: int| 0 <= t < infos@.len()
                    ==> #[trigger] pair.0.spec_tasks()[t].info == infos@[t]
                &&& forall|t: int| 0 <= t < infos@.len()
                    ==> #[trigger] pair.0.queue_capacity(t) == capacities@[t]
                &&& forall|t: int| 0 <= t < infos@.len()
                    ==> #[trigger] pair.0.queued(t) == Seq::<P>::empty()
                &&& forall|t: int| 0 <= t < infos@.len()
                    ==> #[trigger] pair.0.state_spec(t) is Idle
                &&& pair.0.spec_stack() == Seq::<StackFrame>::empty()
                &&& pair.0.spec_current() == 0
                &&& pair.1@.len() == resources@.len()
                &&& forall|q: int| 0 <= q < resources@.len()
                    ==> #[trigger] pair.1@[q] == spec_ceiling(infos@, resources@[q].members@)
            },
    {
        match validate(infos, resources) {
            Err(e) => Err(e),
            Ok(()) => {
                let ceilings = compute_ceilings(infos, resources);
                Ok((Dispatcher::new(infos, capacities), ceilings))
            },
        }
    }

    /// The number of tasks.
    pub fn task_count(&self) -> (n: usize)
        ensures
            n == self.n_tasks(),
    {
        self.tasks.len()
    }

    /// The effective running priority.
    pub fn current_priority(&self) -> (p: u8)
        ensures
            p == self.spec_current(),
    {
        self.current
    }

    /// The depth of the preemption stack.
    pub fn depth(&self) -> (n: usize)
        ensures
            n == self.spec_stack().len(),
    {
        self.stack.len()
    }

    /// The state of task `t`.
    pub fn state_of(&self, t: usize) -> (s: TaskState)
        requires
            t < self.n_tasks(),
        ensures
            s == self.state_spec(t as int),
    {
        self.tasks[t].state
    }

    /// How many payloads are queued for task `t`.
    pub fn queued_count(&self, t: usize) -> (n: usize)
        requires
            t < self.n_tasks(),
        ensures
            n == self.queued(t as int).len(),
    {
        self.tasks[t].mailbox.len()
    }

    /// Enqueues a spawn payload for task `t` and marks it pending. Fails
    /// with `CapacityExceeded` — changing nothing — exactly when `t`'s
    /// mailbox is full.
    pub fn spawn(&mut self, t: usize, p: P) -> (r: Result<(), SpawnError>)
        requires
            old(self).wf(),
            t < old(self).n_tasks(),
        ensures
            final(self).wf(),
            old(self).same_table(final(self)),
            final(self).spec_stack() == old(self).spec_stack(),
            final(self).spec_current() == old(self).spec_current(),
            r is Ok <==> old(self).queued(t as int).len() < old(self).queue_capacity(t as int),
            r is Err ==> r == Result::<(), SpawnError>::Err(SpawnError::CapacityExceeded),
            final(self).queued(t as int) == enqueue_step(
                old(self).queued(t as int),
                old(self).queue_capacity(t as int),
                p,
            ),
            final(self).state_spec(t as int) == (
                if old(self).state_spec(t as int) is Idle && r is Ok {
                    TaskState::Pending
                } else {
                    old(self).state_spec(t as int)
                }
            ),
            forall|u: int| 0 <= u < old(self).n_tasks() && u != t
                ==> old(self).task_unchanged(final(self), u),
    {
        proof {
            assert(old(self).queued(t as int).len() <= old(self).queue_capacity(t as int));
        }
        let entry = &mut self.tasks[t];
        let r = entry.mailbox.enqueue(p);
        if r.is_ok() && matches!(entry.state, TaskState::Idle) {
            entry.state = TaskState::Pending;
        }
        proof {
            assert(self.spec_stack() == old(self).spec_stack());
            assert forall|u: int| 0 <= u < self.n_tasks() && u != t
                implies #[trigger] self.spec_tasks()[u] == old(self).spec_tasks()[u] by {
            }
            assert(self.spec_tasks()[t as int].info == old(self).spec_tasks()[t as int].info);
            assert forall|u: int| 0 <= u < self.n_tasks() implies #[trigger] self.prio(u) >= 1 by {
                assert(old(self).prio(u) >= 1);
                if u != t {
                    assert(self.spec_tasks()[u] == old(self).spec_tasks()[u]);
                }
            }
            assert forall|u: int| 0 <= u < self.n_tasks()
                implies (#[trigger] self.queued(u)).len() <= self.queue_capacity(u) by {
                assert(old(self).queued(u).len() <= old(self).queue_capacity(u));
                if u != t {
                    assert(self.spec_tasks()[u] == old(self).spec_tasks()[u]);
                }
            }
            assert forall|u: int| 0 <= u < self.n_tasks() implies #[trigger] self.consistent_state(u) by {
                assert(old(self).consistent_state(u));
                if old(self).on_stack(u) {
                    let k = choose|k: int|
                        0 <= k < old(self).spec_stack().len() && old(self).spec_stack()[k].task == u;
                    assert(self.spec_stack()[k].task == u);
                    assert(self.on_stack(u));
                } else {
                    if self.on_stack(u) {
                        let k = choose|k: int|
                            0 <= k < self.spec_stack().len() && self.spec_stack()[k].task == u;
                        assert(old(self).spec_stack()[k].task == u);
                        assert(old(self).on_stack(u));
                    }
                }
            }
        }
        r
    }

    /// Whether task `t` could be dispatched now: pending, with a static
    /// priority strictly above the effective running priority.
    pub open spec fn dispatchable(&self, t: int) -> bool {
        self.is_pending(t) && self.prio(t) > self.spec_current()
    }

    /// The dispatch choice among tasks `0..n`: the lowest-indexed task of
    /// maximal priority among the dispatchable ones, if any.
    pub open spec fn choice_upto(&self, n: int) -> Option<int>
        decreases n,
    {
        if n <= 0 {
            None
        } else {
            let rest = self.choice_upto(n - 1);
            if !self.dispatchable(n - 1) {
                rest
            } else {
                match rest {
                    None => Some(n - 1),
                    Some(b) => if self.prio(n - 1) > self.prio(b) {
                        Some(n - 1)
                    } else {
                        Some(b)
                    },
                }
            }
        }
    }

    /// The task the dispatcher will start next, if any.
    pub open spec fn spec_choice(&self) -> Option<int> {
        self.choice_upto(self.n_tasks())
    }

    /// Soundness of the choice over the scanned prefix: a chosen task is
    /// dispatchable and of maximal priority among dispatchable tasks of
    /// the prefix (lowest index on ties); no choice means no
    /// dispatchable task in the prefix.
    proof fn lemma_choice_upto_sound(&self, n: int)
        requires
            0 <= n <= self.n_tasks(),
        ensures
            self.choice_upto(n) is None ==> forall|t: int| 0 <= t < n ==> !#[trigger] self.dispatchable(t),
            self.choice_upto(n) matches Some(c) ==> 0 <= c < n && self.dispatchable(c)
                && (forall|t: int| 0 <= t < n && #[trigger] self.dispatchable(t)
                    ==> self.prio(t) <= self.prio(c) && (self.prio(t) == self.prio(c) ==> c <= t)),
        decreases n,
    {
        if n > 0 {
            self.lemma_choice_upto_sound(n - 1);
        }
    }

    /// Soundness of the dispatch choice over the whole table.
    pub proof fn lemma_choice_sound(&self)
        ensures
            self.spec_choice() is None ==> forall|t: int|
                0 <= t < self.n_tasks() ==> !#[trigger] self.dispatchable(t),
            self.spec_choice() matches Some(c) ==> 0 <= c < self.n_tasks() && self.dispatchable(c)
                && (forall|t: int| 0 <= t < self.n_tasks() && #[trigger] self.dispatchable(t)
                    ==> self.prio(t) <= self.prio(c) && (self.prio(t) == self.prio(c) ==> c <= t)),
    {
        self.lemma_choice_upto_sound(self.n_tasks());
    }

    /// Scans the task table for the dispatch choice.
    pub fn next_ready(&self) -> (r: Option<usize>)
        requires
            self.wf(),
        ensures
            r is None <==> self.spec_choice() is None,
            r matches Some(t) ==> self.spec_choice() == Some(t as int),
    {
        let mut best: Option<usize> = None;
        let mut t: usize = 0;
        while t < self.tasks.len()
            invariant
                t <= self.n_tasks(),
                best is None <==> self.choice_upto(t as int) is None,
                best matches Some(b) ==> self.choice_upto(t as int) == Some(b as int) && b < t,
            decreases self.n_tasks() - t,
        {
            let dispatchable = matches!(self.tasks[t].state, TaskState::Pending)
                && self.tasks[t].info.priority > self.current;
            if dispatchable {
                match best {
                    None => {
                        best = Some(t);
                    },
                    Some(b) => {
                        if self.tasks[t].info.priority > self.tasks[b].info.priority {
                            best = Some(t);
                        }
                    },
                }
            }
            t = t + 1;
        }
        best
    }

    /// Starts the next task, if one is dispatchable: takes the oldest
    /// payload from its mailbox, suspends the previously running task,
    /// pushes the new one onto the preemption stack and raises the
    /// running priority to its static priority. Returns the started
    /// task's index and its payload, for the runtime to execute; `None`
    /// — and no change — exactly when nothing is dispatchable.
    pub fn start_next(&mut self) -> (r: Option<(usize, P)>)
        requires
            old(self).wf(),
        ensures
            final(self).wf(),
            old(self).same_table(final(self)),
            old(self).spec_choice() is None ==> r is None
                && final(self).spec_stack() == old(self).spec_stack()
                && final(self).spec_current() == old(self).spec_current()
                && (forall|u: int| 0 <= u < old(self).n_tasks()
                    ==> old(self).task_unchanged(final(self), u)),
            old(self).spec_choice() matches Some(c) ==> {
                &&& r matches Some(pair) && pair.0 == c && pair.1 == old(self).queued(c)[0]
                &&& final(self).spec_stack() == old(self).spec_stack().push(StackFrame {
                    task: c as usize,
                    resumed_priority: old(self).spec_current() as u8,
                })
                &&& final(self).spec_current() == old(self).prio(c)
                &&& final(self).queued(c) == old(self).queued(c).drop_first()
                &&& final(self).state_spec(c) is Running
                &&& forall|u: int| 0 <= u < old(self).n_tasks() && u != c
                    ==> final(self).queued(u) == old(self).queued(u)
                &&& forall|u: int| 0 <= u < old(self).n_tasks() && u != c
                        && !(old(self).spec_stack().len() > 0
                            && old(self).spec_stack().last().task == u)
                    ==> final(self).state_spec(u) == old(self).state_spec(u)
                &&& old(self).spec_stack().len() > 0
                    ==> final(self).state_spec(old(self).spec_stack().last().task as int)
                        is Suspended
            },
    {
        proof {
            old(self).lemma_choice_sound();
        }
        match self.next_ready() {
            None => None,
            Some(t) => {
                let ghost pre = *self;
                if self.stack.len() > 0 {
                    let prev = self.stack[self.stack.len() - 1].task;
                    proof {
                        assert(pre.consistent_state(prev as int));
                        assert(pre.on_stack(prev as int));
                    }
                    let e = &mut self.tasks[prev];
                    e.state = TaskState::Suspended;
                }
                let ghost mid = *self;
                proof {
                    assert(mid.spec_tasks()[t as int] == pre.spec_tasks()[t as int]) by {
                        if pre.spec_stack().len() > 0 {
                            assert(pre.consistent_state(t as int));
                            assert(pre.spec_stack().last().task != t);
                        }
                    }
                    assert(pre.consistent_state(t as int));
                    assert(pre.queued(t as int).len() > 0);
                    assert(mid.queued(t as int).len() <= mid.queue_capacity(t as int));
                }
                let saved = self.current;
                let e = &mut self.tasks[t];
                let p = match e.mailbox.dequeue() {
                    Some(p) => p,
                    None => {
                        proof {
                            assert(false);
                        }
                        return None;
                    },
                };
                e.state = TaskState::Running;
                self.stack.push(StackFrame { task: t, resumed_priority: saved });
                self.current = self.tasks[t].info.priority;
                proof {
                    let s0 = pre.spec_stack();
                    let fnew = StackFrame { task: t, resumed_priority: saved };
                    assert(self.spec_stack() =~= s0.push(fnew));
                    assert(pre.consistent_state(t as int));
                    assert(!pre.on_stack(t as int));
                    assert forall|u: int| 0 <= u < pre.n_tasks() implies
                        (#[trigger] self.spec_tasks()[u]).info == pre.spec_tasks()[u].info
                        && self.queue_capacity(u) == pre.queue_capacity(u)
                        && (u != t ==> self.queued(u) == pre.queued(u)
                            && self.queued(u).len() <= self.queue_capacity(u))
                        && self.prio(u) >= 1 by {
                        assert(pre.prio(u) >= 1);
                        assert(pre.queued(u).len() <= pre.queue_capacity(u));
                    }
                    assert(self.queued(t as int).len() <= self.queue_capacity(t as int));
                    assert forall|k1: int, k2: int| 0 <= k1 < k2 < self.spec_stack().len() implies
                        (#[trigger] self.spec_stack()[k1]).task != (#[trigger] self.spec_stack()[k2]).task
                        && self.prio(self.spec_stack()[k1].task as int)
                            < self.prio(self.spec_stack()[k2].task as int) by {
                        assert(self.spec_stack()[k1] == s0[k1]);
                        if k2 < s0.len() {
                            assert(self.spec_stack()[k2] == s0[k2]);
                        } else {
                            assert(self.spec_stack()[k2] == fnew);
                            assert(s0[k1].task != t) by {
                                if s0[k1].task == t {
                                    assert(in_frames(s0, t as int));
                                }
                            }
                            assert(self.prio(s0[k1].task as int) < self.prio(t as int)) by {
                                if k1 < s0.len() - 1 {
                                    assert(pre.prio(s0[k1].task as int)
                                        < pre.prio(s0[s0.len() - 1].task as int));
                                }
                                assert(pre.prio(s0.last().task as int) <= pre.spec_current());
                            }
                        }
                    }
                    assert forall|k: int| 0 <= k < self.spec_stack().len() implies
                        0 <= (#[trigger] self.spec_stack()[k]).task < self.n_tasks()
                        && self.spec_stack()[k].resumed_priority
                            < self.prio(self.spec_stack()[k].task as int)
                        && (k >= 1 ==> self.spec_stack()[k].resumed_priority
                            >= self.prio(self.spec_stack()[k - 1].task as int)) by {
                        if k < s0.len() {
                            assert(self.spec_stack()[k] == s0[k]);
                            if k >= 1 {
                                assert(self.spec_stack()[k - 1] == s0[k - 1]);
                            }
                        } else {
                            assert(self.spec_stack()[k] == fnew);
                            if k >= 1 {
                                assert(self.spec_stack()[k - 1] == s0[k - 1]);
                                assert(pre.prio(s0.last().task as int) <= pre.spec_current());
                            }
                        }
                    }
                    assert forall|u: int| 0 <= u < self.n_tasks() implies
                        #[trigger] self.consistent_state(u) by {
                        lemma_in_frames_push(s0, fnew, u);
                        assert(pre.consistent_state(u));
                        if u == t {
                            assert(self.spec_stack().last() == fnew);
                        } else if pre.on_stack(u) {
                            assert(self.spec_stack().last() == fnew);
                            if s0.last().task == u {
                            } else {
                                let k = choose|k: int|
                                    0 <= k < s0.len() && (#[trigger] s0[k]).task == u;
                                assert(s0[k].task != s0.last().task);
                                assert(self.spec_tasks()[u].state == pre.spec_tasks()[u].state);
                            }
                        } else {
                            assert(self.spec_tasks()[u].state == pre.spec_tasks()[u].state);
                            assert(self.queued(u) == pre.queued(u));
                        }
                    }
                }
                Some((t, p))
            },
        }
    }

    /// Reports that the running task's body has returned: pops its frame,
    /// lets it re-enter `Pending` if payloads are still queued (one is
    /// drained per dispatch) or `Idle` otherwise, resumes the preempted
    /// task beneath it, and restores the running priority the started
    /// task had preempted. Requires that no ceiling lock is still held
    /// (the running priority is back at the task's static priority).
    pub fn complete_current(&mut self) -> (t: usize)
        requires
            old(self).wf(),
            old(self).spec_stack().len() > 0,
            old(self).spec_current() == old(self).prio(old(self).spec_stack().last().task as int),
        ensures
            final(self).wf(),
            old(self).same_table(final(self)),
            t == old(self).spec_stack().last().task,
            final(self).spec_stack() == old(self).spec_stack().drop_last(),
            final(self).spec_current() == old(self).spec_stack().last().resumed_priority,
            final(self).state_spec(t as int) == (
                if old(self).queued(t as int).len() > 0 {
                    TaskState::Pending
                } else {
                    TaskState::Idle
                }
            ),
            forall|u: int| 0 <= u < old(self).n_tasks()
                ==> #[trigger] final(self).queued(u) == old(self).queued(u),
            old(self).spec_stack().len() > 1
                ==> final(self).state_spec(
                    old(self).spec_stack()[old(self).spec_stack().len() - 2].task as int,
                ) is Running,
            forall|u: int| 0 <= u < old(self).n_tasks() && u != t
                    && !(old(self).spec_stack().len() > 1
                        && old(self).spec_stack()[old(self).spec_stack().len() - 2].task == u)
                ==> final(self).state_spec(u) == old(self).state_spec(u),
    {
        let ghost pre = *self;
        let frame = match self.stack.pop() {
            Some(f) => f,
            None => {
                proof {
                    assert(false);
                }
                return 0;
            },
        };
        let t = frame.task;
        proof {
            assert(pre.spec_stack()[pre.spec_stack().len() - 1].task < pre.n_tasks());
        }
        let now_empty = self.tasks[t].mailbox.is_empty();
        let e = &mut self.tasks[t];
        e.state = if now_empty {
            TaskState::Idle
        } else {
            TaskState::Pending
        };
        if self.stack.len() > 0 {
            let nt = self.stack[self.stack.len() - 1].task;
            proof {
                assert(pre.spec_stack()[pre.spec_stack().len() - 2].task < pre.n_tasks());
                assert(pre.spec_stack()[pre.spec_stack().len() - 2].task
                    != pre.spec_stack()[pre.spec_stack().len() - 1].task);
            }
            let e2 = &mut self.tasks[nt];
            e2.state = TaskState::Running;
        }
        self.current = frame.resumed_priority;
        proof {
            let s0 = pre.spec_stack();
            let s1 = self.spec_stack();
            assert(s1 =~= s0.drop_last());
            assert(!in_frames(s1, t as int)) by {
                if in_frames(s1, t as int) {
                    let k = choose|k: int| 0 <= k < s1.len() && (#[trigger] s1[k]).task == t;
                    assert(s0[k].task == s0[s0.len() - 1].task);
                }
            }
            assert forall|u: int| 0 <= u < pre.n_tasks() implies
                (#[trigger] self.spec_tasks()[u]).info == pre.spec_tasks()[u].info
                && self.queue_capacity(u) == pre.queue_capacity(u)
                && self.queued(u) == pre.queued(u)
                && self.queued(u).len() <= self.queue_capacity(u)
                && self.prio(u) >= 1 by {
                assert(pre.prio(u) >= 1);
                assert(pre.queued(u).len() <= pre.queue_capacity(u));
            }
            assert forall|k: int| 0 <= k < s1.len() implies s1[k] == s0[k] by {}
            if s1.len() > 0 {
                assert(s0[s1.len() - 1].resumed_priority < pre.prio(s0[s1.len() - 1].task as int));
                assert(self.spec_current() >= self.prio(s1.last().task as int));
            }
            assert forall|u: int| 0 <= u < self.n_tasks() implies
                #[trigger] self.consistent_state(u) by {
                lemma_in_frames_drop(s0, u);
                assert(pre.consistent_state(u));
                if u == t {
                } else if in_frames(s1, u) {
                    let k = choose|k: int| 0 <= k < s1.len() && (#[trigger] s1[k]).task == u;
                    assert(s0[k].task == u);
                    if k == s1.len() - 1 {
                        assert(self.spec_tasks()[u].state is Running);
                    } else {
                        assert(s0[k].task != s0[s0.len() - 2].task);
                        assert(s0[k].task != s0[s0.len() - 1].task);
                        assert(self.spec_tasks()[u].state == pre.spec_tasks()[u].state);
                        assert(pre.spec_stack().last().task != u);
                    }
                } else {
                    assert(!pre.on_stack(u)) by {
                        if pre.on_stack(u) {
                        }
                    }
                    assert(self.spec_tasks()[u].state == pre.spec_tasks()[u].state);
                }
            }
        }
        t
    }

    /// Changing only the running priority, while keeping it at or above
    /// the stack top's static priority, preserves well-formedness.
    proof fn lemma_current_change_wf(pre: &Self, post: &Self)
        requires
            pre.wf(),
            post.spec_tasks() == pre.spec_tasks(),
            post.spec_stack() == pre.spec_stack(),
            post.spec_stack().len() > 0
                ==> post.spec_current() >= post.prio(post.spec_stack().last().task as int),
        ensures
            post.wf(),
    {
        assert forall|k: int| 0 <= k < post.spec_stack().len() implies
            0 <= (#[trigger] post.spec_stack()[k]).task < post.n_tasks()
            && post.spec_stack()[k].resumed_priority < post.prio(post.spec_stack()[k].task as int)
            && (k >= 1 ==> post.spec_stack()[k].resumed_priority
                >= post.prio(post.spec_stack()[k - 1].task as int)) by {
            assert(0 <= (pre.spec_stack()[k]).task < pre.n_tasks());
            assert(pre.spec_stack()[k].resumed_priority < pre.prio(pre.spec_stack()[k].task as int));
            if k >= 1 {
                assert(pre.spec_stack()[k].resumed_priority
                    >= pre.prio(pre.spec_stack()[k - 1].task as int));
            }
        }
        assert forall|k1: int, k2: int| 0 <= k1 < k2 < post.spec_stack().len() implies
            (#[trigger] post.spec_stack()[k1]).task != (#[trigger] post.spec_stack()[k2]).task
            && post.prio(post.spec_stack()[k1].task as int)
                < post.prio(post.spec_stack()[k2].task as int) by {
            assert(pre.spec_stack()[k1].task != pre.spec_stack()[k2].task);
            assert(pre.prio(pre.spec_stack()[k1].task as int)
                < pre.prio(pre.spec_stack()[k2].task as int));
        }
        assert forall|t: int| 0 <= t < post.n_tasks() implies #[trigger] post.prio(t) >= 1 by {
            assert(pre.prio(t) >= 1);
        }
        assert forall|t: int| 0 <= t < post.n_tasks() implies
            (#[trigger] post.queued(t)).len() <= post.queue_capacity(t) by {
            assert(pre.queued(t).len() <= pre.queue_capacity(t));
        }
        assert forall|t: int| 0 <= t < post.n_tasks() implies #[trigger] post.consistent_state(t) by {
            assert(pre.consistent_state(t));
        }
    }

    /// Raises the effective running priority to a resource's ceiling,
    /// returning the priority to restore when the lock scope ends. While
    /// raised, no task of priority at or below the ceiling can be
    /// started. Never blocks, never spins: on a single core the raise
    /// alone yields exclusive access.
    pub fn lock_raise(&mut self, ceiling: u8) -> (saved: u8)
        requires
            old(self).wf(),
        ensures
            final(self).wf(),
            old(self).same_table(final(self)),
            saved == old(self).spec_current(),
            final(self).spec_current() == (
                if ceiling > old(self).spec_current() {
                    ceiling as int
                } else {
                    old(self).spec_current()
                }
            ),
            final(self).spec_stack() == old(self).spec_stack(),
            forall|u: int| 0 <= u < old(self).n_tasks()
                ==> old(self).task_unchanged(final(self), u),
    {
        let saved = self.current;
        if ceiling > self.current {
            self.current = ceiling;
        }
        proof {
            if self.spec_stack().len() > 0 {
                assert(old(self).spec_current()
                    >= old(self).prio(old(self).spec_stack().last().task as int));
            }
            Self::lemma_current_change_wf(old(self), self);
        }
        saved
    }

    /// Restores the running priority saved by the matching
    /// [`Dispatcher::lock_raise`], ending the lock scope. The saved
    /// priority is necessarily at or above the running task's static
    /// priority and at or below the raised one.
    pub fn lock_restore(&mut self, saved: u8)
        requires
            old(self).wf(),
            saved <= old(self).spec_current(),
            old(self).spec_stack().len() > 0
                ==> saved >= old(self).prio(old(self).spec_stack().last().task as int),
        ensures
            final(self).wf(),
            old(self).same_table(final(self)),
            final(self).spec_current() == saved,
            final(self).spec_stack() == old(self).spec_stack(),
            forall|u: int| 0 <= u < old(self).n_tasks()
                ==> old(self).task_unchanged(final(self), u),
    {
        self.current = saved;
        proof {
            Self::lemma_current_change_wf(old(self), self);
        }
    }

    /// The first task bound to interrupt `irq` at or after index `i`.
    pub open spec fn bound_from(&self, irq: u16, i: int) -> Option<int>
        decreases self.n_tasks() - i,
    {
        if i < 0 || i >= self.n_tasks() {
            None
        } else if self.binding_of(i) == Binding::Interrupt(irq) {
            Some(i)
        } else {
            self.bound_from(irq, i + 1)
        }
    }

    /// The task that interrupt `irq` is bound to (the first, if the
    /// configuration was not validated).
    pub open spec fn spec_bound(&self, irq: u16) -> Option<int> {
        self.bound_from(irq, 0)
    }

    /// Finds the task bound to interrupt `irq`.
    pub fn find_bound(&self, irq: u16) -> (r: Option<usize>)
        requires
            self.wf(),
        ensures
            r is None <==> self.spec_bound(irq) is None,
            r matches Some(c) ==> self.spec_bound(irq) == Some(c as int) && c < self.n_tasks(),
    {
        let mut i: usize = 0;
        while i < self.tasks.len()
            invariant
                i <= self.n_tasks(),
                self.spec_bound(irq) == self.bound_from(irq, i as int),
            decreases self.n_tasks() - i,
        {
            match self.tasks[i].info.binding {
                Binding::Interrupt(x) => {
                    if x == irq {
                        return Some(i);
                    }
                },
                Binding::Software => {},
            }
            i = i + 1;
        }
        None
    }

    /// Delivers a hardware interrupt: marks the bound task pending with
    /// the event payload. Fails with `NoSuchBinding` if no task is bound
    /// to `irq`, and with `CapacityExceeded` — losing nothing already
    /// queued — exactly when the bound task's mailbox is full.
    #[verifier::rlimit(100)]
    pub fn trigger(&mut self, irq: u16, p: P) -> (r: Result<(), TriggerError>)
        requires
            old(self).wf(),
        ensures
            final(self).wf(),
            old(self).same_table(final(self)),
            final(self).spec_stack() == old(self).spec_stack(),
            final(self).spec_current() == old(self).spec_current(),
            old(self).spec_bound(irq) is None ==> r == Result::<(), TriggerError>::Err(
                TriggerError::NoSuchBinding,
            ) && (forall|u: int| 0 <= u < old(self).n_tasks()
                ==> old(self).task_unchanged(final(self), u)),
            old(self).spec_bound(irq) matches Some(c) ==> {
                &&& r is Ok <==> old(self).queued(c).len() < old(self).queue_capacity(c)
                &&& final(self).queued(c) == enqueue_step(
                    old(self).queued(c),
                    old(self).queue_capacity(c),
                    p,
                )
                &&& r is Err ==> r == Result::<(), TriggerError>::Err(TriggerError::CapacityExceeded)
                &&& old(self).state_spec(c) is Idle && r is Ok
                    ==> final(self).state_spec(c) is Pending
                &&& !(old(self).state_spec(c) is Idle && r is Ok)
                    ==> final(self).state_spec(c) == old(self).state_spec(c)
                &&& forall|u: int| 0 <= u < old(self).n_tasks() && u != c
                    ==> old(self).task_unchanged(final(self), u)
            },
    {
        match self.find_bound(irq) {
            None => Err(TriggerError::NoSuchBinding),
            Some(c) => {
                let rr = self.spawn(c, p);
                proof {
                    if old(self).state_spec(c as int) is Idle && rr is Ok {
                        assert(self.state_spec(c as int) is Pending);
                    } else {
                        assert(self.state_spec(c as int) == old(self).state_spec(c as int));
                    }
                }
                match rr {
                    Ok(()) => Ok(()),
                    Err(SpawnError::CapacityExceeded) => Err(TriggerError::CapacityExceeded),
                }
            },
        }
    }

    /// The priority invariant of dispatch: of two pending tasks, the
    /// lower-priority one is never the dispatch choice — the
    /// higher-priority one begins running first.
    pub proof fn lemma_priority_order(&self, a: int, b: int)
        requires
            self.wf(),
            self.is_pending(a),
            self.is_pending(b),
            self.prio(a) > self.prio(b),
        ensures
            self.spec_choice() != Some(b),
    {
        self.lemma_choice_sound();
        if self.spec_choice() == Some(b) {
            assert(self.dispatchable(b));
            assert(self.dispatchable(a));
        }
    }

    /// On a single core, tasks of equal priority never nest: no two
    /// frames of the preemption stack carry the same static priority, so
    /// at most one task of any given priority is ever mid-execution.
    pub proof fn lemma_no_equal_priority_nesting(&self, k1: int, k2: int)
        requires
            self.wf(),
            0 <= k1 < k2 < self.spec_stack().len(),
        ensures
            self.prio(self.spec_stack()[k1].task as int)
                != self.prio(self.spec_stack()[k2].task as int),
    {
    }

    /// While a task is on the preemption stack, no pending task of lower
    /// or equal priority can be started: the stack shields everything at
    /// or below the priorities it holds.
    pub proof fn lemma_stack_shields(&self, a: int, b: int)
        requires
            self.wf(),
            self.on_stack(a),
            0 <= b < self.n_tasks(),
            self.prio(b) <= self.prio(a),
        ensures
            self.spec_choice() != Some(b),
    {
        self.lemma_choice_sound();
        let s = self.spec_stack();
        let k = choose|k: int| 0 <= k < s.len() && (#[trigger] s[k]).task == a;
        if k < s.len() - 1 {
            assert(self.prio(s[k].task as int) < self.prio(s[s.len() - 1].task as int));
        }
        assert(self.prio(a) <= self.spec_current());
        if self.spec_choice() == Some(b) {
            assert(self.dispatchable(b));
        }
    }

}

} // verus!
