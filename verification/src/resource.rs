//! Shared resource cells under the priority-ceiling discipline.
//!
//! A [`ResourceCell`] is a typed storage location shared between tasks.
//! Its ceiling is the highest static priority of any task in its access
//! set (see [`crate::config::ceiling_of`]). Access is legal only while
//! the effective running priority is at or above the ceiling: then no
//! other user of the resource can be started, so the access is race-free
//! with no runtime mutex, no blocking and no spinning. A task whose
//! static priority already meets the ceiling accesses the cell directly
//! ([`ResourceCell::read_at`], [`ResourceCell::write_at`] — their
//! preconditions are discharged statically, nothing is checked at run
//! time). A lower-priority user wraps the access in the lock protocol
//! ([`ResourceCell::lock_write`] and friends), which raises the running
//! priority to the ceiling for the access and restores it on every path
//! out.

use vstd::prelude::*;
use crate::dispatch::Dispatcher;

verus! {

/// A typed storage location guarded by a priority ceiling.
pub struct ResourceCell<T> {
    value: T,
    ceiling: u8,
}

impl<T> ResourceCell<T> {
    /// The stored value.
    pub closed spec fn spec_value(&self) -> T {
        self.value
    }

    /// The ceiling: the highest static priority of the tasks sharing
    /// this cell.
    pub closed spec fn spec_ceiling(&self) -> int {
        self.ceiling as int
    }

    /// A cell with the given ceiling and initial value.
    pub fn new(ceiling: u8, value: T) -> (c: Self)
        ensures
            c.spec_value() == value,
            c.spec_ceiling() == ceiling,
    {
        ResourceCell { value, ceiling }
    }

    /// The cell's ceiling.
    pub fn ceiling(&self) -> (c: u8)
        ensures
            c == self.spec_ceiling(),
    {
        self.ceiling
    }

    /// Direct borrow of the value, legal only at or above the ceiling.
    pub fn read_at<P>(&self, sched: &Dispatcher<P>) -> (v: &T)
        requires
            sched.spec_current() >= self.spec_ceiling(),
        ensures
            *v == self.spec_value(),
    {
        &self.value
    }

    /// Direct write, legal only at or above the ceiling.
    pub fn write_at<P>(&mut self, sched: &Dispatcher<P>, v: T)
        requires
            sched.spec_current() >= old(self).spec_ceiling(),
        ensures
            final(self).spec_ceiling() == old(self).spec_ceiling(),
            final(self).spec_value() == v,
    {
        self.value = v;
    }

    /// Direct exchange of the value, legal only at or above the ceiling;
    /// returns the previous value.
    pub fn replace_at<P>(&mut self, sched: &Dispatcher<P>, v: T) -> (prev: T)
        requires
            sched.spec_current() >= old(self).spec_ceiling(),
        ensures
            final(self).spec_ceiling() == old(self).spec_ceiling(),
            final(self).spec_value() == v,
            prev == old(self).spec_value(),
    {
        let mut v = v;
        core::mem::swap(&mut self.value, &mut v);
        v
    }

    /// Lock-mediated write: raises the running priority to the cell's
    /// ceiling, writes, and restores the previous priority. The
    /// scheduling state is returned to exactly what it was; only the
    /// cell's value changes — observably the same outcome as a direct
    /// write by a task already at or above the ceiling.
    pub fn lock_write<P>(&mut self, sched: &mut Dispatcher<P>, v: T)
        requires
            old(sched).wf(),
        ensures
            final(self).spec_ceiling() == old(self).spec_ceiling(),
            final(self).spec_value() == v,
            final(sched).wf(),
            old(sched).same_table(final(sched)),
            final(sched).spec_current() == old(sched).spec_current(),
            final(sched).spec_stack() == old(sched).spec_stack(),
            forall|u: int| 0 <= u < old(sched).n_tasks()
                ==> old(sched).task_unchanged(final(sched), u),
    {
        let saved = sched.lock_raise(self.ceiling);
        let ghost mid = *sched;
        self.write_at(&*sched, v);
        sched.lock_restore(saved);
        proof {
            assert forall|u: int| 0 <= u < old(sched).n_tasks()
                implies old(sched).task_unchanged(sched, u) by {
                assert(old(sched).task_unchanged(&mid, u));
                assert(mid.task_unchanged(sched, u));
            }
        }
    }

    /// Lock-mediated exchange: raise, swap, restore; returns the
    /// previous value and returns the scheduler to its prior state.
    pub fn lock_replace<P>(&mut self, sched: &mut Dispatcher<P>, v: T) -> (prev: T)
        requires
            old(sched).wf(),
        ensures
            final(self).spec_ceiling() == old(self).spec_ceiling(),
            final(self).spec_value() == v,
            prev == old(self).spec_value(),
            final(sched).wf(),
            old(sched).same_table(final(sched)),
            final(sched).spec_current() == old(sched).spec_current(),
            final(sched).spec_stack() == old(sched).spec_stack(),
            forall|u: int| 0 <= u < old(sched).n_tasks()
                ==> old(sched).task_unchanged(final(sched), u),
    {
        let saved = sched.lock_raise(self.ceiling);
        let ghost mid = *sched;
        let prev = self.replace_at(&*sched, v);
        sched.lock_restore(saved);
        proof {
            assert forall|u: int| 0 <= u < old(sched).n_tasks()
                implies old(sched).task_unchanged(sched, u) by {
                assert(old(sched).task_unchanged(&mid, u));
                assert(mid.task_unchanged(sched, u));
            }
        }
        prev
    }
}

impl<T: Copy> ResourceCell<T> {
    /// Direct copy of the value, legal only at or above the ceiling.
    pub fn get_at<P>(&self, sched: &Dispatcher<P>) -> (v: T)
        requires
            sched.spec_current() >= self.spec_ceiling(),
        ensures
            v == self.spec_value(),
    {
        self.value
    }

    /// Direct in-place update through a caller-supplied function, legal
    /// only at or above the ceiling: the cell ends up holding what the
    /// function made of the old value.
    pub fn update_at<P, F: FnOnce(T) -> T>(&mut self, sched: &Dispatcher<P>, f: F)
        requires
            sched.spec_current() >= old(self).spec_ceiling(),
            call_requires(f, (old(self).spec_value(),)),
        ensures
            final(self).spec_ceiling() == old(self).spec_ceiling(),
            call_ensures(f, (old(self).spec_value(),), final(self).spec_value()),
    {
        let v = self.value;
        self.value = f(v);
    }

    /// Lock-mediated in-place update: raises the running priority to the
    /// ceiling for the duration of the caller-supplied function, applies
    /// it to the value, and restores the previous priority — the lock
    /// contract of the ceiling protocol. The scheduling state comes back
    /// exactly as it was.
    pub fn lock_update<P, F: FnOnce(T) -> T>(&mut self, sched: &mut Dispatcher<P>, f: F)
        requires
            old(sched).wf(),
            call_requires(f, (old(self).spec_value(),)),
        ensures
            final(self).spec_ceiling() == old(self).spec_ceiling(),
            call_ensures(f, (old(self).spec_value(),), final(self).spec_value()),
            final(sched).wf(),
            old(sched).same_table(final(sched)),
            final(sched).spec_current() == old(sched).spec_current(),
            final(sched).spec_stack() == old(sched).spec_stack(),
            forall|u: int| 0 <= u < old(sched).n_tasks()
                ==> old(sched).task_unchanged(final(sched), u),
    {
        let saved = sched.lock_raise(self.ceiling);
        let ghost mid = *sched;
        let v = self.value;
        self.value = f(v);
        sched.lock_restore(saved);
        proof {
            assert forall|u: int| 0 <= u < old(sched).n_tasks()
                implies old(sched).task_unchanged(sched, u) by {
                assert(old(sched).task_unchanged(&mid, u));
                assert(mid.task_unchanged(sched, u));
            }
        }
    }

    /// Lock-mediated copy of the value: raise, read, restore.
    pub fn lock_get<P>(&self, sched: &mut Dispatcher<P>) -> (v: T)
        requires
            old(sched).wf(),
        ensures
            v == self.spec_value(),
            final(sched).wf(),
            old(sched).same_table(final(sched)),
            final(sched).spec_current() == old(sched).spec_current(),
            final(sched).spec_stack() == old(sched).spec_stack(),
            forall|u: int| 0 <= u < old(sched).n_tasks()
                ==> old(sched).task_unchanged(final(sched), u),
    {
        let saved = sched.lock_raise(self.ceiling);
        let ghost mid = *sched;
        let v = self.get_at(&*sched);
        sched.lock_restore(saved);
        proof {
            assert forall|u: int| 0 <= u < old(sched).n_tasks()
                implies old(sched).task_unchanged(sched, u) by {
                assert(old(sched).task_unchanged(&mid, u));
                assert(mid.task_unchanged(sched, u));
            }
        }
        v
    }
}

/// A task already at or above a resource's ceiling gains nothing and
/// loses nothing by taking the lock: the raise leaves the running
/// priority exactly where it was, the restore puts back that same
/// priority, and the access in between sees the same exclusive cell
/// either way — direct access and lock-mediated access are observably
/// equivalent.
pub proof fn lemma_lock_noop_at_ceiling(current: int, ceiling: int)
    requires
        current >= ceiling,
    ensures
        (if ceiling > current { ceiling } else { current }) == current,
{
}

} // verus!
