//! The scheduled queue: it holds requests to run a task at or after a
//! given instant, layered over the wrap-aware monotonic clock.
//!
//! The queue keeps its entries ordered by target instant, measured as the
//! wrapped distance from a cursor — the clock value the queue was last
//! advanced to. Entries always lie in the future half-window of the
//! cursor. An insertion whose target is outside that window (that is, in
//! the past half-window of the cursor) is refused with
//! [`ScheduleError::AlreadyPast`]: scheduling into the past is treated
//! as an error, the stricter of the two defensible policies. A target
//! equal to the cursor is accepted and fires on the next advance.
//!
//! Once inserted, an entry is not cancellable: it stays until it fires.
//! A cancel operation keyed by a handle would be a compatible extension,
//! but none is offered here — a limitation, stated rather than hidden.
//!
//! Entries with equal target instants keep their insertion order: a new
//! entry is placed after every entry at the same distance, so firing is
//! stable. [`TimerQueue::advance`] moves the cursor forward (by less
//! than half the counter range — the poll rate must outpace counter
//! wraparound, which the caller guarantees) and removes exactly the
//! entries that are due at the new cursor, in non-decreasing instant
//! order, handing back their tasks and payloads for delivery to the
//! dispatcher's mailboxes.

use vstd::prelude::*;
use crate::clock::{lemma_wrap_sub_order, spec_reached, wrap_sub, Instant, HALF_RANGE};

verus! {

/// Failure of a schedule request.
#[derive(Clone, Copy, PartialEq, Eq, Structural, Debug)]
pub enum ScheduleError {
    /// The target instant lies in the past half-window of the queue's
    /// cursor.
    AlreadyPast,
}

/// One scheduled entry: the task to make pending, the absolute target
/// instant, and the payload to deliver.
pub struct TimerEntry<P> {
    pub task: usize,
    pub at: u32,
    pub payload: P,
}

/// The scheduled queue.
pub struct TimerQueue<P> {
    entries: Vec<TimerEntry<P>>,
    cursor: u32,
}

/// The number of leading entries of `s` whose wrapped distance from
/// `cursor` is at most `d` — in a sorted queue, exactly the entries due
/// once the cursor has moved forward by `d`.
pub open spec fn due_prefix_len<P>(s: Seq<TimerEntry<P>>, cursor: u32, d: int) -> int
    decreases s.len(),
{
    if s.len() == 0 {
        0
    } else if wrap_sub(s[0].at, cursor) <= d {
        1 + due_prefix_len(s.drop_first(), cursor, d)
    } else {
        0
    }
}

/// The due-prefix length is between 0 and the queue length, everything
/// in the prefix is within distance `d`, and in a sorted queue the entry
/// just past the prefix (if any) is beyond `d`.
proof fn lemma_due_prefix_len_bounds<P>(s: Seq<TimerEntry<P>>, cursor: u32, d: int)
    ensures
        0 <= due_prefix_len(s, cursor, d) <= s.len(),
        forall|k: int| 0 <= k < due_prefix_len(s, cursor, d)
            ==> wrap_sub((#[trigger] s[k]).at, cursor) <= d,
        due_prefix_len(s, cursor, d) < s.len()
            ==> wrap_sub(s[due_prefix_len(s, cursor, d)].at, cursor) > d,
    decreases s.len(),
{
    if s.len() > 0 && wrap_sub(s[0].at, cursor) <= d {
        lemma_due_prefix_len_bounds(s.drop_first(), cursor, d);
        assert forall|k: int| 0 <= k < due_prefix_len(s, cursor, d)
            implies wrap_sub((#[trigger] s[k]).at, cursor) <= d by {
            if k > 0 {
                assert(s.drop_first()[k - 1] == s[k]);
            }
        }
        if due_prefix_len(s, cursor, d) < s.len() {
            assert(s.drop_first()[due_prefix_len(s, cursor, d) - 1] == s[due_prefix_len(s, cursor, d)]);
        }
    }
}

impl<P> TimerQueue<P> {
    /// The queued entries, earliest first.
    pub closed spec fn spec_entries(&self) -> Seq<TimerEntry<P>> {
        self.entries@
    }

    /// The clock value the queue was last advanced to.
    pub closed spec fn spec_cursor(&self) -> u32 {
        self.cursor
    }

    /// The wrapped distance of entry `k`'s target from the cursor.
    pub open spec fn dist(&self, k: int) -> int {
        wrap_sub(self.spec_entries()[k].at, self.spec_cursor()) as int
    }

    /// Well-formedness: every entry lies in the future half-window of
    /// the cursor, and the queue is sorted by distance from the cursor
    /// (stable, so ties keep insertion order).
    pub open spec fn wf(&self) -> bool {
        &&& forall|k: int| 0 <= k < self.spec_entries().len() ==> #[trigger] self.dist(k) < HALF_RANGE
        &&& forall|k1: int, k2: int| 0 <= k1 < k2 < self.spec_entries().len()
            ==> #[trigger] self.dist(k1) <= #[trigger] self.dist(k2)
    }

    /// An empty queue with its cursor at the given start instant.
    pub fn new(start: Instant) -> (q: TimerQueue<P>)
        ensures
            q.wf(),
            q.spec_entries() == Seq::<TimerEntry<P>>::empty(),
            q.spec_cursor() == start.ticks,
    {
        TimerQueue { entries: Vec::new(), cursor: start.ticks }
    }

    /// The number of queued entries.
    pub fn len(&self) -> (n: usize)
        ensures
            n == self.spec_entries().len(),
    {
        self.entries.len()
    }

    /// The position a target at distance `d` inserts at: after every
    /// entry at distance `d` or less.
    pub open spec fn spec_insert_pos(&self, d: int) -> int {
        due_prefix_len(self.spec_entries(), self.spec_cursor(), d)
    }

    /// Finds the insertion position for distance `d`.
    fn find_pos(&self, d: u32) -> (i: usize)
        requires
            self.wf(),
        ensures
            i == self.spec_insert_pos(d as int),
    {
        proof {
            lemma_due_prefix_len_bounds(self.spec_entries(), self.spec_cursor(), d as int);
            assert(self.spec_entries().skip(0) =~= self.spec_entries());
        }
        let mut i: usize = 0;
        while i < self.entries.len()
            invariant
                self.wf(),
                0 <= i <= self.spec_entries().len(),
                forall|k: int| 0 <= k < i ==> #[trigger] self.dist(k) <= d,
                due_prefix_len(self.spec_entries().skip(i as int), self.spec_cursor(), d as int)
                    == self.spec_insert_pos(d as int) - i,
            decreases self.spec_entries().len() - i,
        {
            proof {
                assert(self.spec_entries().skip(i as int)[0] == self.spec_entries()[i as int]);
                assert(self.spec_entries().skip(i as int).drop_first()
                    =~= self.spec_entries().skip(i + 1));
            }
            if self.entries[i].at.wrapping_sub(self.cursor) > d {
                return i;
            }
            i = i + 1;
        }
        proof {
            assert(self.spec_entries().skip(i as int).len() == 0);
        }
        i
    }

    /// Inserts an entry for `task` at instant `at`, keeping the queue
    /// sorted and placing the new entry after all entries with the same
    /// target (ties fire in insertion order). Refused with `AlreadyPast`
    /// — changing nothing — exactly when the target lies in the past
    /// half-window of the cursor.
    pub fn schedule(&mut self, task: usize, at: Instant, payload: P) -> (r: Result<
        (),
        ScheduleError,
    >)
        requires
            old(self).wf(),
        ensures
            final(self).wf(),
            final(self).spec_cursor() == old(self).spec_cursor(),
            r is Err <==> wrap_sub(at.ticks, old(self).spec_cursor()) >= HALF_RANGE,
            r is Err ==> r == Result::<(), ScheduleError>::Err(ScheduleError::AlreadyPast)
                && final(self).spec_entries() == old(self).spec_entries(),
            r is Ok ==> final(self).spec_entries() == old(self).spec_entries().insert(
                old(self).spec_insert_pos(wrap_sub(at.ticks, old(self).spec_cursor()) as int),
                TimerEntry { task, at: at.ticks, payload },
            ),
    {
        let d = at.ticks.wrapping_sub(self.cursor);
        if d >= HALF_RANGE {
            return Err(ScheduleError::AlreadyPast);
        }
        let i = self.find_pos(d);
        proof {
            lemma_due_prefix_len_bounds(self.spec_entries(), self.spec_cursor(), d as int);
        }
        let ghost pre = *self;
        self.entries.insert(i, TimerEntry { task, at: at.ticks, payload });
        proof {
            let s0 = pre.spec_entries();
            let s1 = self.spec_entries();
            let pos = pre.spec_insert_pos(d as int);
            assert forall|k: int| 0 <= k < s1.len() implies #[trigger] self.dist(k) < HALF_RANGE by {
                if k < pos {
                    assert(s1[k] == s0[k]);
                    assert(pre.dist(k) < HALF_RANGE);
                } else if k == pos {
                } else {
                    assert(s1[k] == s0[k - 1]);
                    assert(pre.dist(k - 1) < HALF_RANGE);
                }
            }
            assert forall|k1: int, k2: int| 0 <= k1 < k2 < s1.len() implies
                #[trigger] self.dist(k1) <= #[trigger] self.dist(k2) by {
                if k1 < pos {
                    assert(s1[k1] == s0[k1]);
                    assert(pre.dist(k1) <= d);
                } else if k1 == pos {
                } else {
                    assert(s1[k1] == s0[k1 - 1]);
                }
                if k2 < pos {
                    assert(s1[k2] == s0[k2]);
                } else if k2 == pos {
                } else {
                    assert(s1[k2] == s0[k2 - 1]);
                    if k2 - 1 >= pos {
                        assert(wrap_sub(s0[k2 - 1].at, pre.spec_cursor()) > d) by {
                            if k2 - 1 > pos {
                                assert(pre.dist(pos) <= pre.dist(k2 - 1));
                            }
                        }
                    }
                }
                if k1 < pos && k2 < pos {
                    assert(pre.dist(k1) <= pre.dist(k2));
                } else if k1 > pos && k2 > pos {
                    assert(pre.dist(k1 - 1) <= pre.dist(k2 - 1));
                }
            }
        }
        Ok(())
    }

    /// Advances the cursor to `now` and removes exactly the entries that
    /// have become due, in non-decreasing instant order (ties in
    /// insertion order), returning their tasks and payloads for
    /// delivery. The caller polls faster than the counter wraps: `now`
    /// lies in the future half-window of the cursor.
    pub fn advance(&mut self, now: Instant) -> (fired: Vec<(usize, P)>)
        requires
            old(self).wf(),
            wrap_sub(now.ticks, old(self).spec_cursor()) < HALF_RANGE,
        ensures
            final(self).wf(),
            final(self).spec_cursor() == now.ticks,
            ({
                let m = old(self).spec_insert_pos(
                    wrap_sub(now.ticks, old(self).spec_cursor()) as int,
                );
                &&& fired@.len() == m
                &&& forall|k: int| 0 <= k < m ==> (#[trigger] fired@[k]).0
                    == old(self).spec_entries()[k].task
                    && fired@[k].1 == old(self).spec_entries()[k].payload
                &&& final(self).spec_entries() == old(self).spec_entries().skip(m)
                &&& forall|k: int| 0 <= k < m
                    ==> spec_reached(now.ticks, (#[trigger] old(self).spec_entries()[k]).at)
                &&& forall|k: int| m <= k < old(self).spec_entries().len()
                    ==> !spec_reached(now.ticks, (#[trigger] old(self).spec_entries()[k]).at)
                &&& forall|k1: int, k2: int| 0 <= k1 < k2 < m
                    ==> wrap_sub(old(self).spec_entries()[k1].at, old(self).spec_cursor())
                        <= wrap_sub(old(self).spec_entries()[k2].at, old(self).spec_cursor())
            }),
    {
        let ghost pre = *self;
        let d = now.ticks.wrapping_sub(self.cursor);
        let ghost m = pre.spec_insert_pos(d as int);
        proof {
            lemma_due_prefix_len_bounds(pre.spec_entries(), pre.spec_cursor(), d as int);
        }
        let mut fired: Vec<(usize, P)> = Vec::new();
        loop
            invariant
                self.spec_cursor() == pre.spec_cursor(),
                0 <= fired@.len() <= m,
                m <= pre.spec_entries().len(),
                self.spec_entries() == pre.spec_entries().skip(fired@.len() as int),
                forall|k: int| 0 <= k < fired@.len() ==> (#[trigger] fired@[k]).0
                    == pre.spec_entries()[k].task
                    && fired@[k].1 == pre.spec_entries()[k].payload,
                forall|k: int| 0 <= k < m ==> wrap_sub(
                    (#[trigger] pre.spec_entries()[k]).at,
                    pre.spec_cursor(),
                ) <= d,
                m < pre.spec_entries().len() ==> wrap_sub(
                    pre.spec_entries()[m].at,
                    pre.spec_cursor(),
                ) > d,
                pre.wf(),
            ensures
                fired@.len() == m,
                self.spec_cursor() == pre.spec_cursor(),
                self.spec_entries() == pre.spec_entries().skip(m),
                forall|k: int| 0 <= k < m ==> (#[trigger] fired@[k]).0
                    == pre.spec_entries()[k].task
                    && fired@[k].1 == pre.spec_entries()[k].payload,
            decreases pre.spec_entries().len() - fired@.len(),
        {
            let ghost j = fired@.len() as int;
            if self.entries.len() == 0 {
                proof {
                    assert(j == m);
                }
                break;
            }
            proof {
                assert(self.spec_entries()[0] == pre.spec_entries()[j]);
            }
            if self.entries[0].at.wrapping_sub(self.cursor) > d {
                proof {
                    assert(j >= m) by {
                        if j < m {
                            assert(wrap_sub(pre.spec_entries()[j].at, pre.spec_cursor()) <= d);
                        }
                    }
                }
                break;
            }
            proof {
                assert(j < m) by {
                    if j >= m {
                        assert(m < pre.spec_entries().len());
                        assert(pre.dist(j) >= pre.dist(m)) by {
                            if j > m {
                                assert(pre.dist(m) <= pre.dist(j));
                            }
                        }
                    }
                }
            }
            let e = self.entries.remove(0);
            fired.push((e.task, e.payload));
            proof {
                assert(self.spec_entries() =~= pre.spec_entries().skip(fired@.len() as int));
            }
        }
        self.cursor = now.ticks;
        proof {
            let s1 = self.spec_entries();
            assert forall|k: int| 0 <= k < s1.len() implies #[trigger] self.dist(k) < HALF_RANGE
                && self.dist(k) == pre.dist(k + m) - d by {
                assert(s1[k] == pre.spec_entries()[k + m]);
                assert(pre.dist(k + m) < HALF_RANGE);
                assert(wrap_sub(pre.spec_entries()[k + m].at, pre.spec_cursor()) > d) by {
                    if k + m > m {
                        assert(pre.dist(m) <= pre.dist(k + m));
                    }
                }
                lemma_wrap_sub_order(pre.spec_cursor(), pre.spec_entries()[k + m].at, now.ticks);
            }
            assert forall|k1: int, k2: int| 0 <= k1 < k2 < s1.len() implies
                #[trigger] self.dist(k1) <= #[trigger] self.dist(k2) by {
                assert(pre.dist(k1 + m) <= pre.dist(k2 + m));
            }
            assert forall|k: int| 0 <= k < m
                implies spec_reached(now.ticks, (#[trigger] pre.spec_entries()[k]).at) by {
                lemma_wrap_sub_order(pre.spec_cursor(), pre.spec_entries()[k].at, now.ticks);
            }
            assert forall|k: int| m <= k < pre.spec_entries().len()
                implies !spec_reached(now.ticks, (#[trigger] pre.spec_entries()[k]).at) by {
                assert(pre.dist(k) < HALF_RANGE);
                assert(wrap_sub(pre.spec_entries()[k].at, pre.spec_cursor()) > d) by {
                    if k > m {
                        assert(pre.dist(m) <= pre.dist(k));
                    }
                }
                lemma_wrap_sub_order(pre.spec_cursor(), pre.spec_entries()[k].at, now.ticks);
            }
            assert forall|k1: int, k2: int| 0 <= k1 < k2 < m implies
                wrap_sub(pre.spec_entries()[k1].at, pre.spec_cursor())
                    <= wrap_sub(pre.spec_entries()[k2].at, pre.spec_cursor()) by {
                assert(pre.dist(k1) <= pre.dist(k2));
            }
        }
        fired
    }
}

} // verus!
