//! Fixed-capacity FIFO mailboxes for spawn payloads.
//!
//! Every software task owns one mailbox. Its capacity is fixed when the
//! system is configured: an enqueue past capacity is reported to the
//! producer as [`SpawnError::CapacityExceeded`] and never silently
//! dropped, and the queue never reallocates past its capacity. Payloads
//! leave in arrival order, one per dispatch of the owning task.

use vstd::prelude::*;

verus! {

use vstd::math::min;

/// Failure of a spawn: the target mailbox already holds as many payloads
/// as its configured capacity.
#[derive(Clone, Copy, PartialEq, Eq, Structural, Debug)]
pub enum SpawnError {
    CapacityExceeded,
}

/// A fixed-capacity FIFO queue of pending spawn payloads for one task.
pub struct Mailbox<P> {
    items: Vec<P>,
    capacity: usize,
}

/// One step of the enqueue discipline on the mathematical contents: the
/// payload is appended when there is room and the contents are left
/// untouched when there is not.
pub open spec fn enqueue_step<P>(contents: Seq<P>, capacity: nat, p: P) -> Seq<P> {
    if contents.len() < capacity {
        contents.push(p)
    } else {
        contents
    }
}

/// The contents after offering a whole burst of payloads in order,
/// starting from `contents`.
pub open spec fn enqueue_burst<P>(contents: Seq<P>, capacity: nat, burst: Seq<P>) -> Seq<P>
    decreases burst.len(),
{
    if burst.len() == 0 {
        contents
    } else {
        enqueue_burst(enqueue_step(contents, capacity, burst[0]), capacity, burst.drop_first())
    }
}

impl<P> Mailbox<P> {
    /// The mathematical contents, oldest payload first.
    pub closed spec fn view(&self) -> Seq<P> {
        self.items@
    }

    /// The configured capacity.
    pub closed spec fn spec_capacity(&self) -> nat {
        self.capacity as nat
    }

    /// The contents never exceed the configured capacity.
    pub open spec fn wf(&self) -> bool {
        self@.len() <= self.spec_capacity()
    }

    /// An empty mailbox with the given fixed capacity.
    pub fn new(capacity: usize) -> (m: Mailbox<P>)
        ensures
            m.wf(),
            m@ == Seq::<P>::empty(),
            m.spec_capacity() == capacity,
    {
        Mailbox { items: Vec::new(), capacity }
    }

    /// The number of pending payloads.
    pub fn len(&self) -> (n: usize)
        ensures
            n == self@.len(),
    {
        self.items.len()
    }

    /// Whether no payload is pending.
    pub fn is_empty(&self) -> (r: bool)
        ensures
            r == (self@.len() == 0),
    {
        self.items.len() == 0
    }

    /// The configured capacity.
    pub fn capacity(&self) -> (c: usize)
        ensures
            c == self.spec_capacity(),
    {
        self.capacity
    }

    /// Appends a payload, or reports `CapacityExceeded` — and changes
    /// nothing — exactly when the mailbox is already full.
    pub fn enqueue(&mut self, p: P) -> (r: Result<(), SpawnError>)
        requires
            old(self).wf(),
        ensures
            final(self).wf(),
            final(self).spec_capacity() == old(self).spec_capacity(),
            final(self)@ == enqueue_step(old(self)@, old(self).spec_capacity(), p),
            r is Ok <==> old(self)@.len() < old(self).spec_capacity(),
            r is Err ==> r == Result::<(), SpawnError>::Err(SpawnError::CapacityExceeded)
                && final(self)@ == old(self)@,
    {
        if self.items.len() < self.capacity {
            self.items.push(p);
            Ok(())
        } else {
            Err(SpawnError::CapacityExceeded)
        }
    }

    /// Removes and returns the oldest payload; `None` — and no change —
    /// exactly when the mailbox is empty.
    pub fn dequeue(&mut self) -> (r: Option<P>)
        requires
            old(self).wf(),
        ensures
            final(self).wf(),
            final(self).spec_capacity() == old(self).spec_capacity(),
            old(self)@.len() == 0 ==> r is None && final(self)@ == old(self)@,
            old(self)@.len() > 0 ==> r == Some(old(self)@[0]) && final(self)@ == old(self)@.drop_first(),
    {
        if self.items.len() == 0 {
            None
        } else {
            let p = self.items.remove(0);
            assert(self.items@ =~= old(self).items@.drop_first());
            Some(p)
        }
    }
}

/// Burst delivery against a mailbox already holding `contents`: the
/// first payloads of the burst, up to the room left, are kept in arrival
/// order, and everything past that room is refused.
proof fn lemma_burst_from<P>(contents: Seq<P>, capacity: nat, burst: Seq<P>)
    requires
        contents.len() <= capacity,
    ensures
        enqueue_burst(contents, capacity, burst)
            == contents + burst.take(min(burst.len() as int, capacity - contents.len())),
    decreases burst.len(),
{
    if burst.len() == 0 {
        assert(enqueue_burst(contents, capacity, burst)
            == contents + burst.take(min(burst.len() as int, capacity - contents.len()))) by {
            assert(contents + burst.take(0) =~= contents);
        }
    } else {
        let stepped = enqueue_step(contents, capacity, burst[0]);
        lemma_burst_from(stepped, capacity, burst.drop_first());
        let room = capacity - contents.len();
        if contents.len() < capacity {
            assert(stepped == contents.push(burst[0]));
            assert(stepped + burst.drop_first().take(min(burst.len() - 1, room - 1))
                =~= contents + burst.take(min(burst.len() as int, room)));
        } else {
            assert(stepped == contents);
            assert(stepped + burst.drop_first().take(0) =~= contents + burst.take(0));
        }
    }
}

/// For a burst of payloads offered to an initially empty mailbox of
/// capacity `c`: the first `c` are delivered, in order, and every later
/// payload in the burst is the one refused with `CapacityExceeded` (an
/// enqueue succeeds exactly while the contents are still below `c`).
pub proof fn lemma_burst_delivery<P>(capacity: nat, burst: Seq<P>)
    ensures
        enqueue_burst(Seq::<P>::empty(), capacity, burst)
            == burst.take(min(burst.len() as int, capacity as int)),
        forall|k: int| 0 <= k < burst.len()
            ==> (#[trigger] enqueue_burst(Seq::<P>::empty(), capacity, burst.take(k)).len() < capacity
                <==> k < capacity),
{
    lemma_burst_from(Seq::<P>::empty(), capacity, burst);
    assert(Seq::<P>::empty() + burst.take(min(burst.len() as int, capacity as int))
        =~= burst.take(min(burst.len() as int, capacity as int)));
    assert forall|k: int| 0 <= k < burst.len() implies
        (#[trigger] enqueue_burst(Seq::<P>::empty(), capacity, burst.take(k)).len() < capacity
            <==> k < capacity) by {
        lemma_burst_from(Seq::<P>::empty(), capacity, burst.take(k));
        assert(Seq::<P>::empty() + burst.take(k).take(min(k, capacity as int))
            =~= burst.take(k).take(min(k, capacity as int)));
        assert(burst.take(k).take(min(k, capacity as int)).len() == min(k, capacity as int));
    }
}

} // verus!
