//! Wrap-aware monotonic instants.
//!
//! The clock source is a free-running 32-bit cycle counter that wraps at
//! its bit width. Instants taken from it must therefore be compared with
//! modular arithmetic: `b` is considered reached by `a` when the wrapped
//! distance from `b` to `a` is less than half the counter range. Plain
//! subtraction or a plain `>=` comparison gives the wrong answer as soon
//! as the counter wraps between the two instants.

use vstd::prelude::*;

verus! {

/// Half of the 32-bit counter range; distances below this count as
/// "in the past or now", distances at or above it as "still ahead".
pub const HALF_RANGE: u32 = 0x8000_0000;

/// The value `a + off` reduced modulo the 32-bit counter range.
pub open spec fn wrap_add(a: u32, off: u32) -> u32 {
    if a + off > u32::MAX {
        (a + off - 0x1_0000_0000) as u32
    } else {
        (a + off) as u32
    }
}

/// The wrapped distance from `b` forward to `a`: the unique `d < 2^32`
/// with `b + d == a` modulo the counter range.
pub open spec fn wrap_sub(a: u32, b: u32) -> u32 {
    if a - b < 0 {
        (a - b + 0x1_0000_0000) as u32
    } else {
        (a - b) as u32
    }
}

/// Wrap-aware "due" test: `target` has been reached at time `now` when
/// the wrapped distance from `target` to `now` lies in the first half of
/// the counter range.
pub open spec fn spec_reached(now: u32, target: u32) -> bool {
    wrap_sub(now, target) < HALF_RANGE
}

/// A point in time taken from the free-running counter.
#[derive(Clone, Copy, PartialEq, Eq, Structural, Debug)]
pub struct Instant {
    pub ticks: u32,
}

impl Instant {
    /// Wraps a raw counter reading.
    pub fn new(ticks: u32) -> (r: Instant)
        ensures
            r.ticks == ticks,
    {
        Instant { ticks }
    }

    /// The instant `off` ticks after `self`, wrapping at the counter range.
    pub fn plus_ticks(self, off: u32) -> (r: Instant)
        ensures
            r.ticks == wrap_add(self.ticks, off),
    {
        Instant { ticks: self.ticks.wrapping_add(off) }
    }

    /// Whether `self` has been reached at time `now`, by wrap-aware
    /// comparison.
    pub fn reached_by(self, now: Instant) -> (r: bool)
        ensures
            r == spec_reached(now.ticks, self.ticks),
    {
        now.ticks.wrapping_sub(self.ticks) < HALF_RANGE
    }

    /// The wrapped number of ticks from `earlier` to `self`.
    pub fn ticks_since(self, earlier: Instant) -> (r: u32)
        ensures
            r == wrap_sub(self.ticks, earlier.ticks),
    {
        self.ticks.wrapping_sub(earlier.ticks)
    }
}

/// A target computed by adding a positive offset below half the counter
/// range is reported "not yet due" at every instant strictly inside the
/// offset window, and "due" from the target on, for a further half
/// range — even when the addition wraps past the maximum counter value.
pub proof fn lemma_wraparound_due(start: u32, off: u32, k: u32)
    requires
        0 < off < HALF_RANGE,
    ensures
        k < off ==> !spec_reached(wrap_add(start, k), wrap_add(start, off)),
        off <= k < off + HALF_RANGE ==> spec_reached(wrap_add(start, k), wrap_add(start, off)),
{
}

/// Distances measured from a common reference order instants in the
/// future half-window: a target is reached at `now` exactly when its
/// distance from the reference does not exceed that of `now`, and an
/// unreached target keeps the difference of the two distances.
pub proof fn lemma_wrap_sub_order(cur: u32, at: u32, now: u32)
    requires
        wrap_sub(at, cur) < HALF_RANGE,
        wrap_sub(now, cur) < HALF_RANGE,
    ensures
        spec_reached(now, at) <==> wrap_sub(at, cur) <= wrap_sub(now, cur),
        wrap_sub(at, cur) > wrap_sub(now, cur) ==> wrap_sub(at, now) == wrap_sub(at, cur) - wrap_sub(now, cur),
{
}

} // verus!
