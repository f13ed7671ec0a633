//! Logical animation time.

use vstd::prelude::*;

verus! {

/// A count of logical ticks.
#[derive(Debug, Clone, Copy, PartialEq, Eq, Structural, Hash, PartialOrd, Ord)]
pub struct Ticks(pub u32);

impl Ticks {
    /// The tick count reached from `self` by `delta`, which may be negative.
    /// The count never goes below zero, nor above what 32 bits hold.
    pub open spec fn advanced(self, delta: int) -> Ticks {
        if self.0 + delta < 0 {
            Ticks(0)
        } else if self.0 + delta > u32::MAX {
            Ticks(u32::MAX)
        } else {
            Ticks((self.0 + delta) as u32)
        }
    }

    pub fn new(ticks: u32) -> (t: Self)
        ensures
            t == Ticks(ticks),
    {
        Ticks(ticks)
    }

    pub fn get(self) -> (ticks: u32)
        ensures
            ticks == self.0,
    {
        self.0
    }

    /// Moves the count by `delta`; see [`Ticks::advanced`].
    pub fn advance(self, delta: i32) -> (t: Self)
        ensures
            t == self.advanced(delta as int),
    {
        let sum: i64 = self.0 as i64 + delta as i64;
        if sum < 0 {
            Ticks(0)
        } else if sum > u32::MAX as i64 {
            Ticks(u32::MAX)
        } else {
            Ticks(sum as u32)
        }
    }
}

impl Default for Ticks {
    fn default() -> (t: Self)
        ensures
            t == Ticks(0),
    {
        Ticks(0)
    }
}

/// The number of whole ticks that pass in `millis` milliseconds at `fps`
/// ticks per second. At 0 ticks per second none passes.
pub open spec fn ticks_in(fps: u8, millis: u64) -> int {
    (fps as int) * (millis as int) / 1000
}

/// How many ticks playback at `fps` ticks per second is due after
/// `millis` milliseconds of wall time.
pub fn ticks_elapsed(fps: u8, millis: u64) -> (n: u64)
    ensures
        n == ticks_in(fps, millis),
        fps == 0 ==> n == 0,
{
    assert(0 <= (fps as int) * (millis as int) <= 255 * 0xffff_ffff_ffff_ffff) by (nonlinear_arith)
        requires
            0 <= fps <= 255,
            0 <= millis <= 0xffff_ffff_ffff_ffff,
    ;
    let product: u128 = (fps as u128) * (millis as u128);
    (product / 1000) as u64
}

} // verus!
