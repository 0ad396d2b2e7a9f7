//! The PIT tick count and the uptime it gives.

use vstd::prelude::*;

verus! {

/// Programmed interrupt rate.
pub const TARGET_HZ: u64 = 100;
/// Nanoseconds per tick at `TARGET_HZ`.
pub const NS_PER_TICK: u64 = 10_000_000;
/// PIT input clock.
pub const PIT_HZ: u32 = 1_193_182;

/// Ticks since boot.
pub struct Timer {
    pub count: u64,
}

/// `t * NS_PER_TICK`, held at the largest `u64`.
pub open spec fn uptime_spec(t: u64) -> u64 {
    if t * NS_PER_TICK > u64::MAX {
        u64::MAX
    } else {
        (t * NS_PER_TICK) as u64
    }
}

/// The divisor programmed into PIT channel 0.
pub fn pit_divisor() -> (d: u16)
    ensures
        d == PIT_HZ / 100,
{
    (PIT_HZ / 100) as u16
}

impl Timer {
    pub fn new() -> (t: Timer)
        ensures
            t.count == 0,
    {
        Timer { count: 0 }
    }

    /// One timer interrupt (the count wraps like the hardware counter it mirrors).
    pub fn tick(&mut self)
        ensures
            final(self).count == old(self).count.wrapping_add(1),
    {
        self.count = self.count.wrapping_add(1);
    }

    pub fn ticks(&self) -> (t: u64)
        ensures
            t == self.count,
    {
        self.count
    }

    /// Monotonic nanoseconds since boot.
    pub fn uptime_ns(&self) -> (ns: u64)
        ensures
            ns == uptime_spec(self.count),
    {
        match self.count.checked_mul(NS_PER_TICK) {
            Some(v) => v,
            None => u64::MAX,
        }
    }
}

} // verus!
