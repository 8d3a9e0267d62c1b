//! When a frame reached the display.
use vstd::prelude::*;

verus! {

/// A moment of the monotonic clock.
#[derive(Debug, Clone, Copy, PartialEq, Eq, Structural)]
pub struct MonotonicTimestamp {
    pub secs: u64,
    pub subsec_nanos: u32,
}

/// The upper and the lower half of a number.
pub open spec fn halves(value: u64) -> (u32, u32) {
    ((value as int / 0x1_0000_0000) as u32, (value as int % 0x1_0000_0000) as u32)
}

/// Splits a number in two for the wire.
pub fn split(value: u64) -> (r: (u32, u32))
    ensures
        r == halves(value),
        r.0 * 0x1_0000_0000 + r.1 == value,
{
    let hi: u32 = (value >> 32) as u32;
    let lo: u32 = value as u32;
    assert(hi == value / 0x1_0000_0000 && lo == value % 0x1_0000_0000) by (bit_vector)
        requires
            hi == (value >> 32) as u32,
            lo == value as u32,
    ;
    (hi, lo)
}

impl MonotonicTimestamp {
    pub fn secs_hi(&self) -> (r: u32)
        ensures
            r == halves(self.secs).0,
    {
        split(self.secs).0
    }

    pub fn secs_lo(&self) -> (r: u32)
        ensures
            r == halves(self.secs).1,
    {
        split(self.secs).1
    }

    pub fn subsec_nanos(&self) -> (r: u32)
        ensures
            r == self.subsec_nanos,
    {
        self.subsec_nanos
    }
}

} // verus!
