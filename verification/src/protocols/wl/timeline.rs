//! Points on the timeline that a buffer and those who show it wait for.
use vstd::prelude::*;

verus! {

/// The point that follows `n` others, the first of which is `point`.
pub open spec fn point_after(point: u64, n: int) -> u64 {
    ((point + n) % 0x1_0000_0000_0000_0000) as u64
}

/// Hands out the points of one timeline, one after the other.
#[derive(Debug, Clone, Copy, PartialEq, Eq, Structural)]
pub struct Points {
    pub next: u64,
}

impl Points {
    pub fn new() -> (points: Self)
        ensures
            points.next == 0,
    {
        Points { next: 0 }
    }

    /// The next point.
    pub fn take(&mut self) -> (point: u64)
        ensures
            point == old(self).next,
            final(self).next == point_after(old(self).next, 1),
    {
        let point: u64 = self.next;
        self.next = self.next.wrapping_add(1);
        point
    }

    /// The points of one submission: the one after which the buffer may be read, and the one
    /// after which it is free again.
    pub fn submission(&mut self) -> (points: (u64, u64))
        ensures
            points.0 == old(self).next,
            points.1 == point_after(old(self).next, 1),
            final(self).next == point_after(old(self).next, 2),
    {
        let acquire: u64 = self.take();
        let release: u64 = self.take();
        (acquire, release)
    }
}

/// No point comes again before all others were handed out.
pub proof fn points_differ(point: u64, m: int, n: int)
    requires
        m < n < m + 0x1_0000_0000_0000_0000,
    ensures
        point_after(point, m) != point_after(point, n),
{
}

/// As long as points are left, a buffer is free again only after it could be read, and every
/// later point comes after both.
pub proof fn points_increase(point: u64, m: int, n: int)
    requires
        0 <= m < n,
        point + n <= u64::MAX,
    ensures
        point_after(point, m) < point_after(point, n),
{
}

} // verus!
