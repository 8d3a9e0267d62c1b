//! A point of a timeline that is reached in any case.
use vstd::prelude::*;

verus! {

/// A point that whoever shows a buffer is to signal once it is done with it.
#[derive(Debug, Clone, Copy, PartialEq, Eq, Structural)]
pub struct SignalOnDrop {
    pub point: u64,
    /// Whether somebody took it on to signal the point.
    pub consumed: bool,
}

impl SignalOnDrop {
    pub fn new(point: u64) -> (signal: Self)
        ensures
            signal == (SignalOnDrop { point, consumed: false }),
    {
        SignalOnDrop { point, consumed: false }
    }

    /// Hands the point over to somebody who will signal it.
    pub fn consume(&mut self) -> (point: u64)
        ensures
            point == old(self).point,
            *final(self) == (SignalOnDrop { consumed: true, ..*old(self) }),
    {
        self.consumed = true;
        self.point
    }

    /// The point that has to be signalled when nobody refers to it any more: the one that
    /// nobody took on.
    pub fn dropped(&self) -> (point: Option<u64>)
        ensures
            point == (if self.consumed {
                None
            } else {
                Some(self.point)
            }),
    {
        if self.consumed {
            None
        } else {
            Some(self.point)
        }
    }
}

} // verus!
