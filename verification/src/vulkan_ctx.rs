//! The choice of a queue on the graphics device.
use vstd::prelude::*;

verus! {

/// What the queues of a family can do.
#[derive(Debug, Clone, Copy, PartialEq, Eq, Structural)]
pub struct QueueFamily {
    pub transfer: bool,
    pub protected: bool,
}

impl QueueFamily {
    /// Whether queues of the family can copy buffers.
    pub open spec fn is_usable(self) -> bool {
        self.transfer && !self.protected
    }
}

/// The first family whose queues can copy buffers.
pub fn queue_family(families: &Vec<QueueFamily>) -> (r: Option<usize>)
    ensures
        match r {
            Some(i) => {
                &&& i < families@.len()
                &&& families@[i as int].is_usable()
                &&& forall|j: int| 0 <= j < i ==> !(#[trigger] families@[j]).is_usable()
            },
            None => forall|j: int|
                0 <= j < families@.len() ==> !(#[trigger] families@[j]).is_usable(),
        },
{
    let mut i: usize = 0;
    while i < families.len()
        invariant
            i <= families.len(),
            forall|j: int| 0 <= j < i ==> !(#[trigger] families@[j]).is_usable(),
        decreases families.len() - i,
    {
        if families[i].transfer && !families[i].protected {
            return Some(i);
        }
        i += 1;
    }
    None
}

} // verus!
