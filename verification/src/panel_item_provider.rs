//! The acceptors that have offered to show panel items.
use vstd::prelude::*;

verus! {

/// Lets acceptors come and go.
#[derive(Debug, Clone, Copy, PartialEq, Eq, Structural)]
pub struct PanelItemProvider {}

/// How an acceptor is reached. Each number stands for one object.
#[derive(Debug, Clone, Copy, PartialEq, Eq, Structural)]
pub enum Acceptor {
    Ref(u64),
    WeakRef(u64),
    /// An acceptor of this process.
    Object(u64),
    WeakObject(u64),
}

impl Acceptor {
    /// Whether two acceptors are known to be the same. Those of this process never are.
    pub open spec fn same(self, other: Acceptor) -> bool {
        match (self, other) {
            (Acceptor::Ref(a), Acceptor::Ref(b)) => a == b,
            (Acceptor::WeakRef(a), Acceptor::WeakRef(b)) => a == b,
            _ => false,
        }
    }

    /// Whether two acceptors are known to be the same.
    pub fn is_same(&self, other: &Acceptor) -> (r: bool)
        ensures
            r == self.same(*other),
    {
        match (*self, *other) {
            (Acceptor::Ref(a), Acceptor::Ref(b)) => a == b,
            (Acceptor::WeakRef(a), Acceptor::WeakRef(b)) => a == b,
            _ => false,
        }
    }
}

/// The acceptors that are left once one is gone, in the same order.
pub open spec fn without_acceptor<F>(
    acceptors: Seq<(F, Acceptor)>,
    gone: Acceptor,
) -> Seq<(F, Acceptor)> {
    acceptors.filter(|entry: (F, Acceptor)| !entry.1.same(gone))
}

impl PanelItemProvider {
    /// Adds an acceptor and the field in which it takes panel items.
    pub fn register_acceptor<F>(
        acceptors: &mut Vec<(F, Acceptor)>,
        field: F,
        acceptor: Acceptor,
    )
        ensures
            final(acceptors)@ == old(acceptors)@.push((field, acceptor)),
    {
        acceptors.push((field, acceptor));
    }

    /// Forgets an acceptor, however often it was added.
    pub fn drop_acceptor<F: Copy>(acceptors: &mut Vec<(F, Acceptor)>, acceptor: Acceptor)
        ensures
            final(acceptors)@ == without_acceptor(old(acceptors)@, acceptor),
    {
        let ghost all = acceptors@;
        let ghost stays = |entry: (F, Acceptor)| !entry.1.same(acceptor);
        let mut kept: Vec<(F, Acceptor)> = Vec::new();
        let mut i: usize = 0;
        assert(all.take(0) =~= Seq::empty());
        proof {
            reveal(Seq::filter);
        }
        while i < acceptors.len()
            invariant
                i <= acceptors.len(),
                acceptors@ == all,
                stays == (|entry: (F, Acceptor)| !entry.1.same(acceptor)),
                kept@ == all.take(i as int).filter(stays),
            decreases acceptors.len() - i,
        {
            let (field, candidate): (F, Acceptor) = acceptors[i];
            if !candidate.is_same(&acceptor) {
                kept.push((field, candidate));
            }
            i += 1;
            proof {
                reveal(Seq::filter);
                assert(all.take(i as int).drop_last() =~= all.take(i - 1));
                assert(all.take(i as int).last() == all[i - 1]);
            }
        }
        assert(all.take(all.len() as int) =~= all);
        *acceptors = kept;
    }
}

/// An acceptor of another process that was dropped is not among those that are left, and
/// every other one is there as before.
pub proof fn dropped_acceptors_are_gone<F>(
    acceptors: Seq<(F, Acceptor)>,
    gone: Acceptor,
    entry: (F, Acceptor),
)
    ensures
        without_acceptor(acceptors, gone).contains(entry) <==> acceptors.contains(entry)
            && !entry.1.same(gone),
{
    let stays = |e: (F, Acceptor)| !e.1.same(gone);
    let kept = acceptors.filter(stays);
    if kept.contains(entry) {
        let k = choose|k: int| 0 <= k < kept.len() && kept[k] == entry;
        acceptors.lemma_filter_pred(stays, k);
        acceptors.lemma_filter_contains_rev(stays, entry);
    }
    if acceptors.contains(entry) && stays(entry) {
        let i = choose|i: int| 0 <= i < acceptors.len() && acceptors[i] == entry;
        acceptors.lemma_filter_contains(stays, i);
    }
}

} // verus!
