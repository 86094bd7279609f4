//! Which log entries a node has applied.
use std::collections::BTreeSet;
use vstd::prelude::*;

verus! {

broadcast use {
    vstd::std_specs::btree::group_btree_axioms,
    vstd::laws_cmp::group_laws_cmp,
    vstd::laws_eq::group_laws_eq,
};

/// The log entries that a node has applied to its local indexes.
///
/// Entries below `contiguous` are all applied. `out_of_band` holds entries
/// applied ahead of that frontier: a node's own appends land locally while
/// earlier entries of other nodes are still to come.
#[derive(Debug, Clone)]
pub struct SeqTracker {
    pub contiguous: u64,
    pub out_of_band: BTreeSet<u64>,
}

impl Default for SeqTracker {
    fn default() -> (r: SeqTracker)
        ensures
            r.contiguous == 0,
            r.out_of_band@ == Set::<u64>::empty(),
            r.wf(),
    {
        SeqTracker { contiguous: 0, out_of_band: BTreeSet::new() }
    }
}

impl SeqTracker {
    /// The entries applied ahead of the frontier are above it.
    pub open spec fn wf(&self) -> bool {
        &&& self.out_of_band@.finite()
        &&& forall|s: u64| self.out_of_band@.contains(s) ==> self.contiguous < s
    }

    /// The entry is applied.
    pub open spec fn applied(&self, seq: u64) -> bool {
        seq < self.contiguous || self.out_of_band@.contains(seq)
    }

    /// A tracker with every entry below `contiguous` applied.
    pub fn starting_at(contiguous: u64) -> (r: SeqTracker)
        ensures
            r.contiguous == contiguous,
            r.out_of_band@ == Set::<u64>::empty(),
            r.wf(),
            forall|s: u64| #[trigger] r.applied(s) <==> s < contiguous,
    {
        SeqTracker { contiguous, out_of_band: BTreeSet::new() }
    }

    /// Whether an entry is applied.
    pub fn covers(&self, seq: u64) -> (r: bool)
        ensures
            r == self.applied(seq),
    {
        seq < self.contiguous || self.out_of_band.contains(&seq)
    }

    /// Records an applied entry and moves the frontier over every entry that is
    /// now applied without a gap. Some entry must be left unapplied, else the
    /// frontier would have nowhere to stand.
    pub fn mark(&mut self, seq: u64)
        requires
            old(self).wf(),
            exists|s: u64| s != seq && !#[trigger] old(self).applied(s),
        ensures
            final(self).wf(),
            forall|s: u64| #[trigger]
                final(self).applied(s) <==> old(self).applied(s) || s == seq,
            old(self).contiguous <= final(self).contiguous,
            !final(self).applied(final(self).contiguous),
    {
        if seq < self.contiguous {
            return;
        }
        let ghost start = *self;
        let ghost gap = choose|s: u64| s != seq && !#[trigger] old(self).applied(s);
        self.out_of_band.insert(seq);
        while self.out_of_band.contains(&self.contiguous)
            invariant
                self.out_of_band@.finite(),
                start.contiguous <= self.contiguous,
                !self.applied(gap),
                forall|s: u64| self.out_of_band@.contains(s) ==> self.contiguous <= s,
                forall|s: u64| #[trigger] self.applied(s) <==> start.applied(s) || s == seq,
            decreases self.out_of_band@.len(),
        {
            let ghost before = *self;
            let at: u64 = self.contiguous;
            self.out_of_band.remove(&at);
            self.contiguous = at + 1;
            proof {
                assert forall|s: u64| #[trigger] self.applied(s) <==> start.applied(s) || s == seq by {
                    assert(self.applied(s) == before.applied(s));
                }
            }
        }
    }
}

// ── Laws ────────────────────────────────────────────────────────────────

/// Two trackers that cover the same entries have the same frontier, so the
/// order in which entries were marked does not matter.
pub proof fn law_frontier_is_lowest_gap(a: SeqTracker, b: SeqTracker)
    requires
        a.wf(),
        b.wf(),
        forall|s: u64| #[trigger] a.applied(s) == b.applied(s),
    ensures
        a.contiguous == b.contiguous,
{
    if a.contiguous < b.contiguous {
        assert(b.applied(a.contiguous));
        assert(!a.applied(a.contiguous));
    } else if b.contiguous < a.contiguous {
        assert(a.applied(b.contiguous));
        assert(!b.applied(b.contiguous));
    }
}

} // verus!
