//! Block driver: advances the chain tip a requested number of times.
//!
//! An advance is counted only when a block-production call returns a tip hash
//! that differs from the snapshot taken just before the call; idempotent
//! no-op production is not counted. The unverified shell performs the
//! remote calls (snapshot the tip hash, request production) and feeds each
//! (snapshot, produced) pair into [`BlockDriver::record_production`].

use vstd::prelude::*;
use crate::hash::Hash256;

verus! {

/// How many of the recorded (snapshot, produced) pairs changed the tip hash.
pub open spec fn count_changes(history: Seq<(Seq<u8>, Seq<u8>)>) -> nat
    decreases history.len(),
{
    if history.len() == 0 {
        0
    } else {
        count_changes(history.drop_last())
            + if history.last().0 != history.last().1 { 1nat } else { 0nat }
    }
}

/// One `advance(count)` run in progress.
pub struct BlockDriver {
    /// The number of tip changes the run must observe in total.
    pub target: u64,
    /// The number of tip changes still to observe.
    pub remaining: u64,
    /// Every (snapshot hash, produced hash) pair recorded so far, oldest
    /// first.
    pub history: Ghost<Seq<(Seq<u8>, Seq<u8>)>>,
}

impl BlockDriver {
    /// The count of observed changes always accounts exactly for the
    /// progress made from `target` down to `remaining`.
    pub open spec fn wf(&self) -> bool {
        &&& self.remaining <= self.target
        &&& count_changes(self.history@) == self.target - self.remaining
    }

    pub open spec fn complete(&self) -> bool {
        self.remaining == 0
    }

    /// Start a run that must advance the tip `count` times.
    pub fn new(count: u64) -> (d: BlockDriver)
        ensures
            d.wf(),
            d.target == count,
            d.remaining == count,
            d.history@ == Seq::<(Seq<u8>, Seq<u8>)>::empty(),
    {
        BlockDriver { target: count, remaining: count, history: Ghost(Seq::empty()) }
    }

    /// Record one production round: the tip hash snapshot taken before the
    /// call and the hash the call reported. The round counts as an advance
    /// exactly when the two differ.
    pub fn record_production(&mut self, snapshot: &Hash256, produced: &Hash256)
        requires
            old(self).wf(),
            !old(self).complete(),
        ensures
            final(self).wf(),
            final(self).target == old(self).target,
            final(self).history@ == old(self).history@.push((snapshot@, produced@)),
            final(self).remaining == if produced@ != snapshot@ {
                (old(self).remaining - 1) as u64
            } else {
                old(self).remaining
            },
    {
        let changed = !produced.equals(snapshot);
        if changed {
            self.remaining = self.remaining - 1;
        }
        proof {
            let extended = self.history@.push((snapshot@, produced@));
            assert(extended.drop_last() =~= self.history@);
        }
        self.history = Ghost(self.history@.push((snapshot@, produced@)));
    }

    /// Whether the run has observed all requested tip changes.
    pub fn is_complete(&self) -> (r: bool)
        ensures
            r == self.complete(),
    {
        self.remaining == 0
    }
}

/// A completed run observed a changed tip hash exactly `target` times over
/// the recorded (snapshot, produced) pairs; rounds whose production call
/// returned the snapshot hash unchanged were not counted.
pub proof fn lemma_complete_run_counts_exact_changes(d: BlockDriver)
    requires
        d.wf(),
        d.complete(),
    ensures
        count_changes(d.history@) == d.target,
{
}

} // verus!
