//! Commitment waiter: composes block production with transaction-status
//! polling, and succeeds only when the target transaction is committed.
//!
//! Each round, the unverified shell advances the tip by `step` blocks (via
//! the block driver), queries the transaction's status, and feeds the result
//! into [`CommitmentWaiter::complete_round`]. "Not found" and every
//! non-committed status are normal, indefinitely-retried conditions; only a
//! hard query failure ends the wait with an error.

use vstd::prelude::*;
use crate::errors::HarnessError;
use crate::hash::Hash256;

verus! {

/// Transaction status as reported by the remote endpoint.
#[derive(Clone, Copy, Debug, PartialEq, Eq, Structural)]
pub enum TxStatus {
    Pending,
    Proposed,
    Committed,
    Unknown,
    Rejected,
}

/// What one transaction-status query reported.
#[derive(Clone, Copy, Debug, PartialEq, Eq, Structural)]
pub enum StatusObservation {
    /// The transaction is not known to the node yet.
    NotFound,
    /// The transaction exists with this status.
    Found(TxStatus),
    /// The query failed with a hard error.
    Failure,
}

/// The decision taken after one round.
#[derive(Clone, Copy, Debug, PartialEq, Eq, Structural)]
pub enum WaitDecision {
    /// Keep mining and polling.
    Continue,
    /// The transaction is committed; the wait succeeds.
    Done,
    /// A hard error; the wait fails.
    Fail,
}

/// The single decision rule of the waiter.
pub open spec fn spec_commitment_decision(obs: StatusObservation) -> WaitDecision {
    match obs {
        StatusObservation::Found(TxStatus::Committed) => WaitDecision::Done,
        StatusObservation::Failure => WaitDecision::Fail,
        _ => WaitDecision::Continue,
    }
}

/// Decide from one status observation whether the wait is over.
pub fn commitment_decision(obs: &StatusObservation) -> (d: WaitDecision)
    ensures
        d == spec_commitment_decision(*obs),
        (d == WaitDecision::Done) <==> (*obs == StatusObservation::Found(TxStatus::Committed)),
        (d == WaitDecision::Fail) <==> (*obs == StatusObservation::Failure),
{
    match obs {
        StatusObservation::Found(TxStatus::Committed) => WaitDecision::Done,
        StatusObservation::Failure => WaitDecision::Fail,
        _ => WaitDecision::Continue,
    }
}

/// The waiter's explicit states.
#[derive(Clone, Copy, Debug, PartialEq, Eq, Structural)]
pub enum WaitState {
    Waiting,
    Committed,
    Failed,
}

/// The record a funding step hands to the commitment waiter: the submitted
/// transaction's hash and the amount meant to be committed. Immutable once
/// produced.
#[derive(Clone, Copy, Debug)]
pub struct FundingReceipt {
    pub tx_hash: Hash256,
    pub amount: u64,
}

/// One `await_commitment(tx_hash, step)` call in progress.
pub struct CommitmentWaiter {
    /// The transaction whose commitment is awaited.
    pub tx_hash: Hash256,
    /// Blocks mined per round.
    pub step: u64,
    /// Completed rounds.
    pub rounds: u64,
    /// Total blocks mined so far; always `rounds * step`.
    pub blocks_advanced: u64,
    pub state: WaitState,
}

impl CommitmentWaiter {
    /// The tip only ever advances in whole rounds of `step` blocks.
    pub open spec fn wf(&self) -> bool {
        self.blocks_advanced == self.rounds * self.step
    }

    pub fn new(tx_hash: Hash256, step: u64) -> (w: CommitmentWaiter)
        ensures
            w.wf(),
            w.tx_hash@ == tx_hash@,
            w.step == step,
            w.rounds == 0,
            w.blocks_advanced == 0,
            w.state == WaitState::Waiting,
    {
        CommitmentWaiter {
            tx_hash,
            step,
            rounds: 0,
            blocks_advanced: 0,
            state: WaitState::Waiting,
        }
    }

    /// Start waiting for the transaction named by a funding receipt.
    pub fn for_receipt(receipt: &FundingReceipt, step: u64) -> (w: CommitmentWaiter)
        ensures
            w.wf(),
            w.tx_hash@ == receipt.tx_hash@,
            w.step == step,
            w.rounds == 0,
            w.blocks_advanced == 0,
            w.state == WaitState::Waiting,
    {
        CommitmentWaiter::new(receipt.tx_hash, step)
    }

    /// Record one completed round: `step` blocks were mined, then the
    /// transaction's status was observed.
    pub fn complete_round(&mut self, obs: &StatusObservation)
        requires
            old(self).wf(),
            old(self).state == WaitState::Waiting,
            old(self).blocks_advanced + old(self).step <= u64::MAX,
            old(self).rounds < u64::MAX,
        ensures
            final(self).wf(),
            final(self).tx_hash == old(self).tx_hash,
            final(self).step == old(self).step,
            final(self).rounds == old(self).rounds + 1,
            final(self).blocks_advanced == old(self).blocks_advanced + old(self).step,
            final(self).state == match spec_commitment_decision(*obs) {
                WaitDecision::Done => WaitState::Committed,
                WaitDecision::Fail => WaitState::Failed,
                WaitDecision::Continue => WaitState::Waiting,
            },
    {
        self.blocks_advanced = self.blocks_advanced + self.step;
        self.rounds = self.rounds + 1;
        let decision = commitment_decision(obs);
        match decision {
            WaitDecision::Done => {
                self.state = WaitState::Committed;
            },
            WaitDecision::Fail => {
                self.state = WaitState::Failed;
            },
            WaitDecision::Continue => {},
        }
        proof {
            let r = old(self).rounds;
            let s = old(self).step;
            assert((r + 1) * s == r * s + s) by (nonlinear_arith);
        }
    }

    /// Whether the wait has succeeded.
    pub fn is_committed(&self) -> (r: bool)
        ensures
            r == (self.state == WaitState::Committed),
    {
        matches!(self.state, WaitState::Committed)
    }
}

/// The wait never succeeds on any observation other than a committed
/// status: a round decides `Done` exactly when the transaction was observed
/// committed at that check.
pub proof fn lemma_success_only_when_committed(obs: StatusObservation)
    requires
        spec_commitment_decision(obs) == WaitDecision::Done,
    ensures
        obs == StatusObservation::Found(TxStatus::Committed),
{
}

/// The tip is only ever advanced by whole multiples of the configured step.
pub proof fn lemma_advance_is_whole_rounds(w: CommitmentWaiter)
    requires
        w.wf(),
    ensures
        w.blocks_advanced == w.rounds * w.step,
{
}

} // verus!
