//! Readiness: decides, from each observed indexer-tip response, whether
//! the remote indexing service has caught up to a target height.
//!
//! The unverified shell performs the actual remote query and the fixed-interval
//! sleep; it feeds every response into [`ReadinessGate::observe`] and keeps
//! polling while the state stays [`GateState::Polling`].

use vstd::prelude::*;
use crate::errors::HarnessError;

verus! {

/// What one indexer-tip query reported.
#[derive(Clone, Copy, Debug, PartialEq, Eq, Structural)]
pub enum IndexerObservation {
    /// The indexer has not reported any tip yet (transient; keep polling).
    NoTip,
    /// The indexer reports this tip height.
    Tip(u64),
    /// The query failed with a hard error.
    Failure,
}

/// The explicit polling states: one terminal exit per branch.
#[derive(Clone, Copy, Debug, PartialEq, Eq, Structural)]
pub enum GateState {
    /// Still waiting for the indexer to catch up.
    Polling,
    /// The indexer reached the expected height; holds the observed height.
    Ready(u64),
    /// The remote endpoint reported a hard failure.
    Failed,
}

/// Blocks (by way of the polling shell) until the indexer has caught up to
/// `expected_height`.
pub struct ReadinessGate {
    pub expected_height: u64,
    pub state: GateState,
}

impl ReadinessGate {
    /// Readiness is only ever reported on an observed height that reached
    /// the expected one.
    pub open spec fn wf(&self) -> bool {
        self.state matches GateState::Ready(h) ==> h >= self.expected_height
    }

    /// The transition taken on one observation.
    pub open spec fn spec_step(&self, obs: IndexerObservation) -> GateState {
        match obs {
            IndexerObservation::NoTip => GateState::Polling,
            IndexerObservation::Failure => GateState::Failed,
            IndexerObservation::Tip(h) => if h >= self.expected_height {
                GateState::Ready(h)
            } else {
                GateState::Polling
            },
        }
    }

    pub fn new(expected_height: u64) -> (g: ReadinessGate)
        ensures
            g.wf(),
            g.expected_height == expected_height,
            g.state == GateState::Polling,
    {
        ReadinessGate { expected_height, state: GateState::Polling }
    }

    /// Feed in one observed indexer-tip response.
    pub fn observe(&mut self, obs: IndexerObservation)
        requires
            old(self).wf(),
            old(self).state == GateState::Polling,
        ensures
            final(self).wf(),
            final(self).expected_height == old(self).expected_height,
            final(self).state == old(self).spec_step(obs),
    {
        match obs {
            IndexerObservation::NoTip => {},
            IndexerObservation::Failure => {
                self.state = GateState::Failed;
            },
            IndexerObservation::Tip(h) => {
                if h >= self.expected_height {
                    self.state = GateState::Ready(h);
                }
            },
        }
    }

    /// The resolution: `None` while polling continues, otherwise the
    /// terminal outcome (`Ok` with the observed height, or the hard error).
    pub fn resolution(&self) -> (r: Option<Result<u64, HarnessError>>)
        ensures
            r is None <==> self.state == GateState::Polling,
            r == Some(Result::<u64, HarnessError>::Err(HarnessError::IndexerError))
                <==> self.state == GateState::Failed,
            forall|h: u64|
                (r == Some(Result::<u64, HarnessError>::Ok(h))
                    <==> self.state == GateState::Ready(h)),
    {
        match self.state {
            GateState::Polling => None,
            GateState::Ready(h) => Some(Ok(h)),
            GateState::Failed => Some(Err(HarnessError::IndexerError)),
        }
    }
}

/// Only reached heights are admitted: whenever a step from the polling
/// state ends in the ready state, the observation was a tip at or above the
/// expected height. The wait never succeeds on a smaller observed height.
pub proof fn lemma_ready_only_at_expected_height(g: ReadinessGate, obs: IndexerObservation, h: u64)
    requires
        g.spec_step(obs) == GateState::Ready(h),
    ensures
        obs == IndexerObservation::Tip(h),
        h >= g.expected_height,
{
}

} // verus!
