//! Test-environment orchestration for a private blockchain node: readiness
//! gating, block-production control, transaction-commitment waiting, script
//! identity resolution, and balanced transaction assembly with pluggable
//! unlocking strategies.
//!
//! All remote calls (process launch, RPC queries, sleeps) are performed by a
//! thin unverified shell around this crate; the decisions taken on every
//! observed response live here, as explicit state machines with contracts.

pub mod assemble;
pub mod commit;
pub mod driver;
pub mod errors;
pub mod gate;
pub mod hash;
pub mod resolver;
pub mod unlock;
