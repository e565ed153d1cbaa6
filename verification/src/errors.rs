//! The error taxonomy of the harness.
//!
//! Every component reports failures through [`HarnessError`]; polling
//! components additionally distinguish "not yet ready", which is not an
//! error, from the hard failures listed here.

use vstd::prelude::*;

verus! {

/// One error kind per distinct failure mode of the harness.
#[derive(Clone, Copy, Debug, PartialEq, Eq, Structural)]
pub enum HarnessError {
    /// The node process could not be spawned.
    LaunchError,
    /// The remote indexing endpoint reported a hard failure.
    IndexerError,
    /// Any other remote call failed (connection drop, malformed response).
    RemoteCallError,
    /// No combination of available live cells covers the required capacity.
    InsufficientFunds,
    /// A script identity has no registered cell dependency.
    UnresolvedDependency,
    /// A witness could not be produced for some script group.
    UnlockError,
    /// A manifest position does not exist.
    IndexOutOfRange,
    /// A named configuration value needed to build argument bytes is absent.
    MissingArgument,
}

} // verus!
