//! Error taxonomy of the runtime.
//!
//! Uniqueness violations and missing desired state come from the repository;
//! configuration errors come from control-plane calls. "No eligible record"
//! and "not found" are expected outcomes and are represented as absent
//! values, never as errors.

use vstd::prelude::*;

verus! {

/// A repository operation failed.
#[derive(Clone, Copy, Debug, PartialEq, Eq, Structural)]
pub enum RepoError {
    /// An insert hit the uniqueness constraint on its key.
    UniquenessViolation,
    /// The singleton pipeline definition was already created.
    AlreadyInitialized,
}

/// A control-plane call failed.
#[derive(Clone, Copy, Debug, PartialEq, Eq, Structural)]
pub enum ControlError {
    /// The role/type code in a `start` request names no known node type.
    InvalidNodeType,
}

/// The state sync engine could not observe the declared desired state;
/// serving stale configuration is not allowed, so this is fatal.
#[derive(Clone, Copy, Debug, PartialEq, Eq, Structural)]
pub enum SyncError {
    /// No node definition with this node's name exists in the repository.
    NodeNotDeclared,
    /// The declared configuration itself is invalid.
    Config(ControlError),
}

impl RepoError {
    /// A human-readable description, for operator logs.
    pub fn describe(&self) -> (r: String)
        ensures
            self is UniquenessViolation ==> r@ == "uniqueness violation"@,
            self is AlreadyInitialized ==> r@ == "already initialized"@,
    {
        match self {
            RepoError::UniquenessViolation => "uniqueness violation".to_string(),
            RepoError::AlreadyInitialized => "already initialized".to_string(),
        }
    }
}

} // verus!
