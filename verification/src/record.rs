//! Data records: one unit of in-flight data, tracked by state in the
//! shared repository, together with the legal state transitions.

use vstd::prelude::*;

verus! {

/// Which way a record flows relative to the owning node: consumed by it
/// (`In`) or produced by it for downstream peers (`Out`).
#[derive(Clone, Copy, Debug, PartialEq, Eq, Structural)]
pub enum Direction {
    In,
    Out,
}

/// Lifecycle state of a data record.
///
/// In-direction records move `Received -> Assigned` (one claimant, one way).
/// Out-direction records move `{Received, PartialSent} -> PartialSent -> Sent`.
#[derive(Clone, Copy, Debug, PartialEq, Eq, Structural)]
pub enum DataState {
    Received,
    Assigned,
    PartialSent,
    Sent,
}

impl DataState {
    /// A record in one of these states has been claimed or finalized; the
    /// protocol never moves it back to `Received` or `PartialSent`.
    pub open spec fn is_settled(self) -> bool {
        self == DataState::Assigned || self == DataState::Sent
    }

    /// The name of the state as it is written into the repository.
    pub fn name(&self) -> (r: String)
        ensures
            r@ == state_name(*self),
    {
        match self {
            DataState::Received => "Received".to_string(),
            DataState::Assigned => "Assigned".to_string(),
            DataState::PartialSent => "PartialSent".to_string(),
            DataState::Sent => "Sent".to_string(),
        }
    }
}

/// The canonical string form of each state, as stored by the repository.
pub open spec fn state_name(s: DataState) -> Seq<char> {
    match s {
        DataState::Received => "Received"@,
        DataState::Assigned => "Assigned"@,
        DataState::PartialSent => "PartialSent"@,
        DataState::Sent => "Sent"@,
    }
}

} // verus!
