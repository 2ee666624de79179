//! The ways in which an operation of the voting contract can be refused.

use vstd::prelude::*;

verus! {

/// Why an operation was refused. A refused operation leaves the state as it was.
#[derive(Clone, Copy, Debug, PartialEq, Eq, Structural)]
pub enum VotingError {
    /// The proposal id names no proposal.
    NotFound,
    /// A proposal was to be created without options or with an empty window.
    InvalidProposal,
    /// A confirmation came from another asset ledger than the proposal's own.
    Unauthorized,
    /// A confirmation's message could not be read.
    MalformedCorrelation,
    /// A confirmation arrived after the voting window.
    VotingClosed,
    /// A confirmation arrived before the voting window.
    VotingNotYetOpen,
    /// A confirmation names an option that the proposal did not declare.
    UnknownOption,
    /// A tally or a withdrawal was asked for before the window had closed.
    VotingStillActive,
    /// The caller has no stake on the proposal.
    NoStake,
    /// A stake total, or the count of proposals, would exceed what its
    /// counter can hold.
    ArithmeticOverflow,
}

} // verus!
