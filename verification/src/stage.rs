use vstd::prelude::*;

verus! {

/// The stage of an election. Stages only move forward:
/// `Application`, then `Voting`, then `Closed`, or from `Application` straight to `Closed`.
#[derive(Clone, Copy, Debug, PartialEq, Eq, Structural)]
pub enum ElectionStage {
    Application,
    Voting,
    Closed,
}

/// Why an operation was rejected. A rejected operation changes nothing.
#[derive(Clone, Copy, Debug, PartialEq, Eq, Structural)]
pub enum ElectionError {
    /// An election was asked for with no winner slot.
    InvalidConfiguration,
    /// An application came when applications were no longer open.
    ApplicationClosed,
    /// The applicant has applied before.
    DuplicateApplication,
    /// The actor who registers a candidate does not own the candidate's identity record.
    WrongIdentity,
    /// The actor is not the initiator, or asked to go back to an earlier stage.
    PrivilegeDenied,
    /// The election is closed.
    ElectionClosed,
    /// The requested stage cannot follow the current one.
    StageMismatch,
    /// A vote came when voting was not open.
    NotVotingStage,
    /// The voter has voted before.
    AlreadyVoted,
}

} // verus!
