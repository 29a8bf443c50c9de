//! An election in three stages, with a ranked list of the leading candidates
//! that is kept up to date vote by vote.

pub mod election;
pub mod identity;
pub mod instructions;
pub mod laws;
pub mod ranking;
pub mod records;
pub mod stage;

pub use election::{ElectionData, ElectionModel};
pub use identity::Identity;
pub use instructions::{
    apply, change_stage, create_election, register, vote, Apply, ChangeState, CreateElection,
    Register, Vote,
};
pub use records::{CandidateData, CandidateIdentity, MyVote};
pub use stage::{ElectionError, ElectionStage};
