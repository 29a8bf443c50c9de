use crate::identity::Identity;
use vstd::prelude::*;

verus! {

/// The record of an application: the applicant and the sequential id the applicant was
/// given. That the record exists is the mark that the applicant has applied.
#[derive(Clone, Copy, Debug, PartialEq, Eq)]
pub struct CandidateIdentity {
    pub id: u64,
    pub pubkey: Identity,
}

/// The record of a registered candidate: the votes received so far, the sequential id,
/// and the candidate's identity.
#[derive(Clone, Copy, Debug, PartialEq, Eq)]
pub struct CandidateData {
    pub votes: u64,
    pub id: u64,
    pub pubkey: Identity,
}

/// The receipt of a vote: the id of the candidate voted for. That the receipt exists is
/// the mark that the voter has voted.
#[derive(Clone, Copy, Debug, PartialEq, Eq)]
pub struct MyVote {
    pub id: u64,
}

} // verus!
