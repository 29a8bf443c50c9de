use crate::election::{settled, ElectionData, ElectionModel};
use crate::identity::Identity;
use crate::ranking::admits;
use crate::records::{CandidateData, CandidateIdentity, MyVote};
use crate::stage::{ElectionError, ElectionStage};
use vstd::prelude::*;

verus! {

/// What opening an election works on: the actor who opens it.
#[derive(Clone, Copy, Debug, PartialEq, Eq)]
pub struct CreateElection {
    pub signer: Identity,
}

/// What an application works on: the applicant, the election, and the place where the
/// applicant's record is kept, empty as long as the applicant has not applied.
#[derive(Clone, Debug, PartialEq, Eq)]
pub struct Apply {
    pub candidate_identity: Option<CandidateIdentity>,
    pub election_data: ElectionData,
    pub signer: Identity,
}

/// What a registration works on: the record of the application and the actor who registers.
#[derive(Clone, Copy, Debug, PartialEq, Eq)]
pub struct Register {
    pub candidate_identity: CandidateIdentity,
    pub signer: Identity,
}

/// What a change of stage works on: the election and the actor who asks for the change.
#[derive(Clone, Debug, PartialEq, Eq)]
pub struct ChangeState {
    pub election_data: ElectionData,
    pub signer: Identity,
}

/// What a vote works on: the voter, the election, the record of the candidate voted for,
/// and the place where the voter's receipt is kept, empty as long as the voter has not voted.
#[derive(Clone, Debug, PartialEq, Eq)]
pub struct Vote {
    pub my_vote: Option<MyVote>,
    pub candidate_data: CandidateData,
    pub signer: Identity,
    pub election_data: ElectionData,
}

/// An application as a mathematical value.
#[verifier::ext_equal]
pub struct ApplyModel {
    pub candidate_identity: Option<CandidateIdentity>,
    pub election_data: ElectionModel,
    pub signer: Identity,
}

/// A change of stage as a mathematical value.
#[verifier::ext_equal]
pub struct ChangeStateModel {
    pub election_data: ElectionModel,
    pub signer: Identity,
}

/// A vote as a mathematical value.
#[verifier::ext_equal]
pub struct VoteModel {
    pub my_vote: Option<MyVote>,
    pub candidate_data: CandidateData,
    pub signer: Identity,
    pub election_data: ElectionModel,
}

impl View for Apply {
    type V = ApplyModel;

    open spec fn view(&self) -> ApplyModel {
        ApplyModel {
            candidate_identity: self.candidate_identity,
            election_data: self.election_data@,
            signer: self.signer,
        }
    }
}

impl View for ChangeState {
    type V = ChangeStateModel;

    open spec fn view(&self) -> ChangeStateModel {
        ChangeStateModel { election_data: self.election_data@, signer: self.signer }
    }
}

impl View for Vote {
    type V = VoteModel;

    open spec fn view(&self) -> VoteModel {
        VoteModel {
            my_vote: self.my_vote,
            candidate_data: self.candidate_data,
            signer: self.signer,
            election_data: self.election_data@,
        }
    }
}

impl ApplyModel {
    /// An applicant who has a record is turned away, and so is one who comes when
    /// applications are not open. Otherwise the applicant becomes the next candidate: the
    /// count of candidates goes up by one and is the id written into the new record.
    pub open spec fn apply(self) -> Result<ApplyModel, ElectionError> {
        if self.candidate_identity is Some {
            Err(ElectionError::DuplicateApplication)
        } else if !(self.election_data.stage is Application) {
            Err(ElectionError::ApplicationClosed)
        } else {
            let id = self.election_data.candidates + 1;
            Ok(
                ApplyModel {
                    candidate_identity: Some(
                        CandidateIdentity { id: id as u64, pubkey: self.signer },
                    ),
                    election_data: ElectionModel { candidates: id, ..self.election_data },
                    ..self
                },
            )
        }
    }
}

impl Register {
    /// Only the owner of an application registers it. The candidate's record starts with
    /// no vote and takes its id from the application.
    pub open spec fn register(self) -> Result<CandidateData, ElectionError> {
        if self.signer != self.candidate_identity.pubkey {
            Err(ElectionError::WrongIdentity)
        } else {
            Ok(CandidateData { votes: 0, id: self.candidate_identity.id, pubkey: self.signer })
        }
    }
}

impl ChangeStateModel {
    /// Only the initiator changes the stage, a closed election stays closed, and no
    /// election goes back to applications. A request for `Voting` ends the application
    /// stage, a request for `Closed` ends the voting stage.
    pub open spec fn change_stage(self, new_stage: ElectionStage) -> Result<
        ChangeStateModel,
        ElectionError,
    > {
        if self.signer != self.election_data.initiator {
            Err(ElectionError::PrivilegeDenied)
        } else if self.election_data.stage is Closed {
            Err(ElectionError::ElectionClosed)
        } else {
            let outcome = match new_stage {
                ElectionStage::Application => Err(ElectionError::PrivilegeDenied),
                ElectionStage::Voting => self.election_data.close_application(),
                ElectionStage::Closed => self.election_data.close_voting(),
            };
            match outcome {
                Ok(election_data) => Ok(ChangeStateModel { election_data, ..self }),
                Err(error) => Err(error),
            }
        }
    }
}

impl VoteModel {
    /// The candidate's count of votes once this vote is added.
    pub open spec fn counted(self) -> nat {
        (self.candidate_data.votes + 1) as nat
    }

    /// A voter who has a receipt is turned away, and so is one who comes when voting is
    /// not open. Otherwise the candidate gains one vote, the voter gets a receipt for that
    /// candidate, and the election takes note of the candidate's new count.
    pub open spec fn vote(self) -> Result<VoteModel, ElectionError> {
        if self.my_vote is Some {
            Err(ElectionError::AlreadyVoted)
        } else if !(self.election_data.stage is Voting) {
            Err(ElectionError::NotVotingStage)
        } else {
            let votes = self.counted() as u64;
            Ok(
                VoteModel {
                    my_vote: Some(MyVote { id: self.candidate_data.id }),
                    candidate_data: CandidateData { votes, ..self.candidate_data },
                    election_data: self.election_data.record_vote(self.candidate_data.id, votes),
                    ..self
                },
            )
        }
    }

    /// The vote can be counted: the candidate's count has room for one more, and the
    /// election does not list the candidate with more votes than the new count.
    pub open spec fn countable(self) -> bool {
        &&& self.counted() <= u64::MAX
        &&& self.election_data.winners.admits(self.candidate_data.id, self.counted() as u64)
    }
}

impl Vote {
    /// Whether the vote can be counted.
    pub fn is_countable(&self) -> (r: bool)
        requires
            self.election_data.wf(),
        ensures
            r == self@.countable(),
    {
        self.candidate_data.votes < u64::MAX && admits(
            &self.election_data.winners_ids,
            &self.election_data.winners_votes,
            self.candidate_data.id,
            self.candidate_data.votes + 1,
        )
    }
}

/// Opens an election for `winners` winners, with `ctx.signer` as its initiator.
pub fn create_election(ctx: &CreateElection, winners: u8) -> (r: Result<
    ElectionData,
    ElectionError,
>)
    ensures
        match r {
            Ok(election) => winners > 0 && election.wf() && election@ == ElectionModel::opened(
                ctx.signer,
                winners as nat,
            ),
            Err(error) => winners == 0 && error == ElectionError::InvalidConfiguration,
        },
{
    if winners == 0 {
        return Err(ElectionError::InvalidConfiguration);
    }
    Ok(
        ElectionData {
            candidates: 0,
            stage: ElectionStage::Application,
            initiator: ctx.signer,
            winners_num: winners,
            winners_ids: Vec::new(),
            winners_votes: Vec::new(),
        },
    )
}

/// Takes the application of `ctx.signer`: the applicant becomes the next candidate and
/// `ctx.candidate_identity` holds the new record. An applicant whose record is there
/// already, or who comes when applications are not open, is turned away.
///
/// The count of candidates must have room for one more.
pub fn apply(ctx: &mut Apply) -> (r: Result<(), ElectionError>)
    requires
        old(ctx).election_data.wf(),
        old(ctx)@.apply() is Ok ==> old(ctx).election_data.candidates < u64::MAX,
    ensures
        final(ctx).election_data.wf(),
        settled(old(ctx)@.apply(), old(ctx)@, final(ctx)@, r),
{
    if ctx.candidate_identity.is_some() {
        return Err(ElectionError::DuplicateApplication);
    }
    if ctx.election_data.stage != ElectionStage::Application {
        return Err(ElectionError::ApplicationClosed);
    }
    ctx.election_data.candidates += 1;
    ctx.candidate_identity = Some(
        CandidateIdentity { id: ctx.election_data.candidates, pubkey: ctx.signer },
    );
    Ok(())
}

/// Registers the candidate whose application `ctx.candidate_identity` records, and gives
/// back the candidate's new record. Only the owner of the application registers it.
pub fn register(ctx: &Register) -> (r: Result<CandidateData, ElectionError>)
    ensures
        r == ctx.register(),
{
    if ctx.signer != ctx.candidate_identity.pubkey {
        return Err(ElectionError::WrongIdentity);
    }
    Ok(CandidateData { votes: 0, id: ctx.candidate_identity.id, pubkey: ctx.signer })
}

/// Moves the election on to `new_stage` at the request of `ctx.signer`, who must be the
/// initiator.
pub fn change_stage(ctx: &mut ChangeState, new_stage: ElectionStage) -> (r: Result<
    (),
    ElectionError,
>)
    requires
        old(ctx).election_data.wf(),
    ensures
        final(ctx).election_data.wf(),
        settled(old(ctx)@.change_stage(new_stage), old(ctx)@, final(ctx)@, r),
        old(ctx).signer != old(ctx).election_data.initiator ==> r == Err::<(), ElectionError>(
            ElectionError::PrivilegeDenied,
        ),
{
    if ctx.signer != ctx.election_data.initiator {
        return Err(ElectionError::PrivilegeDenied);
    }
    if ctx.election_data.stage == ElectionStage::Closed {
        return Err(ElectionError::ElectionClosed);
    }
    match new_stage {
        ElectionStage::Voting => ctx.election_data.close_application(),
        ElectionStage::Closed => ctx.election_data.close_voting(),
        ElectionStage::Application => Err(ElectionError::PrivilegeDenied),
    }
}

/// Casts the vote of `ctx.signer` for the candidate of `ctx.candidate_data`: the candidate
/// gains one vote, `ctx.my_vote` holds the voter's receipt, and the list of winners is
/// brought up to date. A voter whose receipt is there already, or who comes when voting
/// is not open, is turned away.
///
/// The candidate's record must be the one that goes with the election: its count has
/// room for one more vote, and the election does not list the candidate with more votes
/// than the record holds after this one.
pub fn vote(ctx: &mut Vote) -> (r: Result<(), ElectionError>)
    requires
        old(ctx).election_data.wf(),
        old(ctx)@.vote() is Ok ==> old(ctx)@.countable(),
    ensures
        final(ctx).election_data.wf(),
        settled(old(ctx)@.vote(), old(ctx)@, final(ctx)@, r),
{
    if ctx.my_vote.is_some() {
        return Err(ElectionError::AlreadyVoted);
    }
    if ctx.election_data.stage != ElectionStage::Voting {
        return Err(ElectionError::NotVotingStage);
    }
    ctx.candidate_data.votes += 1;
    ctx.my_vote = Some(MyVote { id: ctx.candidate_data.id });
    ctx.election_data.record_vote(ctx.candidate_data.id, ctx.candidate_data.votes);
    Ok(())
}

} // verus!
