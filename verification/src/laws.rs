use crate::election::ElectionModel;
use crate::instructions::{ApplyModel, ChangeStateModel, Register, VoteModel};
use crate::ranking::{
    descending, lemma_record_keeps_others, lemma_record_keeps_wf, lemma_record_lists_candidate,
};
use crate::records::CandidateData;
use crate::stage::{ElectionError, ElectionStage};
use vstd::prelude::*;

verus! {

/// After a vote has been recorded there are as many vote counts as winners and no more
/// winners than slots, the vote counts are in descending order, and no candidate is
/// listed twice.
pub proof fn lemma_recorded_vote_keeps_ranking(election: ElectionModel, id: u64, votes: u64)
    requires
        election.wf(),
        election.winners.admits(id, votes),
    ensures
        election.record_vote(id, votes).winners.ids.len() == election.record_vote(
            id,
            votes,
        ).winners.votes.len(),
        election.record_vote(id, votes).winners.ids.len() <= election.capacity,
        descending(election.record_vote(id, votes).winners.votes),
        election.record_vote(id, votes).winners.ids.no_duplicates(),
{
    lemma_record_keeps_wf(election.winners, election.capacity, id, votes);
}

/// A vote that is counted leaves the election well formed, whatever candidate it is for.
pub proof fn lemma_vote_keeps_election(ctx: VoteModel)
    requires
        ctx.election_data.wf(),
        ctx.countable(),
    ensures
        ctx.vote() matches Ok(after) ==> after.election_data.wf(),
{
    lemma_record_keeps_wf(
        ctx.election_data.winners,
        ctx.election_data.capacity,
        ctx.candidate_data.id,
        ctx.counted() as u64,
    );
}

/// A ranking that lists candidates with the votes their records hold goes on doing so:
/// after a counted vote it lists the candidate voted for, if at all, with the new count,
/// and any other candidate, if at all, with the votes it had. So a vote for a candidate
/// whose record the ranking agrees with can always be counted, short of the limit of the
/// count itself.
pub proof fn lemma_vote_keeps_agreement(ctx: VoteModel, other: CandidateData)
    requires
        ctx.election_data.wf(),
        ctx.vote() is Ok,
        ctx.counted() <= u64::MAX,
        ctx.election_data.winners.agrees(ctx.candidate_data.id, ctx.candidate_data.votes),
    ensures
        ctx.countable(),
        ctx.vote() matches Ok(after) && after.election_data.winners.agrees(
            after.candidate_data.id,
            after.candidate_data.votes,
        ) && (other.id != ctx.candidate_data.id && ctx.election_data.winners.agrees(
            other.id,
            other.votes,
        ) ==> after.election_data.winners.agrees(other.id, other.votes)),
{
    let before = ctx.election_data.winners;
    let capacity = ctx.election_data.capacity;
    let id = ctx.candidate_data.id;
    let votes = ctx.counted() as u64;
    let after = before.record(capacity, id, votes);
    assert(before.admits(id, votes));
    lemma_record_keeps_wf(before, capacity, id, votes);
    lemma_record_lists_candidate(before, capacity, id, votes);
    assert(after.agrees(id, votes)) by {
        if before.takes(capacity, id, votes) {
            let at = choose|i: int|
                0 <= i < after.ids.len() && after.ids[i] == id && after.votes[i] == votes;
            assert forall|i: int| 0 <= i < after.ids.len() && after.ids[i] == id implies after.votes[i]
                == votes by {
                assert(i == at);
            }
        }
    }
    if other.id != id && before.agrees(other.id, other.votes) {
        assert forall|i: int| 0 <= i < after.ids.len() && after.ids[i] == other.id implies after.votes[i]
            == other.votes by {
            lemma_record_keeps_others(before, capacity, id, votes, other.id, after.votes[i]);
            assert(after.lists(other.id, after.votes[i]));
            let then = choose|k: int|
                0 <= k < before.ids.len() && before.ids[k] == other.id && before.votes[k]
                    == after.votes[i];
            assert(before.votes[then] == other.votes);
        }
    }
}

/// Once an application has succeeded the applicant has a record, and every later
/// application that finds this record is refused as a duplicate, whatever has become of
/// the election in the meantime.
pub proof fn lemma_application_counts_once(first: ApplyModel, later: ApplyModel)
    requires
        first.apply() is Ok,
    ensures
        first.apply() matches Ok(after) && after.candidate_identity is Some && (
        later.candidate_identity == after.candidate_identity ==> later.apply() == Err::<
            ApplyModel,
            ElectionError,
        >(ElectionError::DuplicateApplication)),
{
}

/// Once a vote has been counted the candidate has exactly one vote more and the voter
/// has a receipt, and every later vote that finds this receipt is refused, whatever has
/// become of the election and of the candidate in the meantime.
pub proof fn lemma_vote_counts_once(first: VoteModel, later: VoteModel)
    requires
        first.vote() is Ok,
        first.countable(),
    ensures
        first.vote() matches Ok(after) && after.my_vote is Some && after.candidate_data.votes
            == first.candidate_data.votes + 1 && (later.my_vote == after.my_vote ==> later.vote()
            == Err::<VoteModel, ElectionError>(ElectionError::AlreadyVoted)),
{
}

/// An actor who is not the initiator cannot change the stage, whatever stage the
/// election is in and whatever stage is asked for.
pub proof fn lemma_only_initiator_changes_stage(ctx: ChangeStateModel, new_stage: ElectionStage)
    requires
        ctx.signer != ctx.election_data.initiator,
    ensures
        ctx.change_stage(new_stage) == Err::<ChangeStateModel, ElectionError>(
            ElectionError::PrivilegeDenied,
        ),
{
}

/// A change of stage that succeeds moves the election forward: from applications to
/// voting or straight to the close, or from voting to the close.
pub proof fn lemma_stage_moves_forward(ctx: ChangeStateModel, new_stage: ElectionStage)
    ensures
        ctx.change_stage(new_stage) matches Ok(after) ==> {
            ||| ctx.election_data.stage is Application && after.election_data.stage is Voting
            ||| ctx.election_data.stage is Application && after.election_data.stage is Closed
            ||| ctx.election_data.stage is Voting && after.election_data.stage is Closed
        },
{
}

/// A closed election stays as it is: it takes no application, no vote and no change of
/// stage.
pub proof fn lemma_closed_is_final(
    application: ApplyModel,
    ballot: VoteModel,
    change: ChangeStateModel,
    new_stage: ElectionStage,
)
    requires
        application.election_data.stage is Closed,
        ballot.election_data.stage is Closed,
        change.election_data.stage is Closed,
    ensures
        application.apply() is Err,
        ballot.vote() is Err,
        change.change_stage(new_stage) is Err,
{
}

/// A candidate's record is made for the owner of the application and for nobody else,
/// and it starts without a vote.
pub proof fn lemma_registration_is_for_owner(ctx: Register)
    ensures
        ctx.register() is Ok <==> ctx.signer == ctx.candidate_identity.pubkey,
        ctx.register() matches Ok(record) ==> record.votes == 0 && record.id
            == ctx.candidate_identity.id && record.pubkey == ctx.candidate_identity.pubkey,
{
}

} // verus!
