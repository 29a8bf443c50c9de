use crate::identity::Identity;
use crate::ranking::{
    descending, find_rank, is_ranking, lemma_rank_is_unique, lemma_record_keeps_wf, raise, Ranking,
};
use crate::stage::{ElectionError, ElectionStage};
use vstd::prelude::*;

verus! {

/// An election: how many candidates have applied, the stage, who started it, how many
/// winners it will have, and the winners so far, rank by rank.
#[derive(Clone, Debug, PartialEq, Eq)]
pub struct ElectionData {
    pub candidates: u64,
    pub stage: ElectionStage,
    pub initiator: Identity,
    pub winners_num: u8,
    pub winners_ids: Vec<u64>,
    pub winners_votes: Vec<u64>,
}

/// An election as a mathematical value.
#[verifier::ext_equal]
pub struct ElectionModel {
    pub candidates: nat,
    pub stage: ElectionStage,
    pub initiator: Identity,
    pub capacity: nat,
    pub winners: Ranking,
}

impl ElectionModel {
    /// An election that `initiator` has just opened for `capacity` winners.
    pub open spec fn opened(initiator: Identity, capacity: nat) -> ElectionModel {
        ElectionModel {
            candidates: 0,
            stage: ElectionStage::Application,
            initiator,
            capacity,
            winners: Ranking::empty(),
        }
    }

    /// There is at least one winner slot, the ranking is well formed for that many
    /// slots, and no winner is listed while applications are open.
    pub open spec fn wf(self) -> bool {
        &&& self.capacity >= 1
        &&& self.winners.wf(self.capacity)
        &&& self.stage is Application ==> self.winners.ids.len() == 0
    }

    /// The end of the application stage. With no more candidates than winner slots every
    /// candidate wins unopposed and the election closes; otherwise voting opens.
    pub open spec fn close_application(self) -> Result<ElectionModel, ElectionError> {
        if !(self.stage is Application) {
            Err(ElectionError::StageMismatch)
        } else if self.candidates <= self.capacity {
            Ok(
                ElectionModel {
                    stage: ElectionStage::Closed,
                    winners: Ranking::acclaimed(self.candidates),
                    ..self
                },
            )
        } else {
            Ok(ElectionModel { stage: ElectionStage::Voting, ..self })
        }
    }

    /// The end of the voting stage: the election closes with the winners as they stand.
    pub open spec fn close_voting(self) -> Result<ElectionModel, ElectionError> {
        if !(self.stage is Voting) {
            Err(ElectionError::StageMismatch)
        } else {
            Ok(ElectionModel { stage: ElectionStage::Closed, ..self })
        }
    }

    /// The election after a vote has brought candidate `id` to `votes` votes.
    pub open spec fn record_vote(self, id: u64, votes: u64) -> ElectionModel {
        ElectionModel { winners: self.winners.record(self.capacity, id, votes), ..self }
    }
}

/// What a call leaves behind: the state that `outcome` names and `Ok`, or the state as it
/// was and the error.
pub open spec fn settled<S>(outcome: Result<S, ElectionError>, before: S, after: S, result: Result<
    (),
    ElectionError,
>) -> bool {
    match outcome {
        Ok(next) => result is Ok && after == next,
        Err(error) => result == Err::<(), ElectionError>(error) && after == before,
    }
}

impl View for ElectionData {
    type V = ElectionModel;

    open spec fn view(&self) -> ElectionModel {
        ElectionModel {
            candidates: self.candidates as nat,
            stage: self.stage,
            initiator: self.initiator,
            capacity: self.winners_num as nat,
            winners: Ranking { ids: self.winners_ids@, votes: self.winners_votes@ },
        }
    }
}

impl ElectionData {
    /// The election is a well-formed one.
    pub open spec fn wf(&self) -> bool {
        self@.wf()
    }

    /// Whether the election is a well-formed one.
    pub fn is_well_formed(&self) -> (r: bool)
        ensures
            r == self.wf(),
    {
        self.winners_num >= 1 && is_ranking(
            &self.winners_ids,
            &self.winners_votes,
            self.winners_num as usize,
        ) && (self.stage != ElectionStage::Application || self.winners_ids.len() == 0)
    }

    /// Ends the application stage: with no more candidates than winner slots every
    /// candidate is a winner and the election closes, otherwise voting opens.
    pub fn close_application(&mut self) -> (r: Result<(), ElectionError>)
        requires
            old(self).wf(),
        ensures
            final(self).wf(),
            settled(old(self)@.close_application(), old(self)@, final(self)@, r),
    {
        if self.stage != ElectionStage::Application {
            return Err(ElectionError::StageMismatch);
        }
        if self.candidates <= self.winners_num as u64 {
            let mut id: u64 = 0;
            while id < self.candidates
                invariant
                    id <= self.candidates <= self.winners_num,
                    self.candidates == old(self).candidates,
                    self.winners_num == old(self).winners_num,
                    self.initiator == old(self).initiator,
                    self.stage == old(self).stage,
                    self@.winners == Ranking::acclaimed(id as nat),
                decreases self.candidates - id,
            {
                id += 1;
                self.winners_ids.push(id);
                self.winners_votes.push(0);
            }
            self.stage = ElectionStage::Closed;
        } else {
            self.stage = ElectionStage::Voting;
        }
        Ok(())
    }

    /// Ends the voting stage: the election closes with the winners as they stand.
    pub fn close_voting(&mut self) -> (r: Result<(), ElectionError>)
        requires
            old(self).wf(),
        ensures
            final(self).wf(),
            settled(old(self)@.close_voting(), old(self)@, final(self)@, r),
    {
        if self.stage != ElectionStage::Voting {
            return Err(ElectionError::StageMismatch);
        }
        self.stage = ElectionStage::Closed;
        Ok(())
    }

    /// Takes note that a vote has brought candidate `id` to `votes` votes, and brings the
    /// list of winners up to date.
    ///
    /// Votes are recorded while voting is open, and `votes` is the candidate's count after
    /// the vote: a listed candidate does not come with fewer votes than it is listed with.
    pub fn record_vote(&mut self, id: u64, votes: u64)
        requires
            old(self).wf(),
            old(self).stage is Voting,
            old(self)@.winners.admits(id, votes),
        ensures
            final(self).wf(),
            final(self)@ == old(self)@.record_vote(id, votes),
            final(self).winners_ids.len() == final(self).winners_votes.len(),
            final(self).winners_ids.len() <= final(self).winners_num,
            descending(final(self).winners_votes@),
            final(self).winners_ids@.no_duplicates(),
    {
        proof {
            lemma_record_keeps_wf(self@.winners, self.winners_num as nat, id, votes);
        }
        let from: usize;
        match find_rank(&self.winners_ids, id) {
            Some(at) => {
                proof {
                    lemma_rank_is_unique(self.winners_ids@, id, at as int);
                }
                self.winners_votes[at] = votes;
                from = at;
            },
            None => {
                if self.winners_ids.len() < self.winners_num as usize {
                    from = self.winners_ids.len();
                    self.winners_ids.push(id);
                    self.winners_votes.push(votes);
                } else {
                    let last: usize = (self.winners_num - 1) as usize;
                    if votes > self.winners_votes[last] {
                        self.winners_ids[last] = id;
                        self.winners_votes[last] = votes;
                        from = last;
                    } else {
                        return ;
                    }
                }
            },
        }
        raise(&mut self.winners_ids, &mut self.winners_votes, from);
    }
}

} // verus!
