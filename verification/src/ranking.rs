use vstd::prelude::*;

verus! {

/// Vote counts never rise from one rank to the next.
pub open spec fn descending(votes: Seq<u64>) -> bool {
    forall|i: int, j: int| 0 <= i <= j < votes.len() ==> votes[i] >= votes[j]
}

/// Vote counts are in descending order once the entry at `at` is left out of the ranks above
/// it: that entry alone may hold more votes than entries ranked higher.
pub open spec fn descending_below(votes: Seq<u64>, at: int) -> bool {
    forall|i: int, j: int| 0 <= i <= j < votes.len() && j != at ==> votes[i] >= votes[j]
}

/// The rank at which an entry with `votes` votes comes to rest when it rises from rank `from`:
/// it passes each entry directly above it that holds strictly fewer votes, and no other.
pub open spec fn settle(tally: Seq<u64>, from: int, votes: u64) -> int
    decreases from,
{
    if 0 < from <= tally.len() && tally[from - 1] < votes {
        settle(tally, from - 1, votes)
    } else {
        from
    }
}

/// The sequence in which the entry at `from` has moved up to `to`,
/// and the entries it passed have each moved down by one.
pub open spec fn moved_up<T>(s: Seq<T>, from: int, to: int) -> Seq<T> {
    s.remove(from).insert(to, s[from])
}

/// The rank from which the entry now at rank `now` came, when the entry at `from` moved
/// up to `to`.
pub open spec fn rank_before(from: int, to: int, now: int) -> int {
    if now < to {
        now
    } else if now == to {
        from
    } else if now <= from {
        now - 1
    } else {
        now
    }
}

/// The rank to which the entry once at rank `then` went, when the entry at `from` moved
/// up to `to`.
pub open spec fn rank_after(from: int, to: int, then: int) -> int {
    if then < to {
        then
    } else if then < from {
        then + 1
    } else if then == from {
        to
    } else {
        then
    }
}

/// The ranked list of winners: candidate ids and their vote counts, rank by rank.
#[verifier::ext_equal]
pub struct Ranking {
    pub ids: Seq<u64>,
    pub votes: Seq<u64>,
}

impl Ranking {
    /// A ranking for at most `capacity` winners: one vote count per id, no id twice,
    /// vote counts in descending order.
    pub open spec fn wf(self, capacity: nat) -> bool {
        &&& self.ids.len() == self.votes.len()
        &&& self.ids.len() <= capacity
        &&& self.ids.no_duplicates()
        &&& descending(self.votes)
    }

    /// No winner at all.
    pub open spec fn empty() -> Ranking {
        Ranking { ids: Seq::empty(), votes: Seq::empty() }
    }

    /// Candidates `1` to `count`, in that order, each with no vote.
    pub open spec fn acclaimed(count: nat) -> Ranking {
        Ranking {
            ids: Seq::new(count, |i: int| (i + 1) as u64),
            votes: Seq::new(count, |i: int| 0u64),
        }
    }

    /// Candidate `id` is listed, with `votes` votes.
    pub open spec fn lists(self, id: u64, votes: u64) -> bool {
        exists|i: int| 0 <= i < self.ids.len() && self.ids[i] == id && self.votes[i] == votes
    }

    /// Candidate `id`, if it is listed, is listed with `votes` votes.
    pub open spec fn agrees(self, id: u64, votes: u64) -> bool {
        forall|i: int| 0 <= i < self.ids.len() && self.ids[i] == id ==> self.votes[i] == votes
    }

    /// The list is full and a vote that brings the unlisted candidate `id` to `votes`
    /// votes puts it in the place of the last winner.
    pub open spec fn displaces(self, capacity: nat, id: u64, votes: u64) -> bool {
        &&& !self.ids.contains(id)
        &&& self.ids.len() >= capacity > 0
        &&& votes > self.votes[capacity - 1]
    }

    /// A vote that brings candidate `id` to `votes` votes leaves it listed: it was listed,
    /// or there is room, or it beats the last winner.
    pub open spec fn takes(self, capacity: nat, id: u64, votes: u64) -> bool {
        ||| self.ids.contains(id)
        ||| self.ids.len() < capacity
        ||| self.displaces(capacity, id, votes)
    }

    /// The ranking after the entry at `from` has risen to the rank its votes give it.
    pub open spec fn raise(self, from: int) -> Ranking {
        let to = settle(self.votes, from, self.votes[from]);
        Ranking { ids: moved_up(self.ids, from, to), votes: moved_up(self.votes, from, to) }
    }

    /// Whether a vote that brings candidate `id` to `votes` votes fits what the ranking holds:
    /// a candidate who is listed does not come with fewer votes than listed.
    pub open spec fn admits(self, id: u64, votes: u64) -> bool {
        forall|i: int| 0 <= i < self.ids.len() && self.ids[i] == id ==> self.votes[i] <= votes
    }

    /// The ranking after a vote has brought candidate `id` to `votes` votes.
    ///
    /// A listed candidate gets the new count and rises. An unlisted one is appended while
    /// there is room; when the list is full it takes the last rank if it has strictly more
    /// votes than the candidate there, and rises; otherwise nothing changes.
    pub open spec fn record(self, capacity: nat, id: u64, votes: u64) -> Ranking {
        if self.ids.contains(id) {
            let at = self.ids.index_of(id);
            Ranking { ids: self.ids, votes: self.votes.update(at, votes) }.raise(at)
        } else if self.ids.len() < capacity {
            Ranking { ids: self.ids.push(id), votes: self.votes.push(votes) }.raise(
                self.ids.len() as int,
            )
        } else if self.displaces(capacity, id, votes) {
            let last = capacity - 1;
            Ranking { ids: self.ids.update(last, id), votes: self.votes.update(last, votes) }.raise(
                last,
            )
        } else {
            self
        }
    }
}

/// `settle` stops at the first rank, counted upwards from `from`, whose upper neighbour
/// holds at least `votes` votes; every entry it passed holds fewer.
pub proof fn lemma_settle(tally: Seq<u64>, from: int, votes: u64)
    requires
        0 <= from <= tally.len(),
    ensures
        0 <= settle(tally, from, votes) <= from,
        forall|k: int| settle(tally, from, votes) <= k < from ==> tally[k] < votes,
        settle(tally, from, votes) > 0 ==> tally[settle(tally, from, votes) - 1] >= votes,
    decreases from,
{
    if 0 < from && tally[from - 1] < votes {
        lemma_settle(tally, from - 1, votes);
    }
}

/// The sequence that is like `s` with the neighbours at `at - 1` and `at` exchanged.
proof fn lemma_moved_up_step<T>(s: Seq<T>, from: int, at: int)
    requires
        0 < at <= from < s.len(),
    ensures
        moved_up(s, from, at - 1) =~= moved_up(s, from, at).update(at, s[at - 1]).update(
            at - 1,
            s[from],
        ),
        moved_up(s, from, at).len() == s.len(),
        moved_up(s, from, at)[at] == s[from],
        moved_up(s, from, at)[at - 1] == s[at - 1],
{
}

/// An entry that does not move leaves the sequence as it was.
proof fn lemma_moved_up_nowhere<T>(s: Seq<T>, from: int)
    requires
        0 <= from < s.len(),
    ensures
        moved_up(s, from, from) =~= s,
{
}

/// The rank of candidate `id` in `ids`, if it is listed.
pub fn find_rank(ids: &Vec<u64>, id: u64) -> (r: Option<usize>)
    ensures
        match r {
            Some(at) => at < ids.len() && ids[at as int] == id && forall|k: int|
                0 <= k < at ==> ids[k] != id,
            None => !ids@.contains(id),
        },
{
    let mut at: usize = 0;
    while at < ids.len()
        invariant
            at <= ids.len(),
            forall|k: int| 0 <= k < at ==> ids[k] != id,
        decreases ids.len() - at,
    {
        if ids[at] == id {
            return Some(at);
        }
        at += 1;
    }
    None
}

/// Lets the entry at rank `from` rise past every entry directly above it that holds
/// strictly fewer votes, exchanging neighbours one step at a time.
pub fn raise(ids: &mut Vec<u64>, votes: &mut Vec<u64>, from: usize)
    requires
        old(ids).len() == old(votes).len(),
        from < old(ids).len(),
    ensures
        (Ranking { ids: final(ids)@, votes: final(votes)@ }) == (Ranking {
            ids: old(ids)@,
            votes: old(votes)@,
        }).raise(from as int),
{
    let ghost ids0 = ids@;
    let ghost votes0 = votes@;
    let ghost risen = votes0[from as int];
    let mut at: usize = from;
    proof {
        lemma_moved_up_nowhere(ids0, from as int);
        lemma_moved_up_nowhere(votes0, from as int);
    }
    while at > 0 && votes[at] > votes[at - 1]
        invariant
            at <= from < ids0.len(),
            ids0.len() == votes0.len(),
            risen == votes0[from as int],
            ids@ == moved_up(ids0, from as int, at as int),
            votes@ == moved_up(votes0, from as int, at as int),
            settle(votes0, from as int, risen) == settle(votes0, at as int, risen),
            at > 0 ==> votes@.len() == votes0.len() && votes@[at as int] == risen && votes@[at - 1]
                == votes0[at - 1],
        decreases at,
    {
        proof {
            lemma_moved_up_step(ids0, from as int, at as int);
            lemma_moved_up_step(votes0, from as int, at as int);
        }
        let upper_votes: u64 = votes[at - 1];
        let upper_id: u64 = ids[at - 1];
        let risen_votes: u64 = votes[at];
        let risen_id: u64 = ids[at];
        votes[at] = upper_votes;
        votes[at - 1] = risen_votes;
        ids[at] = upper_id;
        ids[at - 1] = risen_id;
        at -= 1;
        proof {
            if at > 0 {
                lemma_moved_up_step(votes0, from as int, at as int);
            }
        }
    }
}

/// An entry that alone is out of order comes to rest where the order is whole again.
pub proof fn lemma_raise_restores_order(ranking: Ranking, capacity: nat, from: int)
    requires
        ranking.ids.len() == ranking.votes.len(),
        ranking.ids.len() <= capacity,
        ranking.ids.no_duplicates(),
        0 <= from < ranking.ids.len(),
        descending_below(ranking.votes, from),
    ensures
        ranking.raise(from).wf(capacity),
{
    let risen = ranking.votes[from];
    let to = settle(ranking.votes, from, risen);
    lemma_settle(ranking.votes, from, risen);
    let after = ranking.raise(from);
    assert forall|i: int, j: int| 0 <= i <= j < after.votes.len() implies after.votes[i]
        >= after.votes[j] by {
        if to > 0 {
            assert(ranking.votes[to - 1] >= risen);
        }
    }
    assert forall|i: int, j: int|
        0 <= i < after.ids.len() && 0 <= j < after.ids.len() && i != j implies after.ids[i]
        != after.ids[j] by {
        let from_i = if i < to { i } else if i == to { from } else if i <= from { i - 1 } else { i };
        let from_j = if j < to { j } else if j == to { from } else if j <= from { j - 1 } else { j };
        assert(after.ids[i] == ranking.ids[from_i]);
        assert(after.ids[j] == ranking.ids[from_j]);
    }
}

/// In a list without repetition, an id is found at the one rank where it stands.
pub proof fn lemma_rank_is_unique(ids: Seq<u64>, id: u64, at: int)
    requires
        ids.no_duplicates(),
        0 <= at < ids.len(),
        ids[at] == id,
    ensures
        ids.contains(id),
        ids.index_of(id) == at,
{
}

/// Recording a vote keeps the ranking well formed: as many vote counts as ids, no more
/// entries than the capacity, no id twice, vote counts in descending order.
pub proof fn lemma_record_keeps_wf(ranking: Ranking, capacity: nat, id: u64, votes: u64)
    requires
        ranking.wf(capacity),
        ranking.admits(id, votes),
    ensures
        ranking.record(capacity, id, votes).wf(capacity),
{
    if ranking.ids.contains(id) {
        let at = ranking.ids.index_of(id);
        let set = Ranking { ids: ranking.ids, votes: ranking.votes.update(at, votes) };
        assert(descending_below(set.votes, at));
        lemma_raise_restores_order(set, capacity, at);
    } else if ranking.ids.len() < capacity {
        let grown = Ranking { ids: ranking.ids.push(id), votes: ranking.votes.push(votes) };
        assert(grown.ids.no_duplicates()) by {
            assert forall|i: int, j: int|
                0 <= i < grown.ids.len() && 0 <= j < grown.ids.len() && i != j implies grown.ids[i]
                != grown.ids[j] by {
                if i < ranking.ids.len() {
                    assert(ranking.ids[i] == grown.ids[i]);
                }
                if j < ranking.ids.len() {
                    assert(ranking.ids[j] == grown.ids[j]);
                }
            }
        }
        assert(descending_below(grown.votes, ranking.ids.len() as int));
        lemma_raise_restores_order(grown, capacity, ranking.ids.len() as int);
    } else if ranking.displaces(capacity, id, votes) {
        let last = capacity - 1;
        let taken = Ranking {
            ids: ranking.ids.update(last, id),
            votes: ranking.votes.update(last, votes),
        };
        assert(taken.ids.no_duplicates()) by {
            assert forall|i: int, j: int|
                0 <= i < taken.ids.len() && 0 <= j < taken.ids.len() && i != j implies taken.ids[i]
                != taken.ids[j] by {
                if i != last {
                    assert(ranking.ids[i] == taken.ids[i]);
                }
                if j != last {
                    assert(ranking.ids[j] == taken.ids[j]);
                }
            }
        }
        assert(descending_below(taken.votes, last));
        lemma_raise_restores_order(taken, capacity, last);
    }
}

/// Whether the two lists make a well-formed ranking for at most `capacity` winners.
pub fn is_ranking(ids: &Vec<u64>, votes: &Vec<u64>, capacity: usize) -> (r: bool)
    ensures
        r == (Ranking { ids: ids@, votes: votes@ }).wf(capacity as nat),
{
    if ids.len() != votes.len() || ids.len() > capacity {
        return false;
    }
    let mut at: usize = 1;
    while at < votes.len()
        invariant
            1 <= at,
            forall|i: int, j: int| 0 <= i <= j < at && j < votes.len() ==> votes[i] >= votes[j],
        decreases votes.len() - at,
    {
        if votes[at - 1] < votes[at] {
            return false;
        }
        at += 1;
    }
    let mut upper: usize = 0;
    while upper < ids.len()
        invariant
            upper <= ids.len(),
            forall|i: int, j: int| 0 <= i < j < upper ==> ids[i] != ids[j],
        decreases ids.len() - upper,
    {
        let mut lower: usize = 0;
        while lower < upper
            invariant
                lower <= upper < ids.len(),
                forall|i: int| 0 <= i < lower ==> ids[i] != ids[upper as int],
            decreases upper - lower,
        {
            if ids[lower] == ids[upper] {
                return false;
            }
            lower += 1;
        }
        upper += 1;
    }
    true
}

/// Whether the ranking admits a vote that brings candidate `id` to `count` votes.
pub fn admits(ids: &Vec<u64>, votes: &Vec<u64>, id: u64, count: u64) -> (r: bool)
    requires
        ids.len() == votes.len(),
    ensures
        r == (Ranking { ids: ids@, votes: votes@ }).admits(id, count),
{
    let mut at: usize = 0;
    while at < ids.len()
        invariant
            at <= ids.len() == votes.len(),
            forall|i: int| 0 <= i < at && ids[i] == id ==> votes[i] <= count,
        decreases ids.len() - at,
    {
        if ids[at] == id && votes[at] > count {
            proof {
                let ranking = Ranking { ids: ids@, votes: votes@ };
                assert(ranking.ids[at as int] == id && ranking.votes[at as int] > count);
            }
            return false;
        }
        at += 1;
    }
    true
}

/// When an entry rises, every entry is found again at its new rank.
pub proof fn lemma_raise_moves_entries(ranking: Ranking, from: int)
    requires
        ranking.ids.len() == ranking.votes.len(),
        0 <= from < ranking.ids.len(),
    ensures
        ranking.raise(from).ids.len() == ranking.ids.len(),
        ranking.raise(from).votes.len() == ranking.ids.len(),
        forall|now: int|
            #![trigger ranking.raise(from).ids[now]]
            #![trigger ranking.raise(from).votes[now]]
            0 <= now < ranking.ids.len() ==> {
                let then = rank_before(from, settle(ranking.votes, from, ranking.votes[from]), now);
                &&& 0 <= then < ranking.ids.len()
                &&& ranking.raise(from).ids[now] == ranking.ids[then]
                &&& ranking.raise(from).votes[now] == ranking.votes[then]
            },
        forall|then: int|
            #![trigger ranking.ids[then]]
            #![trigger ranking.votes[then]]
            0 <= then < ranking.ids.len() ==> {
                let now = rank_after(from, settle(ranking.votes, from, ranking.votes[from]), then);
                &&& 0 <= now < ranking.ids.len()
                &&& ranking.raise(from).ids[now] == ranking.ids[then]
                &&& ranking.raise(from).votes[now] == ranking.votes[then]
            },
{
    lemma_settle(ranking.votes, from, ranking.votes[from]);
}

/// A vote that leaves the candidate listed leaves it listed with the new count; a vote
/// that does not leaves the ranking as it was.
pub proof fn lemma_record_lists_candidate(ranking: Ranking, capacity: nat, id: u64, votes: u64)
    requires
        ranking.wf(capacity),
    ensures
        ranking.takes(capacity, id, votes) ==> ranking.record(capacity, id, votes).lists(id, votes),
        !ranking.takes(capacity, id, votes) ==> ranking.record(capacity, id, votes) == ranking,
{
    if ranking.takes(capacity, id, votes) {
        let (base, from) = if ranking.ids.contains(id) {
            let at = ranking.ids.index_of(id);
            (Ranking { ids: ranking.ids, votes: ranking.votes.update(at, votes) }, at)
        } else if ranking.ids.len() < capacity {
            (
                Ranking { ids: ranking.ids.push(id), votes: ranking.votes.push(votes) },
                ranking.ids.len() as int,
            )
        } else {
            let last = capacity - 1;
            (
                Ranking {
                    ids: ranking.ids.update(last, id),
                    votes: ranking.votes.update(last, votes),
                },
                last,
            )
        };
        let after = ranking.record(capacity, id, votes);
        assert(after == base.raise(from));
        lemma_raise_moves_entries(base, from);
        let to = rank_after(from, settle(base.votes, from, base.votes[from]), from);
        assert(base.ids[from] == id && base.votes[from] == votes);
        assert(after.ids[to] == id && after.votes[to] == votes);
    }
}

/// A vote for one candidate leaves every other candidate listed as it was, with the
/// votes it had, but for the last winner when the candidate takes its place; and it
/// brings no other candidate into the list.
pub proof fn lemma_record_keeps_others(
    ranking: Ranking,
    capacity: nat,
    id: u64,
    votes: u64,
    other: u64,
    count: u64,
)
    requires
        ranking.wf(capacity),
        other != id,
    ensures
        ranking.record(capacity, id, votes).lists(other, count) ==> ranking.lists(other, count),
        ranking.lists(other, count) && !(ranking.displaces(capacity, id, votes)
            && ranking.ids[capacity - 1] == other) ==> ranking.record(capacity, id, votes).lists(
            other,
            count,
        ),
        ranking.displaces(capacity, id, votes) && ranking.ids[capacity - 1] == other
            ==> !ranking.record(capacity, id, votes).ids.contains(other),
{
    let after = ranking.record(capacity, id, votes);
    if ranking.takes(capacity, id, votes) {
        let (base, from) = if ranking.ids.contains(id) {
            let at = ranking.ids.index_of(id);
            (Ranking { ids: ranking.ids, votes: ranking.votes.update(at, votes) }, at)
        } else if ranking.ids.len() < capacity {
            (
                Ranking { ids: ranking.ids.push(id), votes: ranking.votes.push(votes) },
                ranking.ids.len() as int,
            )
        } else {
            let last = capacity - 1;
            (
                Ranking {
                    ids: ranking.ids.update(last, id),
                    votes: ranking.votes.update(last, votes),
                },
                last,
            )
        };
        assert(after == base.raise(from));
        lemma_raise_moves_entries(base, from);
        let to = settle(base.votes, from, base.votes[from]);
        assert(base.ids[from] == id);
        if after.lists(other, count) {
            let now = choose|i: int|
                0 <= i < after.ids.len() && after.ids[i] == other && after.votes[i] == count;
            let then = rank_before(from, to, now);
            assert(after.ids[now] == base.ids[then] && after.votes[now] == base.votes[then]);
            assert(then != from);
            assert(ranking.ids[then] == other && ranking.votes[then] == count);
        }
        if ranking.lists(other, count) && !(ranking.displaces(capacity, id, votes)
            && ranking.ids[capacity - 1] == other) {
            let then = choose|i: int|
                0 <= i < ranking.ids.len() && ranking.ids[i] == other && ranking.votes[i] == count;
            assert(base.ids[then] == other && base.votes[then] == count);
            let now = rank_after(from, to, then);
            assert(after.ids[now] == other && after.votes[now] == count);
        }
        if ranking.displaces(capacity, id, votes) && ranking.ids[capacity - 1] == other {
            if after.ids.contains(other) {
                let now = choose|i: int| 0 <= i < after.ids.len() && after.ids[i] == other;
                let then = rank_before(from, to, now);
                assert(after.ids[now] == base.ids[then]);
                assert(then != from);
                assert(ranking.ids[then] == other);
                assert(false);
            }
        }
    } else {
        lemma_record_lists_candidate(ranking, capacity, id, votes);
    }
}

/// The ranking to which a vote is applied before the candidate rises, and the rank from
/// which it rises.
proof fn lemma_record_unfolds(ranking: Ranking, capacity: nat, id: u64, votes: u64) -> (r: (
    Ranking,
    int,
))
    requires
        ranking.wf(capacity),
        ranking.takes(capacity, id, votes),
    ensures
        ranking.record(capacity, id, votes) == r.0.raise(r.1),
        r.0.ids.len() == r.0.votes.len(),
        0 <= r.1 < r.0.ids.len(),
        r.0.ids[r.1] == id,
        r.0.votes[r.1] == votes,
        forall|i: int|
            0 <= i < r.0.ids.len() && i != r.1 ==> i < ranking.ids.len() && r.0.ids[i]
                == ranking.ids[i] && r.0.votes[i] == ranking.votes[i],
        forall|i: int|
            0 <= i < ranking.ids.len() && ranking.ids[i] != id && !(ranking.displaces(
                capacity,
                id,
                votes,
            ) && i == capacity - 1) ==> i < r.0.ids.len() && i != r.1,
        ranking.ids.contains(id) ==> r.1 == ranking.ids.index_of(id),
        !ranking.ids.contains(id) ==> r.1 == r.0.ids.len() - 1,
{
    if ranking.ids.contains(id) {
        let at = ranking.ids.index_of(id);
        (Ranking { ids: ranking.ids, votes: ranking.votes.update(at, votes) }, at)
    } else if ranking.ids.len() < capacity {
        (
            Ranking { ids: ranking.ids.push(id), votes: ranking.votes.push(votes) },
            ranking.ids.len() as int,
        )
    } else {
        let last = capacity - 1;
        (
            Ranking { ids: ranking.ids.update(last, id), votes: ranking.votes.update(last, votes) },
            last,
        )
    }
}

/// Where the candidate stands after a vote, against another candidate that is listed
/// before and after: the one with more votes stands higher, and with equal votes the
/// other stands higher exactly if it stood higher before. A candidate that was not
/// listed counts as having stood below all.
pub proof fn lemma_record_breaks_ties(
    ranking: Ranking,
    capacity: nat,
    id: u64,
    votes: u64,
    other: u64,
    count: u64,
)
    requires
        ranking.wf(capacity),
        ranking.admits(id, votes),
        ranking.takes(capacity, id, votes),
        other != id,
        ranking.lists(other, count),
        ranking.record(capacity, id, votes).lists(other, count),
    ensures
        ({
            let after = ranking.record(capacity, id, votes);
            let higher = after.ids.index_of(other) < after.ids.index_of(id);
            let higher_before = ranking.ids.contains(id) ==> ranking.ids.index_of(other)
                < ranking.ids.index_of(id);
            &&& count > votes ==> higher
            &&& count < votes ==> !higher
            &&& count == votes ==> (higher <==> higher_before)
        }),
{
    let after = ranking.record(capacity, id, votes);
    lemma_record_keeps_wf(ranking, capacity, id, votes);
    let (base, from) = lemma_record_unfolds(ranking, capacity, id, votes);
    lemma_raise_moves_entries(base, from);
    lemma_settle(base.votes, from, votes);
    let to = settle(base.votes, from, votes);
    let then = choose|i: int|
        0 <= i < ranking.ids.len() && ranking.ids[i] == other && ranking.votes[i] == count;
    lemma_rank_is_unique(ranking.ids, other, then);
    if ranking.displaces(capacity, id, votes) && then == capacity - 1 {
        lemma_record_keeps_others(ranking, capacity, id, votes, other, count);
        assert(after.ids.contains(other)) by {
            let now = choose|i: int|
                0 <= i < after.ids.len() && after.ids[i] == other && after.votes[i] == count;
            assert(after.ids[now] == other);
        }
    }
    assert(base.ids[then] == other && base.votes[then] == count);
    let now = rank_after(from, to, then);
    assert(after.ids[now] == other);
    assert(after.ids[to] == id) by {
        assert(rank_after(from, to, from) == to);
        assert(after.ids[rank_after(from, to, from)] == base.ids[from]);
    }
    lemma_rank_is_unique(after.ids, other, now);
    lemma_rank_is_unique(after.ids, id, to);
    if then > from {
        assert(base.votes[from] >= base.votes[then]) by {
            assert(ranking.ids.contains(id));
            assert(ranking.votes[from] >= ranking.votes[then]);
            assert(ranking.ids[from] == id);
        }
    }
    if then < to {
        assert(base.votes[then] >= votes) by {
            if to > 0 {
                assert(ranking.votes[then] >= ranking.votes[to - 1]);
            }
        }
    }
}

/// A vote for one candidate leaves any two other candidates, listed before and after,
/// in the order in which they stood.
pub proof fn lemma_record_keeps_order(
    ranking: Ranking,
    capacity: nat,
    id: u64,
    votes: u64,
    first: u64,
    second: u64,
)
    requires
        ranking.wf(capacity),
        ranking.admits(id, votes),
        first != id,
        second != id,
        ranking.ids.contains(first),
        ranking.ids.contains(second),
        ranking.record(capacity, id, votes).ids.contains(first),
        ranking.record(capacity, id, votes).ids.contains(second),
    ensures
        ranking.ids.index_of(first) < ranking.ids.index_of(second) <==> ranking.record(
            capacity,
            id,
            votes,
        ).ids.index_of(first) < ranking.record(capacity, id, votes).ids.index_of(second),
{
    let after = ranking.record(capacity, id, votes);
    if ranking.takes(capacity, id, votes) {
        lemma_record_keeps_wf(ranking, capacity, id, votes);
        let (base, from) = lemma_record_unfolds(ranking, capacity, id, votes);
        lemma_raise_moves_entries(base, from);
        lemma_settle(base.votes, from, votes);
        let to = settle(base.votes, from, votes);
        let first_now = after.ids.index_of(first);
        let second_now = after.ids.index_of(second);
        let first_then = rank_before(from, to, first_now);
        let second_then = rank_before(from, to, second_now);
        assert(after.ids[first_now] == base.ids[first_then]);
        assert(after.ids[second_now] == base.ids[second_then]);
        assert(first_then != from && second_then != from);
        lemma_rank_is_unique(ranking.ids, first, first_then);
        lemma_rank_is_unique(ranking.ids, second, second_then);
    } else {
        lemma_record_lists_candidate(ranking, capacity, id, votes);
    }
}

} // verus!
