use election_contract::ranking::{admits, find_rank, is_ranking, raise};
use election_contract::{
    create_election, CandidateData, CreateElection, ElectionData, ElectionStage, Identity, Vote,
};

fn someone(n: u8) -> Identity {
    Identity::new([n; 32])
}

fn election(stage: ElectionStage, winners: u8, ids: Vec<u64>, votes: Vec<u64>) -> ElectionData {
    ElectionData {
        candidates: 9,
        stage,
        initiator: someone(0),
        winners_num: winners,
        winners_ids: ids,
        winners_votes: votes,
    }
}

#[test]
fn rank_of_a_listed_candidate() {
    let ids = vec![7, 3, 9];
    assert_eq!(find_rank(&ids, 7), Some(0));
    assert_eq!(find_rank(&ids, 3), Some(1));
    assert_eq!(find_rank(&ids, 9), Some(2));
}

#[test]
fn rank_of_an_unlisted_candidate() {
    assert_eq!(find_rank(&vec![7, 3, 9], 4), None);
    assert_eq!(find_rank(&Vec::new(), 4), None);
}

#[test]
fn entry_rises_past_fewer_votes() {
    let mut ids = vec![1, 2, 3, 4];
    let mut votes = vec![9, 5, 5, 7];
    raise(&mut ids, &mut votes, 3);
    assert_eq!(ids, vec![1, 4, 2, 3]);
    assert_eq!(votes, vec![9, 7, 5, 5]);
}

#[test]
fn entry_rises_to_the_top() {
    let mut ids = vec![1, 2, 3];
    let mut votes = vec![4, 3, 8];
    raise(&mut ids, &mut votes, 2);
    assert_eq!(ids, vec![3, 1, 2]);
    assert_eq!(votes, vec![8, 4, 3]);
}

#[test]
fn entry_does_not_pass_equal_votes() {
    let mut ids = vec![1, 2, 3];
    let mut votes = vec![6, 5, 5];
    raise(&mut ids, &mut votes, 2);
    assert_eq!(ids, vec![1, 2, 3]);
    assert_eq!(votes, vec![6, 5, 5]);
}

#[test]
fn entry_in_the_middle_leaves_the_rest() {
    let mut ids = vec![1, 2, 3, 4];
    let mut votes = vec![3, 2, 5, 1];
    raise(&mut ids, &mut votes, 2);
    assert_eq!(ids, vec![3, 1, 2, 4]);
    assert_eq!(votes, vec![5, 3, 2, 1]);
}

#[test]
fn first_entry_stays() {
    let mut ids = vec![1, 2];
    let mut votes = vec![1, 2];
    raise(&mut ids, &mut votes, 0);
    assert_eq!(ids, vec![1, 2]);
    assert_eq!(votes, vec![1, 2]);
}

#[test]
fn well_formed_rankings() {
    assert!(is_ranking(&vec![], &vec![], 0));
    assert!(is_ranking(&vec![], &vec![], 3));
    assert!(is_ranking(&vec![4], &vec![0], 1));
    assert!(is_ranking(&vec![4, 2, 8], &vec![5, 5, 1], 3));
    assert!(is_ranking(&vec![4, 2, 8], &vec![5, 5, 1], 4));
}

#[test]
fn ill_formed_rankings() {
    assert!(!is_ranking(&vec![4, 2], &vec![5], 3));
    assert!(!is_ranking(&vec![4], &vec![5, 1], 3));
    assert!(!is_ranking(&vec![4, 2, 8], &vec![5, 5, 1], 2));
    assert!(!is_ranking(&vec![4, 2, 8], &vec![5, 1, 2], 3));
    assert!(!is_ranking(&vec![4, 2, 4], &vec![5, 5, 1], 3));
    assert!(!is_ranking(&vec![2, 2], &vec![1, 1], 3));
}

#[test]
fn ranking_admits_counts_that_do_not_fall() {
    let ids = vec![4, 2, 8];
    let votes = vec![5, 5, 1];
    assert!(admits(&ids, &votes, 2, 5));
    assert!(admits(&ids, &votes, 2, 6));
    assert!(!admits(&ids, &votes, 2, 4));
    assert!(admits(&ids, &votes, 8, 1));
    assert!(!admits(&ids, &votes, 8, 0));
    assert!(admits(&ids, &votes, 3, 0));
    assert!(admits(&Vec::new(), &Vec::new(), 3, 0));
}

#[test]
fn well_formed_elections() {
    let opened = create_election(&CreateElection { signer: someone(1) }, 1).unwrap();
    assert!(opened.is_well_formed());
    assert!(election(ElectionStage::Application, 2, vec![], vec![]).is_well_formed());
    assert!(election(ElectionStage::Voting, 2, vec![], vec![]).is_well_formed());
    assert!(election(ElectionStage::Voting, 2, vec![5, 1], vec![3, 3]).is_well_formed());
    assert!(election(ElectionStage::Closed, 2, vec![1], vec![0]).is_well_formed());
}

#[test]
fn ill_formed_elections() {
    assert!(!election(ElectionStage::Voting, 0, vec![], vec![]).is_well_formed());
    assert!(!election(ElectionStage::Application, 2, vec![1], vec![0]).is_well_formed());
    assert!(!election(ElectionStage::Voting, 2, vec![5, 1], vec![3]).is_well_formed());
    assert!(!election(ElectionStage::Voting, 2, vec![5, 1], vec![3, 4]).is_well_formed());
    assert!(!election(ElectionStage::Voting, 2, vec![5, 5], vec![4, 3]).is_well_formed());
    assert!(!election(ElectionStage::Closed, 2, vec![5, 1, 2], vec![4, 3, 3]).is_well_formed());
}

#[test]
fn votes_that_can_be_counted() {
    let ballot = |id: u64, votes: u64| Vote {
        my_vote: None,
        candidate_data: CandidateData { votes, id, pubkey: someone(3) },
        signer: someone(4),
        election_data: election(ElectionStage::Voting, 2, vec![5, 1], vec![3, 2]),
    };
    assert!(ballot(5, 3).is_countable());
    assert!(ballot(5, 2).is_countable());
    assert!(!ballot(5, 1).is_countable());
    assert!(ballot(1, 2).is_countable());
    assert!(!ballot(1, 0).is_countable());
    assert!(ballot(7, 0).is_countable());
    assert!(ballot(7, u64::MAX - 1).is_countable());
    assert!(!ballot(7, u64::MAX).is_countable());
}
