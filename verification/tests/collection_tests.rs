use consensus_bft::collection::{ProposalCollector, StepCollector, VoteCollector, VoteSet, CACHE_NUMBER};
use consensus_bft::core_types::BftVote;
use consensus_bft::types::{Proof, Proposal, SignedProposal, SignedVote, Vote, VoteType};

fn bft_vote(t: VoteType, h: u64, r: u64, voter: u8) -> BftVote {
    BftVote { vote_type: t, height: h, round: r, proposal: vec![0xaa], voter: vec![voter] }
}

fn signed(v: &BftVote, sig: u8) -> SignedVote {
    SignedVote { vote: Vote::from_bft_vote(v.clone(), v.vote_type), signature: vec![sig] }
}

#[test]
fn vote_set_keeps_the_first_signed_vote() {
    let mut s = VoteSet::new();
    let v = bft_vote(VoteType::Prevote, 1, 0, 1);
    assert!(s.get(&v).is_none());
    assert!(s.add(&v, &signed(&v, 10)));
    assert!(!s.add(&v, &signed(&v, 11)));
    assert_eq!(s.get(&v).unwrap().signature, vec![10]);
    assert_eq!(s.vote_pair.len(), 1);
    let w = bft_vote(VoteType::Prevote, 1, 0, 2);
    assert!(s.add(&w, &signed(&w, 12)));
    assert_eq!(s.copy().vote_pair.len(), 2);
}

#[test]
fn step_collector_separates_vote_types() {
    let mut sc = StepCollector::new();
    let v = bft_vote(VoteType::Prevote, 1, 0, 1);
    assert!(sc.add(VoteType::Prevote, &v, &signed(&v, 1)));
    assert!(sc.get_vote_set(VoteType::Precommit).is_none());
    assert_eq!(sc.get_vote_set(VoteType::Prevote).unwrap().vote_pair.len(), 1);
}

#[test]
fn vote_collector_gives_back_what_was_added() {
    let mut vc = VoteCollector::new();
    let v = bft_vote(VoteType::Precommit, 5, 2, 1);
    assert!(vc.get_vote_set(5, 2, VoteType::Precommit).is_none());
    assert!(vc.add(5, 2, VoteType::Precommit, &v, &signed(&v, 3)));
    // the same vote again is not added
    assert!(!vc.add(5, 2, VoteType::Precommit, &v, &signed(&v, 4)));
    let set = vc.get_vote_set(5, 2, VoteType::Precommit).unwrap();
    assert_eq!(set.get(&v).unwrap().signature, vec![3]);
    assert!(vc.get_vote_set(5, 2, VoteType::Prevote).is_none());
    assert!(vc.get_vote_set(5, 3, VoteType::Precommit).is_none());
    assert!(vc.get_vote_set(6, 2, VoteType::Precommit).is_none());
}

#[test]
fn vote_collector_forgets_the_least_recent_height() {
    let mut vc = VoteCollector::new();
    for h in 0..(CACHE_NUMBER as u64 + 1) {
        let v = bft_vote(VoteType::Prevote, h, 0, 1);
        assert!(vc.add(h, 0, VoteType::Prevote, &v, &signed(&v, 1)));
    }
    assert!(vc.get_vote_set(0, 0, VoteType::Prevote).is_none());
    assert!(vc.get_vote_set(1, 0, VoteType::Prevote).is_some());
    assert!(vc.get_vote_set(CACHE_NUMBER as u64, 0, VoteType::Prevote).is_some());
}

fn proposal(h: u64, r: u64, tag: u8) -> SignedProposal {
    SignedProposal {
        proposal: Proposal {
            height: h,
            round: r,
            content: vec![tag],
            proof: Proof { block_hash: vec![], height: 0, round: 0, precommit_votes: vec![] },
            lock_round: None,
            lock_votes: vec![],
            proposer: vec![1],
        },
        signature: vec![tag],
    }
}

#[test]
fn proposal_collector_keeps_the_first_proposal_of_a_round() {
    let mut pc = ProposalCollector::new();
    assert!(pc.add(3, 0, &proposal(3, 0, 1)));
    assert!(!pc.add(3, 0, &proposal(3, 0, 2)));
    assert!(pc.add(3, 1, &proposal(3, 1, 3)));
    assert!(pc.add(4, 0, &proposal(4, 0, 4)));
}

#[test]
fn reading_a_vote_set_changes_no_set() {
    let mut vc = VoteCollector::new();
    for (h, r, voter) in [(1u64, 0u64, 1u8), (1, 1, 2), (2, 0, 3), (2, 0, 4)] {
        let v = bft_vote(VoteType::Prevote, h, r, voter);
        vc.add(h, r, VoteType::Prevote, &v, &signed(&v, voter));
    }
    for _ in 0..3 {
        assert_eq!(vc.get_vote_set(1, 0, VoteType::Prevote).unwrap().vote_pair.len(), 1);
        assert_eq!(vc.get_vote_set(1, 1, VoteType::Prevote).unwrap().vote_pair.len(), 1);
        assert_eq!(vc.get_vote_set(2, 0, VoteType::Prevote).unwrap().vote_pair.len(), 2);
        assert!(vc.get_vote_set(2, 1, VoteType::Prevote).is_none());
    }
}
