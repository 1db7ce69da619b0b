use consensus_bft::error::ConsensusError;
use consensus_bft::rlp_decode::{decode_signed_proposal, decode_signed_vote};
use consensus_bft::types::{Proof, Proposal, SignedProposal, SignedVote, Vote, VoteType};

fn signed_vote(t: VoteType, h: u64, proposal: Vec<u8>, sig: Vec<u8>) -> SignedVote {
    SignedVote {
        vote: Vote { vote_type: t, height: h, round: 3, proposal, voter: vec![1, 2, 3] },
        signature: sig,
    }
}

fn same_vote(a: &SignedVote, b: &SignedVote) -> bool {
    a.vote.vote_type == b.vote.vote_type
        && a.vote.height == b.vote.height
        && a.vote.round == b.vote.round
        && a.vote.proposal == b.vote.proposal
        && a.vote.voter == b.vote.voter
        && a.signature == b.signature
}

#[test]
fn a_signed_vote_reads_back() {
    for sv in [
        signed_vote(VoteType::Prevote, 0, vec![], vec![]),
        signed_vote(VoteType::Precommit, 0x1234_5678, vec![0xaa; 70], vec![0, 0x7f, 0x80, 0xff]),
        signed_vote(VoteType::Prevote, u64::MAX, vec![5], vec![9; 65]),
    ] {
        let back = decode_signed_vote(&sv.rlp_bytes()).unwrap();
        assert!(same_vote(&back, &sv));
    }
}

#[test]
fn malformed_signed_votes_are_refused() {
    let sv = signed_vote(VoteType::Prevote, 7, vec![1], vec![2]);
    let mut bytes = sv.rlp_bytes();
    assert_eq!(decode_signed_vote(&[]).unwrap_err(), ConsensusError::DecodeErr);
    assert_eq!(decode_signed_vote(&bytes[..bytes.len() - 1]).unwrap_err(), ConsensusError::DecodeErr);
    bytes.push(0x01);
    assert_eq!(decode_signed_vote(&bytes).unwrap_err(), ConsensusError::DecodeErr);
    // a vote type code that stands for no type
    let mut bad = sv.rlp_bytes();
    bad[0] = 0x02;
    assert_eq!(decode_signed_vote(&bad).unwrap_err(), ConsensusError::DecodeErr);
}

fn sample_proof() -> Proof {
    Proof { block_hash: vec![7], height: 4, round: 0, precommit_votes: vec![(vec![1], vec![2])] }
}

fn signed_proposal(lock: Option<u64>, lock_votes: Vec<SignedVote>) -> SignedProposal {
    SignedProposal {
        proposal: Proposal {
            height: 5,
            round: 1,
            content: vec![0xc0, 0xff, 0xee],
            proof: sample_proof(),
            lock_round: lock,
            lock_votes,
            proposer: vec![4; 20],
        },
        signature: vec![0x10, 0x90],
    }
}

#[test]
fn an_unlocked_signed_proposal_reads_back_without_its_proof() {
    let sp = signed_proposal(None, vec![]);
    let back = decode_signed_proposal(&sp.rlp_bytes()).unwrap();
    assert_eq!(back.proposal.height, 5);
    assert_eq!(back.proposal.round, 1);
    assert_eq!(back.proposal.content, vec![0xc0, 0xff, 0xee]);
    assert_eq!(back.proposal.lock_round, None);
    assert!(back.proposal.lock_votes.is_empty());
    assert_eq!(back.proposal.proposer, vec![4; 20]);
    assert_eq!(back.signature, vec![0x10, 0x90]);
    assert!(back.proposal.proof.precommit_votes.is_empty());
    assert_eq!(back.proposal.proof.height, 0);
    assert_eq!(back.rlp_bytes(), sp.rlp_bytes());
}

#[test]
fn a_locked_signed_proposal_reads_back_with_its_lock_votes() {
    let votes = vec![
        signed_vote(VoteType::Prevote, 5, vec![0xc0, 0xff, 0xee], vec![1]),
        signed_vote(VoteType::Prevote, 5, vec![0xc0, 0xff, 0xee], vec![2, 3]),
    ];
    let sp = signed_proposal(Some(0), votes.clone());
    let back = decode_signed_proposal(&sp.rlp_bytes()).unwrap();
    assert_eq!(back.proposal.lock_round, Some(0));
    assert_eq!(back.proposal.lock_votes.len(), 2);
    assert!(same_vote(&back.proposal.lock_votes[0], &votes[0]));
    assert!(same_vote(&back.proposal.lock_votes[1], &votes[1]));
    assert_eq!(back.rlp_bytes(), sp.rlp_bytes());
    // locked with no votes
    let sp = signed_proposal(Some(2), vec![]);
    let back = decode_signed_proposal(&sp.rlp_bytes()).unwrap();
    assert_eq!(back.proposal.lock_round, Some(2));
    assert!(back.proposal.lock_votes.is_empty());
}

#[test]
fn malformed_signed_proposals_are_refused() {
    let bytes = signed_proposal(None, vec![]).rlp_bytes();
    assert_eq!(decode_signed_proposal(&bytes[..3]).unwrap_err(), ConsensusError::DecodeErr);
    let mut longer = bytes.clone();
    longer.extend_from_slice(&[0x01, 0x02, 0x03]);
    assert_eq!(decode_signed_proposal(&longer).unwrap_err(), ConsensusError::DecodeErr);
    assert_eq!(decode_signed_proposal(&[0xff]).unwrap_err(), ConsensusError::DecodeErr);
}
