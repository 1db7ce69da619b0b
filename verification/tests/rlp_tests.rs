use consensus_bft::types::{Proof, Proposal, SignedProposal, SignedVote, Vote, VoteType};

fn vote() -> Vote {
    Vote {
        vote_type: VoteType::Prevote,
        height: 1,
        round: 0,
        proposal: vec![0xaa],
        voter: vec![1, 2, 3],
    }
}

#[test]
fn vote_encoding_bytes() {
    assert_eq!(
        vote().rlp_bytes(),
        vec![0x80, 0x01, 0x80, 0x81, 0xaa, 0x83, 1, 2, 3]
    );
    let mut v = vote();
    v.vote_type = VoteType::Precommit;
    v.height = 0x0100;
    assert_eq!(
        v.rlp_bytes(),
        vec![0x01, 0x82, 0x01, 0x00, 0x80, 0x81, 0xaa, 0x83, 1, 2, 3]
    );
}

#[test]
fn signed_vote_encoding_lists_the_signature_bytes() {
    let sv = SignedVote { vote: vote(), signature: vec![5, 0x90] };
    let mut expected = vote().rlp_bytes();
    expected.extend_from_slice(&[0xc3, 5, 0x81, 0x90]);
    assert_eq!(sv.rlp_bytes(), expected);
}

#[test]
fn long_string_uses_a_length_of_length() {
    let mut v = vote();
    v.proposal = vec![0x11; 60];
    let bytes = v.rlp_bytes();
    assert_eq!(&bytes[3..5], &[0xb8, 60]);
    assert_eq!(bytes.len(), 3 + 2 + 60 + 4);
}

fn sample_proof() -> Proof {
    Proof { block_hash: vec![0x10], height: 2, round: 1, precommit_votes: vec![(vec![7], vec![0x99])] }
}

#[test]
fn proof_encoding_bytes() {
    assert_eq!(sample_proof().rlp_bytes(), vec![0x10, 0x02, 0x01, 0x07, 0x81, 0x99]);
}

#[test]
fn proposal_encoding_with_and_without_lock() {
    let mut p = Proposal {
        height: 3,
        round: 0,
        content: vec![0x20],
        proof: sample_proof(),
        lock_round: None,
        lock_votes: vec![],
        proposer: vec![9],
    };
    assert_eq!(p.rlp_bytes(), vec![0x03, 0x80, 0x20, 0x09]);
    p.lock_round = Some(2);
    p.lock_votes = vec![SignedVote { vote: vote(), signature: vec![1] }];
    let sv = SignedVote { vote: vote(), signature: vec![1] }.rlp_bytes();
    // the frame holds the lock votes as one list of their encodings
    let mut expected = vec![0x03, 0x80, 0x20, 0x02, 0xc0 + sv.len() as u8];
    expected.extend_from_slice(&sv);
    expected.push(0x09);
    assert_eq!(p.frame_bytes(), expected);
    // the signed bytes close the list of one item after the vote type
    let mut signed = vec![0x03, 0x80, 0x20, 0x02, 0xc1];
    signed.extend_from_slice(&sv);
    signed.push(0x09);
    assert_eq!(p.rlp_bytes(), signed);
    let sp = SignedProposal { proposal: p.clone(), signature: vec![0x01, 0x02] };
    let mut expected_sp = p.frame_bytes();
    expected_sp.extend_from_slice(&[0xc2, 0x01, 0x02]);
    assert_eq!(sp.rlp_bytes(), expected_sp);
}

#[test]
fn signed_lock_votes_follow_the_rlp_stream() {
    // two lock votes: the list of two items holds the first vote's type and
    // height; everything after them follows unlisted
    let a = SignedVote { vote: vote(), signature: vec![1] };
    let b = SignedVote { vote: vote(), signature: vec![2, 3] };
    let p = Proposal {
        height: 3,
        round: 0,
        content: vec![0x20],
        proof: sample_proof(),
        lock_round: Some(1),
        lock_votes: vec![a.clone(), b.clone()],
        proposer: vec![9],
    };
    let va = a.rlp_bytes();
    let vb = b.rlp_bytes();
    let first_two = 2;
    let mut expected = vec![0x03, 0x80, 0x20, 0x01, 0xc0 + first_two as u8];
    expected.extend_from_slice(&va[..first_two]);
    expected.extend_from_slice(&va[first_two..]);
    expected.extend_from_slice(&vb);
    expected.push(0x09);
    assert_eq!(p.rlp_bytes(), expected);
}

struct StreamVote(Vote, Vec<u8>);

impl rlp::Encodable for StreamVote {
    fn rlp_append(&self, s: &mut rlp::RlpStream) {
        let code: u8 = if self.0.vote_type == VoteType::Prevote { 0 } else { 1 };
        s.append(&code)
            .append(&self.0.height)
            .append(&self.0.round)
            .append(&self.0.proposal)
            .append(&self.0.voter);
    }
}

struct StreamSignedVote(Vote, Vec<u8>);

impl rlp::Encodable for StreamSignedVote {
    fn rlp_append(&self, s: &mut rlp::RlpStream) {
        s.append(&StreamVote(self.0.clone(), vec![])).append_list::<u8, u8>(&self.1);
    }
}

struct StreamProposal(Proposal);

impl rlp::Encodable for StreamProposal {
    fn rlp_append(&self, s: &mut rlp::RlpStream) {
        let p = &self.0;
        s.append(&p.height).append(&p.round).append(&p.content);
        if let Some(lock_round) = p.lock_round {
            let votes: Vec<StreamSignedVote> = p
                .lock_votes
                .iter()
                .map(|v| StreamSignedVote(v.vote.clone(), v.signature.clone()))
                .collect();
            s.append(&lock_round).append_list::<StreamSignedVote, StreamSignedVote>(&votes);
        }
        s.append(&p.proposer);
    }
}

#[test]
fn signed_proposal_bytes_are_those_of_the_rlp_stream() {
    for n in 0..10usize {
        let votes: Vec<SignedVote> = (0..n)
            .map(|i| SignedVote {
                vote: Vote {
                    vote_type: if i % 2 == 0 { VoteType::Prevote } else { VoteType::Precommit },
                    height: 300 + i as u64,
                    round: i as u64,
                    proposal: vec![0xaa; i + 1],
                    voter: vec![i as u8; 20],
                },
                signature: vec![0x90 + i as u8; i],
            })
            .collect();
        let p = Proposal {
            height: 77,
            round: 2,
            content: vec![0x20; 32],
            proof: sample_proof(),
            lock_round: Some(1),
            lock_votes: votes,
            proposer: vec![9; 20],
        };
        let expected = rlp::encode(&StreamProposal(p.clone())).to_vec();
        assert_eq!(p.rlp_bytes(), expected);
    }
}

#[test]
fn signed_vote_bytes_are_those_of_the_rlp_stream() {
    for n in 0..60usize {
        let v = Vote {
            vote_type: VoteType::Precommit,
            height: n as u64 * 1000,
            round: n as u64,
            proposal: vec![0xab; n],
            voter: vec![3; 20],
        };
        let sv = SignedVote { vote: v.clone(), signature: vec![0x80 + (n % 100) as u8; n] };
        assert_eq!(sv.rlp_bytes(), rlp::encode(&StreamSignedVote(v, sv.signature.clone())).to_vec());
    }
}
