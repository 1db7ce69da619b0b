use consensus_bft::error::ConsensusError;
use consensus_bft::types::{Node, Proof};
use consensus_bft::util::{
    bytes_eq, check_proof, combine, contains_address, decode_block, decode_signed_proposal_frame,
    encode_block, extract, get_total_weight, get_votes_weight,
};

#[test]
fn combine_prefixes_the_first_length() {
    let e = combine(&[1, 2, 3], &[9]);
    assert_eq!(e, vec![0, 0, 0, 0, 0, 0, 0, 3, 1, 2, 3, 9]);
}

#[test]
fn extract_gives_back_what_combine_framed() {
    let first = vec![7u8; 300];
    let second = vec![1u8, 2, 3, 4];
    let e = combine(&first, &second);
    let (a, b) = extract(&e).unwrap();
    assert_eq!(a, &first[..]);
    assert_eq!(b, &second[..]);
}

#[test]
fn extract_of_empty_parts() {
    let e = combine(&[], &[]);
    assert_eq!(e.len(), 8);
    let (a, b) = extract(&e).unwrap();
    assert!(a.is_empty());
    assert!(b.is_empty());
}

#[test]
fn extract_refuses_short_frames() {
    assert_eq!(extract(&[0, 0, 0]), Err(ConsensusError::DecodeErr));
    // announces 5 bytes, holds 2
    assert_eq!(extract(&[0, 0, 0, 0, 0, 0, 0, 5, 1, 2]), Err(ConsensusError::DecodeErr));
}

#[test]
fn encode_block_frames_height_hash_and_block() {
    let e = encode_block(0x0102, &[0xaa, 0xbb], &[0x11]);
    assert_eq!(
        e,
        vec![0, 0, 0, 0, 0, 0, 1, 2, 0, 0, 0, 0, 0, 0, 0, 1, 0x11, 0xaa, 0xbb]
    );
}

#[test]
fn decode_block_gives_back_what_encode_block_framed() {
    let e = encode_block(42, &[5, 6, 7], &[8, 9]);
    let (h, block, hash) = decode_block(&e).unwrap();
    assert_eq!(h, 42);
    assert_eq!(block, vec![5, 6, 7]);
    assert_eq!(hash, vec![8, 9]);
}

#[test]
fn decode_block_refuses_an_incomplete_frame() {
    let mut e = encode_block(3, &[], &[1, 2, 3]);
    e.truncate(e.len() - 1);
    assert_eq!(decode_block(&e), Err(ConsensusError::DecodeErr));
}

#[test]
fn signed_proposal_frame_splits_into_its_parts() {
    let block_frame = encode_block(9, &[0xb1], &[0xc1, 0xc2]);
    let frame = combine(&[0x51, 0x52], &block_frame);
    let (sp, h, block, hash) = decode_signed_proposal_frame(&frame).unwrap();
    assert_eq!(sp, vec![0x51, 0x52]);
    assert_eq!(h, 9);
    assert_eq!(block, vec![0xb1]);
    assert_eq!(hash, vec![0xc1, 0xc2]);
    assert_eq!(decode_signed_proposal_frame(&[1, 2]), Err(ConsensusError::DecodeErr));
}

#[test]
fn bytes_eq_and_contains_address() {
    assert!(bytes_eq(&[1, 2], &[1, 2]));
    assert!(!bytes_eq(&[1, 2], &[1, 3]));
    assert!(!bytes_eq(&[1], &[1, 2]));
    let list = vec![vec![1u8], vec![2u8, 3]];
    assert!(contains_address(&list, &[2, 3]));
    assert!(!contains_address(&list, &[3]));
}

fn weighted(addr: u8, w: u32) -> Node {
    let mut n = Node::new(vec![addr]);
    n.vote_weight = w;
    n
}

#[test]
fn weights_sum_over_the_authorities() {
    let auth = vec![weighted(1, 2), weighted(2, 3), weighted(3, 5)];
    assert_eq!(get_total_weight(&auth), 10);
    assert_eq!(get_votes_weight(&auth, &[vec![1], vec![3]]), 7);
    assert_eq!(get_votes_weight(&auth, &[vec![9]]), 0);
    assert_eq!(get_votes_weight(&auth, &[]), 0);
    // every authority votes: the whole weight
    assert_eq!(get_votes_weight(&auth, &[vec![3], vec![2], vec![1]]), 10);
    assert_eq!(get_total_weight(&[]), 0);
}

fn toy_proof(height: u64, voters: &[u8]) -> Proof {
    Proof {
        block_hash: vec![0xab],
        height,
        round: 0,
        // the signature is the voter's address
        precommit_votes: voters.iter().map(|v| (vec![*v], vec![*v])).collect(),
    }
}

fn toy_hash(m: &[u8]) -> Vec<u8> {
    m.to_vec()
}

fn toy_verify(sig: &[u8], _hash: &[u8]) -> Option<Vec<u8>> {
    Some(sig.to_vec())
}

#[test]
fn check_proof_at_height_zero_needs_nothing() {
    let auth = vec![Node::new(vec![1])];
    assert!(check_proof(&toy_proof(5, &[]), 0, &auth, toy_hash, toy_verify));
}

#[test]
fn check_proof_accepts_two_thirds_of_signed_authorities() {
    let auth = vec![Node::new(vec![1]), Node::new(vec![2]), Node::new(vec![3])];
    assert!(check_proof(&toy_proof(4, &[1, 2, 3]), 5, &auth, toy_hash, toy_verify));
}

#[test]
fn check_proof_refuses_the_wrong_height() {
    let auth = vec![Node::new(vec![1])];
    assert!(!check_proof(&toy_proof(4, &[1]), 4, &auth, toy_hash, toy_verify));
}

#[test]
fn check_proof_refuses_too_little_weight() {
    let auth = vec![Node::new(vec![1]), Node::new(vec![2]), Node::new(vec![3])];
    // two of three is not more than two thirds
    assert!(!check_proof(&toy_proof(4, &[1, 2]), 5, &auth, toy_hash, toy_verify));
}

#[test]
fn check_proof_refuses_a_bad_signature_or_a_stranger() {
    let auth = vec![Node::new(vec![1]), Node::new(vec![2])];
    let never = |_s: &[u8], _h: &[u8]| -> Option<Vec<u8>> { None };
    assert!(!check_proof(&toy_proof(0, &[1, 2]), 1, &auth, toy_hash, never));
    let mut p = toy_proof(0, &[1, 2]);
    p.precommit_votes.push((vec![7], vec![7]));
    assert!(!check_proof(&p, 1, &auth, toy_hash, toy_verify));
}
