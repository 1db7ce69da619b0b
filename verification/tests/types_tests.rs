use consensus_bft::core_types::BftVote;
use consensus_bft::util::into_addr_set;
use consensus_bft::types::{
    AuthorityManage, Node, Proof, Proposal, SignedVote, Status, Vote, VoteType,
    INIT_HEIGHT,
};

#[test]
fn node_new_has_unit_weights() {
    let n = Node::new(vec![1, 2, 3]);
    assert_eq!(n.address, vec![1, 2, 3]);
    assert_eq!(n.proposal_weight, 1);
    assert_eq!(n.vote_weight, 1);
    assert_eq!(n.get_address(), vec![1, 2, 3]);
}

#[test]
fn into_addr_set_keeps_the_order() {
    let nodes = vec![Node::new(vec![3]), Node::new(vec![1]), Node::new(vec![2])];
    assert_eq!(into_addr_set(&nodes), vec![vec![3], vec![1], vec![2]]);
    assert!(into_addr_set(&[]).is_empty());
}

#[test]
fn vote_type_codes() {
    let p: u8 = VoteType::Prevote.into();
    let c: u8 = VoteType::Precommit.into();
    assert_eq!(p, 0);
    assert_eq!(c, 1);
}

#[test]
fn status_to_bft_status_lists_addresses() {
    let st = Status {
        height: 7,
        interval: Some(3000),
        authority_list: vec![Node::new(vec![1]), Node::new(vec![2])],
    };
    let b = st.to_bft_status();
    assert_eq!(b.height, 7);
    assert_eq!(b.interval, Some(3000));
    assert_eq!(b.authority_list, vec![vec![1], vec![2]]);
}

#[test]
fn authority_manage_keeps_the_old_list_for_its_height() {
    let mut a = AuthorityManage::default();
    assert!(a.authorities.is_empty());
    assert_eq!(a.authority_h_old, INIT_HEIGHT);
    a.update_authority(1, vec![Node::new(vec![1])]);
    a.update_authority(5, vec![Node::new(vec![2])]);
    assert_eq!(a.authorities_at(5)[0].address, vec![1]);
    assert_eq!(a.authorities_at(6)[0].address, vec![2]);
    assert_eq!(a.authorities_at(1)[0].address, vec![2]);
}

fn bft_vote(t: VoteType, h: u64, r: u64) -> BftVote {
    BftVote { vote_type: t, height: h, round: r, proposal: vec![0xaa], voter: vec![1] }
}

#[test]
fn vote_converts_to_and_from_the_core() {
    let v = Vote::from_bft_vote(bft_vote(VoteType::Prevote, 3, 1), VoteType::Precommit);
    assert_eq!(v.vote_type, VoteType::Precommit);
    assert_eq!(v.height, 3);
    assert_eq!(v.round, 1);
    let b = v.to_bft_vote();
    assert_eq!(b.vote_type, VoteType::Precommit);
    assert_eq!(b.proposal, vec![0xaa]);
    assert_eq!(b.voter, vec![1]);
}

fn empty_proof() -> Proof {
    Proof { block_hash: vec![], height: 0, round: 0, precommit_votes: vec![] }
}

#[test]
fn unlocked_proposal_sends_no_lock_votes_to_the_core() {
    let sv = SignedVote {
        vote: Vote::from_bft_vote(bft_vote(VoteType::Prevote, 2, 0), VoteType::Prevote),
        signature: vec![1],
    };
    let mut p = Proposal {
        height: 2,
        round: 0,
        content: vec![0xcc],
        proof: empty_proof(),
        lock_round: None,
        lock_votes: vec![sv],
        proposer: vec![1],
    };
    let b = p.to_bft_proposal(vec![0xdd]);
    assert_eq!(b.content, vec![0xdd]);
    assert!(b.lock_votes.is_empty());
    p.lock_round = Some(0);
    let b = p.to_bft_proposal(vec![0xdd]);
    assert_eq!(b.lock_round, Some(0));
    assert_eq!(b.lock_votes.len(), 1);
    assert_eq!(b.lock_votes[0].height, 2);
    assert_eq!(b.proposer, vec![1]);
}
