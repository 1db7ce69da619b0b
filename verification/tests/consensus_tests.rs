use consensus_bft::consensus::{Action, Consensus};
use consensus_bft::core_types::{BftCommit, BftProposal, BftVote, CoreInput, CoreOutput};
use consensus_bft::error::ConsensusError;
use consensus_bft::types::{
    Address, AsyncMsg, Commit, OutputView, ConsensusInput, ConsensusOutput, Feed, Node, Proof, Proposal, SignedProposal,
    SignedVote, Status, VerifyResp, Vote, VoteType,
};
use consensus_bft::util::{combine, decode_signed_proposal_frame, encode_block};
use consensus_bft::wal::{WalEntry, LOG_TYPE_SIGNED_PROPOSAL, LOG_TYPE_VOTE};
use consensus_bft::{ConsensusSupport, Content};
use vstd::seq::Seq;

#[derive(Clone, Debug, PartialEq)]
struct Block(Vec<u8>);

// The relations below are read by the verifier only; a test never evaluates
// them.
impl Content for Block {
    type Error = ();

    fn encodes_to(&self, _bytes: Seq<u8>) -> bool {
        true
    }

    fn decodes_to(_bytes: Seq<u8>, _block: Self) -> bool {
        true
    }

    fn hashes_to(&self, _hash: Seq<u8>) -> bool {
        true
    }

    fn encode(self) -> Result<Vec<u8>, ()> {
        Ok(self.0)
    }

    fn decode(bytes: &[u8]) -> Result<Self, ()> {
        Ok(Block(bytes.to_vec()))
    }

    fn hash(&self) -> Vec<u8> {
        let mut h = vec![0xb0];
        h.extend_from_slice(&self.0);
        h
    }
}

/// A node whose signature is its address, and whose hash is the message;
/// with `blind` set, no signature recovers anybody.
struct Support {
    address: Address,
    sign_ok: bool,
    blind: bool,
    reject: bool,
    sent: std::cell::RefCell<Vec<ConsensusOutput<Block>>>,
}

impl ConsensusSupport<Block> for Support {
    type Error = ();

    fn hash_of(&self, msg: Seq<u8>) -> Seq<u8> {
        msg
    }

    fn signs(&self, _hash: Seq<u8>, _signature: Seq<u8>) -> bool {
        true
    }

    fn transmits(&self, _msg: OutputView<Block>, _ok: bool) -> bool {
        true
    }

    fn commits(&self, _commit: Commit<Block>, _ok: bool) -> bool {
        true
    }

    fn check_outcome(
        &self,
        _block_hash: Seq<u8>,
        _block: Block,
        _signed_proposal_hash: Seq<u8>,
        _height: u64,
        _is_lock: bool,
        _pass: bool,
    ) -> bool {
        true
    }

    fn recovered(&self, signature: Seq<u8>, _hash: Seq<u8>) -> Option<Seq<u8>> {
        if self.blind {
            None
        } else {
            Some(signature)
        }
    }

    fn get_content(&self, _height: u64) -> Result<Block, ()> {
        Ok(Block(vec![0x77]))
    }

    fn transmit(&self, msg: ConsensusOutput<Block>) -> Result<(), ()> {
        self.sent.borrow_mut().push(msg);
        Ok(())
    }

    fn check_proposal(
        &self,
        _block_hash: &[u8],
        _block: &Block,
        _signed_proposal_hash: &[u8],
        _height: u64,
        _is_lock: bool,
    ) -> Result<(), ()> {
        if self.reject {
            Err(())
        } else {
            Ok(())
        }
    }

    fn commit(&self, commit: Commit<Block>) -> Result<Status, ()> {
        Ok(Status {
            height: commit.height,
            interval: None,
            authority_list: vec![Node::new(self.address.clone())],
        })
    }

    fn sign(&self, _hash: &[u8]) -> Result<Vec<u8>, ()> {
        if self.sign_ok {
            Ok(self.address.clone())
        } else {
            Err(())
        }
    }

    fn verify_signature(&self, signature: &[u8], _hash: &[u8]) -> Result<Address, ()> {
        if self.blind {
            Err(())
        } else {
            Ok(signature.to_vec())
        }
    }

    fn hash(&self, msg: &[u8]) -> Vec<u8> {
        msg.to_vec()
    }
}

const A: u8 = 0xa1;
const B: u8 = 0xb2;
const C: u8 = 0xc3;

fn support() -> Support {
    Support { address: vec![A], sign_ok: true, blind: false, reject: false, sent: Default::default() }
}

fn status(height: u64, auth: &[u8]) -> Status {
    Status {
        height,
        interval: Some(3000),
        authority_list: auth.iter().map(|a| Node::new(vec![*a])).collect(),
    }
}

/// A service at height 1 whose authorities are A and B.
fn started() -> (Consensus<Block>, Vec<Action<Block>>) {
    let mut c = Consensus::new(vec![A]);
    let mut out = Vec::new();
    c.receive_status(&support(), status(0, &[A, B]), &mut out).unwrap();
    (c, out)
}

fn signed_vote(t: VoteType, h: u64, r: u64, hash: &[u8], voter: u8, sig: &[u8]) -> SignedVote {
    SignedVote {
        vote: Vote { vote_type: t, height: h, round: r, proposal: hash.to_vec(), voter: vec![voter] },
        signature: sig.to_vec(),
    }
}

fn bft_vote(t: VoteType, h: u64, r: u64, hash: &[u8], voter: u8) -> BftVote {
    BftVote { vote_type: t, height: h, round: r, proposal: hash.to_vec(), voter: vec![voter] }
}

#[test]
fn a_new_service_waits_at_the_initial_height() {
    let c: Consensus<Block> = Consensus::new(vec![A]);
    assert_eq!(c.height, 0);
    assert_eq!(c.address, vec![A]);
    assert!(!c.consensus_power);
    assert!(c.proof.is_none());
    assert!(c.block.is_none());
    assert!(c.authority.authorities.is_empty());
}

#[test]
fn a_status_moves_past_its_height_and_starts_an_authority() {
    let (c, out) = started();
    assert_eq!(c.height, 1);
    assert!(c.consensus_power);
    assert_eq!(out.len(), 2);
    assert!(matches!(out[0], Action::Core(CoreInput::Start)));
    match &out[1] {
        Action::Core(CoreInput::Status(st)) => {
            assert_eq!(st.height, 0);
            assert_eq!(st.interval, Some(3000));
            assert_eq!(st.authority_list, vec![vec![A], vec![B]]);
        }
        _ => panic!("expected a status for the core"),
    }
}

#[test]
fn an_obsolete_status_is_refused_and_changes_nothing() {
    let (mut c, _) = started();
    let mut out = Vec::new();
    assert_eq!(
        c.receive_status(&support(), status(0, &[B]), &mut out),
        Err(ConsensusError::ObsoleteMsg)
    );
    assert_eq!(c.height, 1);
    assert!(out.is_empty());
    assert_eq!(c.authority.authorities.len(), 2);
}

#[test]
fn a_status_without_this_node_pauses_the_core() {
    let (mut c, _) = started();
    let mut out = Vec::new();
    c.receive_status(&support(), status(1, &[B]), &mut out).unwrap();
    assert_eq!(c.height, 2);
    assert!(!c.consensus_power);
    assert!(matches!(out[0], Action::Core(CoreInput::Pause)));
    // the old list holds at the height where it changed
    assert_eq!(c.authority.authorities_at(1).len(), 2);
    assert_eq!(c.authority.authorities_at(2).len(), 1);
}

#[test]
fn the_proposer_takes_turns() {
    let (c, _) = started();
    assert_eq!(c.check_proposer(1, 0, &[B]), Ok(()));
    assert_eq!(c.check_proposer(1, 0, &[A]), Err(ConsensusError::InvalidProposer));
    assert_eq!(c.check_proposer(1, 1, &[A]), Ok(()));
    let fresh: Consensus<Block> = Consensus::new(vec![A]);
    assert_eq!(fresh.check_proposer(1, 0, &[A]), Err(ConsensusError::NoAuthorityList));
}

#[test]
fn vote_senders_must_be_authorities() {
    let (c, _) = started();
    assert_eq!(c.check_vote_sender(1, &[B]), Ok(()));
    assert_eq!(c.check_vote_sender(1, &[C]), Err(ConsensusError::InvalidVoter));
}

#[test]
fn a_signed_vote_of_an_authority_goes_to_the_core() {
    let (mut c, _) = started();
    let mut out = Vec::new();
    let sv = signed_vote(VoteType::Prevote, 1, 0, &[0x11], B, &[B]);
    c.receive_signed_vote(&support(), sv, &mut out).unwrap();
    assert_eq!(out.len(), 1);
    match &out[0] {
        Action::Core(CoreInput::Vote(v)) => {
            assert_eq!(v.voter, vec![B]);
            assert_eq!(v.height, 1);
        }
        _ => panic!("expected a vote for the core"),
    }
    let set = c.votes.get_vote_set(1, 0, VoteType::Prevote).unwrap();
    assert_eq!(set.vote_pair.len(), 1);
}

#[test]
fn signed_votes_are_refused_for_each_fault() {
    let (mut c, _) = started();
    let mut out = Vec::new();
    let s = support();
    // a signature that recovers nobody
    let blind = Support { address: vec![A], sign_ok: true, blind: true, reject: false, sent: Default::default() };
    let sv = signed_vote(VoteType::Prevote, 1, 0, &[1], B, &[B]);
    assert_eq!(c.handle_signed_vote(&blind, sv).unwrap_err(), ConsensusError::SupportErr);
    // a signature by another node
    let sv = signed_vote(VoteType::Prevote, 1, 0, &[1], B, &[C]);
    assert_eq!(c.receive_signed_vote(&s, sv, &mut out), Err(ConsensusError::SignatureErr));
    // a voter that is no authority
    let sv = signed_vote(VoteType::Prevote, 1, 0, &[1], C, &[C]);
    assert_eq!(c.receive_signed_vote(&s, sv, &mut out), Err(ConsensusError::InvalidVoter));
    assert!(out.is_empty());
}

#[test]
fn a_future_vote_is_cached_and_handled_at_its_height() {
    let (mut c, _) = started();
    let s = support();
    let mut out = Vec::new();
    let sv = signed_vote(VoteType::Precommit, 3, 0, &[2], B, &[B]);
    assert_eq!(c.receive_signed_vote(&s, sv, &mut out), Err(ConsensusError::FutureMsg));
    assert_eq!(c.vote_cache.len(), 1);
    assert!(out.is_empty());
    c.receive_status(&s, status(2, &[A, B]), &mut out).unwrap();
    assert_eq!(c.height, 3);
    assert!(c.vote_cache.is_empty());
    assert!(matches!(out.last(), Some(Action::Core(CoreInput::Vote(_)))));
    assert!(c.votes.get_vote_set(3, 0, VoteType::Precommit).is_some());
}

#[test]
fn an_obsolete_vote_is_refused() {
    let (mut c, _) = started();
    let s = support();
    let mut out = Vec::new();
    c.receive_status(&s, status(4, &[A, B]), &mut out).unwrap();
    let sv = signed_vote(VoteType::Prevote, 1, 0, &[1], B, &[B]);
    assert_eq!(c.handle_signed_vote(&s, sv).unwrap_err(), ConsensusError::ObsoleteMsg);
}

#[test]
fn this_node_signs_and_keeps_its_votes() {
    let (mut c, _) = started();
    let sv = c.handle_vote(&support(), bft_vote(VoteType::Prevote, 1, 0, &[9], A)).unwrap();
    assert_eq!(sv.signature, vec![A]);
    assert_eq!(sv.vote.proposal, vec![9]);
    let set = c.votes.get_vote_set(1, 0, VoteType::Prevote).unwrap();
    assert_eq!(set.vote_pair.len(), 1);
    assert_eq!(
        c.handle_vote(&support(), bft_vote(VoteType::Prevote, 0, 0, &[9], A)).unwrap_err(),
        ConsensusError::BftCoreErr
    );
    let failing = Support { address: vec![A], sign_ok: false, blind: false, reject: false, sent: Default::default() };
    assert_eq!(
        c.handle_vote(&failing, bft_vote(VoteType::Precommit, 1, 0, &[9], A)).unwrap_err(),
        ConsensusError::SupportErr
    );
    assert!(c.votes.get_vote_set(1, 0, VoteType::Precommit).is_none());
}

#[test]
fn a_block_of_a_height_goes_to_the_core_as_a_feed() {
    let (mut c, _) = started();
    let mut out = Vec::new();
    let block = Block(vec![1, 2]);
    c.async_process(AsyncMsg::Feed(Feed { height: 1, content: block.clone() }), &mut out).unwrap();
    match &out[0] {
        Action::Core(CoreInput::Feed(f)) => {
            assert_eq!(f.height, 1);
            assert_eq!(f.proposal, block.hash());
        }
        _ => panic!("expected a feed"),
    }
    assert_eq!(c.block_origin_cache.len(), 1);
    c.async_process(
        AsyncMsg::VerifyResp(VerifyResp { is_pass: true, proposal: block.hash() }),
        &mut out,
    )
    .unwrap();
    assert!(matches!(&out[1], Action::Core(CoreInput::VerifyResp(r)) if r.is_pass));
    assert_eq!(c.verified_block, vec![(block.hash(), true)]);
}

#[test]
fn a_request_for_a_block_asks_the_node() {
    let (mut c, _) = started();
    let mut out = Vec::new();
    assert!(matches!(c.core_process(&support(), CoreOutput::GetProposalRequest(1), &mut out), Ok(None)));
    match &out[0] {
        Action::Async(AsyncMsg::Feed(f)) => {
            assert_eq!(f.height, 1);
            assert_eq!(f.content, Block(vec![0x77]));
        }
        _ => panic!("expected a block of the height"),
    }
}

fn fed(c: &mut Consensus<Block>, block: &Block) {
    let mut out = Vec::new();
    c.async_process(AsyncMsg::Feed(Feed { height: c.height, content: block.clone() }), &mut out)
        .unwrap();
}

#[test]
fn a_commit_carries_the_block_and_the_precommit_proof() {
    let (mut c, _) = started();
    let s = support();
    let block = Block(vec![5]);
    let hash = block.hash();
    fed(&mut c, &block);
    let mine = bft_vote(VoteType::Precommit, 1, 0, &hash, A);
    c.handle_vote(&s, mine.clone()).unwrap();
    let mut out = Vec::new();
    c.receive_signed_vote(&s, signed_vote(VoteType::Precommit, 1, 0, &hash, B, &[B]), &mut out)
        .unwrap();
    let theirs = bft_vote(VoteType::Precommit, 1, 0, &hash, B);
    let commit = BftCommit {
        height: 1,
        round: 0,
        proposal: hash.clone(),
        lock_votes: vec![mine.clone(), theirs.clone()],
        address: vec![A],
    };
    let done = c.handle_commit(commit.clone()).unwrap();
    assert_eq!(done.height, 1);
    assert_eq!(done.result, block);
    assert_eq!(done.proof.block_hash, hash);
    assert_eq!(done.proof.precommit_votes, vec![(vec![A], vec![A]), (vec![B], vec![B])]);
    assert!(c.proof.is_some());
    // the node commits, and the status it gives back is handed out
    let mut out = Vec::new();
    let st = c.core_process(&s, CoreOutput::Commit(commit), &mut out).unwrap().unwrap();
    assert_eq!(st.height, 1);
}

#[test]
fn commits_are_refused_for_each_fault() {
    let (mut c, _) = started();
    let block = Block(vec![5]);
    let hash = block.hash();
    let commit = |h: u64, r: u64, p: &[u8], votes: Vec<BftVote>| BftCommit {
        height: h,
        round: r,
        proposal: p.to_vec(),
        lock_votes: votes,
        address: vec![A],
    };
    assert_eq!(c.handle_commit(commit(0, 0, &hash, vec![])).unwrap_err(), ConsensusError::BftCoreErr);
    assert_eq!(c.handle_commit(commit(1, 0, &hash, vec![])).unwrap_err(), ConsensusError::LoseBlock);
    fed(&mut c, &block);
    assert_eq!(c.handle_commit(commit(1, 0, &hash, vec![])).unwrap_err(), ConsensusError::NoVoteset);
    c.handle_vote(&support(), bft_vote(VoteType::Precommit, 1, 0, &hash, A)).unwrap();
    let stranger = bft_vote(VoteType::Precommit, 1, 0, &hash, B);
    assert_eq!(
        c.handle_commit(commit(1, 0, &hash, vec![stranger])).unwrap_err(),
        ConsensusError::LoseSignedVote
    );
}

#[test]
fn this_node_proposes_a_framed_signed_proposal() {
    let (mut c, _) = started();
    let s = support();
    let block = Block(vec![3, 4]);
    let hash = block.hash();
    let p = BftProposal {
        height: 1,
        round: 1,
        content: hash.clone(),
        lock_round: None,
        lock_votes: vec![],
        proposer: vec![A],
    };
    let mut out = Vec::new();
    assert_eq!(c.handle_proposal(&s, p.clone(), &mut out).unwrap_err(), ConsensusError::LoseBlock);
    fed(&mut c, &block);
    let frame = c.handle_proposal(&s, p.clone(), &mut out).unwrap();
    let (sp_bytes, h, b, bh) = decode_signed_proposal_frame(&frame).unwrap();
    assert_eq!(h, 1);
    assert_eq!(b, vec![3, 4]);
    assert_eq!(bh, hash);
    let sp = c.build_signed_proposal(&s, p).unwrap();
    assert_eq!(sp.signature, vec![A]);
    assert_eq!(sp.rlp_bytes(), sp_bytes);
    // the block goes out for a check with the frame
    assert!(matches!(out.last(), Some(Action::Async(AsyncMsg::VerifyResp(r))) if r.proposal == hash));
}

#[test]
fn a_proposal_without_a_proof_above_height_one_is_refused() {
    let (mut c, _) = started();
    let s = support();
    let mut out = Vec::new();
    c.receive_status(&s, status(1, &[A, B]), &mut out).unwrap();
    let p = BftProposal {
        height: 2,
        round: 0,
        content: vec![1],
        lock_round: None,
        lock_votes: vec![],
        proposer: vec![A],
    };
    assert_eq!(c.build_signed_proposal(&s, p).unwrap_err(), ConsensusError::MissingProof);
}

fn their_proposal(height: u64, round: u64, hash: &[u8], proposer: u8, sig: &[u8]) -> SignedProposal {
    SignedProposal {
        proposal: Proposal {
            height,
            round,
            content: hash.to_vec(),
            proof: Proof { block_hash: vec![], height: 0, round: 0, precommit_votes: vec![] },
            lock_round: None,
            lock_votes: vec![],
            proposer: vec![proposer],
        },
        signature: sig.to_vec(),
    }
}

#[test]
fn a_proposal_of_the_rightful_proposer_goes_to_the_core() {
    let (mut c, _) = started();
    let s = support();
    let block = Block(vec![8]);
    let hash = block.hash();
    let sp = their_proposal(1, 0, &hash, B, &[B]);
    let frame = combine(&sp.rlp_bytes(), &encode_block(1, &[8], &hash));
    let mut out = Vec::new();
    c.receive_signed_proposal(&s, sp, block, hash.clone(), frame, &mut out).unwrap();
    assert_eq!(out.len(), 2);
    assert!(matches!(&out[0], Action::Async(AsyncMsg::VerifyResp(r)) if r.proposal == hash));
    match &out[1] {
        Action::Core(CoreInput::Proposal(p)) => {
            assert_eq!(p.height, 1);
            assert_eq!(p.content, hash);
            assert_eq!(p.proposer, vec![B]);
        }
        _ => panic!("expected a proposal for the core"),
    }
}

#[test]
fn proposals_are_refused_for_each_fault() {
    let (mut c, _) = started();
    let s = support();
    let block = Block(vec![8]);
    let hash = block.hash();
    let mut out = Vec::new();
    // not the proposer's turn
    let sp = their_proposal(1, 1, &hash, B, &[B]);
    assert_eq!(
        c.receive_signed_proposal(&s, sp, block.clone(), hash.clone(), vec![], &mut out),
        Err(ConsensusError::InvalidProposer)
    );
    // signed by another node
    let sp = their_proposal(1, 0, &hash, B, &[C]);
    assert_eq!(
        c.receive_signed_proposal(&s, sp, block.clone(), hash.clone(), vec![], &mut out),
        Err(ConsensusError::SignatureErr)
    );
    assert!(out.is_empty());
}

#[test]
fn a_near_future_proposal_is_cached() {
    let (mut c, _) = started();
    let s = support();
    let block = Block(vec![8]);
    let hash = block.hash();
    let sp = their_proposal(3, 0, &hash, B, &[B]);
    let mut out = Vec::new();
    assert_eq!(c.receive_signed_proposal(&s, sp, block, hash, vec![1], &mut out), Ok(()));
    assert!(out.is_empty());
    assert_eq!(c.proposal_cache.len(), 1);
    assert!(c.proposal_cache.contains_key(&3));
}

#[test]
fn messages_from_the_node_are_read_and_taken() {
    let (mut c, _) = started();
    let s = support();
    let mut out = Vec::new();
    let sv = signed_vote(VoteType::Prevote, 1, 0, &[0x11], B, &[B]);
    c.external_process(&s, ConsensusInput::SignedVote(sv.rlp_bytes()), &mut out).unwrap();
    assert!(matches!(&out[0], Action::Core(CoreInput::Vote(v)) if v.voter == vec![B]));
    assert_eq!(
        c.external_process(&s, ConsensusInput::SignedVote(vec![0xff]), &mut out),
        Err(ConsensusError::DecodeErr)
    );
    let block = Block(vec![8]);
    let hash = block.hash();
    let sp = their_proposal(1, 0, &hash, B, &[B]);
    let frame = combine(&sp.rlp_bytes(), &encode_block(1, &[8], &hash));
    let mut out = Vec::new();
    c.external_process(&s, ConsensusInput::SignedProposal(frame), &mut out).unwrap();
    assert!(matches!(out.last(), Some(Action::Core(CoreInput::Proposal(p))) if p.content == hash));
    assert_eq!(c.block_origin_cache.len(), 1);
    let mut out = Vec::new();
    c.external_process(&s, ConsensusInput::Status(status(1, &[A, B])), &mut out).unwrap();
    assert_eq!(c.height, 2);
}

#[test]
fn a_proposal_that_cannot_be_received_yet_is_left_alone() {
    let mut c: Consensus<Block> = Consensus::new(vec![A]);
    let s = support();
    let block = Block(vec![8]);
    let hash = block.hash();
    let far = their_proposal(40, 0, &hash, B, &[B]);
    let frame = combine(&far.rlp_bytes(), &encode_block(40, &[8], &hash));
    let mut out = Vec::new();
    assert!(c.try_external_process(&s, ConsensusInput::SignedProposal(frame), &mut out).is_none());
    assert!(c.block_origin_cache.is_empty());
    let near = their_proposal(2, 0, &hash, B, &[B]);
    let frame = combine(&near.rlp_bytes(), &encode_block(2, &[8], &hash));
    assert_eq!(
        c.try_external_process(&s, ConsensusInput::SignedProposal(frame), &mut out),
        Some(Ok(()))
    );
    assert_eq!(c.proposal_cache.len(), 1);
    assert!(c.proposal_cache_fits());
}

#[test]
fn at_the_initial_height_a_vote_that_recovers_nobody_is_refused() {
    let mut c: Consensus<Block> = Consensus::new(vec![A]);
    let blind = Support { address: vec![A], sign_ok: true, blind: true, reject: false, sent: Default::default() };
    let sv = signed_vote(VoteType::Prevote, 1, 0, &[0x11], B, &[B]);
    assert_eq!(c.handle_signed_vote(&blind, sv.clone()).unwrap_err(), ConsensusError::SupportErr);
    let mut out = Vec::new();
    assert!(c.try_external_process(&support(), ConsensusInput::SignedVote(sv.rlp_bytes()), &mut out).is_none());
    assert_eq!(
        c.try_external_process(&blind, ConsensusInput::SignedVote(sv.rlp_bytes()), &mut out),
        Some(Err(ConsensusError::SupportErr))
    );
    assert!(out.is_empty());
}

#[test]
fn at_the_initial_height_checks_that_need_no_height_still_answer() {
    let mut c: Consensus<Block> = Consensus::new(vec![A]);
    let s = support();
    let sp = their_proposal(1, 0, &[0x11], B, &[B]);
    assert_eq!(c.check_lock_votes(&s, &sp, &[0x11]), Ok(()));
    assert_eq!(c.check_proof(&s, 5, &sp.proposal.proof), Err(ConsensusError::ProofErr));
    let forged = their_proposal(1, 0, &[0x11], B, &[C]);
    let mut out = Vec::new();
    assert_eq!(
        c.handle_signed_proposal(&s, forged, &[], &mut out).unwrap_err(),
        ConsensusError::SignatureErr
    );
    assert!(!c.can_receive(&s, &their_proposal(20, 0, &[0x11], B, &[B])));
    assert!(c.can_receive(&s, &their_proposal(20, 0, &[0x11], B, &[C])));
}

#[test]
fn log_entries_carry_their_tags() {
    assert_eq!(WalEntry::<Block>::SignedProposal(vec![]).log_type(), LOG_TYPE_SIGNED_PROPOSAL);
    assert_eq!(
        WalEntry::<Block>::SignedVote(signed_vote(VoteType::Prevote, 1, 0, &[1], B, &[B])).log_type(),
        2
    );
    assert_eq!(WalEntry::<Block>::RichStatus(status(1, &[A])).log_type(), 3);
    assert_eq!(WalEntry::BlockTxs(Feed { height: 1, content: Block(vec![1]) }).log_type(), 4);
    assert_eq!(
        WalEntry::<Block>::VerifyResp(VerifyResp { is_pass: true, proposal: vec![1] }).log_type(),
        5
    );
    assert_eq!(WalEntry::<Block>::Vote(bft_vote(VoteType::Prevote, 1, 0, &[1], A)).log_type(), LOG_TYPE_VOTE);
}

#[test]
fn replaying_a_logged_status_moves_the_service_without_starting_the_core() {
    let mut c: Consensus<Block> = Consensus::new(vec![A]);
    let mut out = Vec::new();
    let r = c.replay_wal_entry(&support(), WalEntry::RichStatus(status(4, &[A, B])), &mut out);
    assert_eq!(r, Some(Ok(())));
    assert_eq!(c.height, 5);
    assert!(!c.consensus_power);
    assert_eq!(out.len(), 1);
    assert!(matches!(&out[0], Action::Core(CoreInput::Status(st)) if st.height == 4));
    let r = c.replay_wal_entry(&support(), WalEntry::RichStatus(status(2, &[A])), &mut out);
    assert_eq!(r, Some(Err(ConsensusError::ObsoleteMsg)));
    assert_eq!(c.replay_wal_entry(&support(), WalEntry::RichStatus(status(u64::MAX, &[A])), &mut out), None);
}

#[test]
fn replaying_logged_votes() {
    let mut c: Consensus<Block> = Consensus::new(vec![A]);
    let mut out = Vec::new();
    let sv = signed_vote(VoteType::Prevote, 1, 0, &[0x11], B, &[B]);
    assert_eq!(c.replay_wal_entry(&support(), WalEntry::SignedVote(sv.clone()), &mut out), None);
    let (mut c, _) = started();
    assert_eq!(c.replay_wal_entry(&support(), WalEntry::SignedVote(sv), &mut out), Some(Ok(())));
    assert!(matches!(&out[0], Action::Core(CoreInput::Vote(v)) if v.voter == vec![B]));
    let own = bft_vote(VoteType::Precommit, 1, 0, &[0x11], A);
    assert_eq!(c.replay_wal_entry(&support(), WalEntry::Vote(own), &mut out), Some(Ok(())));
    assert!(c.votes.get_vote_set(1, 0, VoteType::Precommit).is_some());
    let old = bft_vote(VoteType::Precommit, 0, 0, &[0x11], A);
    assert_eq!(
        c.replay_wal_entry(&support(), WalEntry::Vote(old), &mut out),
        Some(Err(ConsensusError::BftCoreErr))
    );
}

#[test]
fn replaying_logged_blocks_and_checks() {
    let (mut c, _) = started();
    let mut out = Vec::new();
    let block = Block(vec![5]);
    let r = c.replay_wal_entry(&support(), WalEntry::BlockTxs(Feed { height: 1, content: block.clone() }), &mut out);
    assert_eq!(r, Some(Ok(())));
    assert!(matches!(&out[0], Action::Core(CoreInput::Feed(f)) if f.proposal == block.hash()));
    let r = c.replay_wal_entry(
        &support(),
        WalEntry::VerifyResp(VerifyResp { is_pass: false, proposal: block.hash() }),
        &mut out,
    );
    assert_eq!(r, Some(Ok(())));
    assert_eq!(c.verified_block, vec![(block.hash(), false)]);
}

#[test]
fn replaying_a_logged_signed_proposal_frame() {
    let (mut c, _) = started();
    let s = support();
    let block = Block(vec![8]);
    let hash = block.hash();
    let sp = their_proposal(1, 0, &hash, B, &[B]);
    let frame = combine(&sp.rlp_bytes(), &encode_block(1, &[8], &hash));
    let mut out = Vec::new();
    assert_eq!(c.replay_wal_entry(&s, WalEntry::SignedProposal(frame), &mut out), Some(Ok(())));
    assert!(matches!(out.last(), Some(Action::Core(CoreInput::Proposal(p))) if p.content == hash));
    assert_eq!(c.block_origin_cache.len(), 1);
    assert_eq!(c.replay_wal_entry(&s, WalEntry::SignedProposal(vec![0, 1]), &mut out), None);
    // a near future proposal is cached, and then fails its proof check
    let later = their_proposal(3, 0, &hash, B, &[B]);
    let frame = combine(&later.rlp_bytes(), &encode_block(3, &[8], &hash));
    assert_eq!(c.replay_wal_entry(&s, WalEntry::SignedProposal(frame), &mut out), None);
    assert_eq!(c.proposal_cache.len(), 1);
    assert!(c.proposal_cache.contains_key(&3));
}

#[test]
fn the_verify_response_carries_the_outcome_of_the_node_check() {
    let (mut c, _) = started();
    let s = Support { address: vec![A], sign_ok: true, blind: false, reject: true, sent: Default::default() };
    let block = Block(vec![8]);
    let hash = block.hash();
    let sp = their_proposal(1, 0, &hash, B, &[B]);
    let frame = combine(&sp.rlp_bytes(), &encode_block(1, &[8], &hash));
    let mut out = Vec::new();
    c.receive_signed_proposal(&s, sp, block, hash.clone(), frame, &mut out).unwrap();
    assert!(matches!(&out[0], Action::Async(AsyncMsg::VerifyResp(r)) if r.proposal == hash && !r.is_pass));
}

#[test]
fn a_proof_that_repeats_a_voter_does_not_verify() {
    let mut c: Consensus<Block> = Consensus::new(vec![A]);
    let mut out = Vec::new();
    c.receive_status(&support(), status(0, &[A, B, C]), &mut out).unwrap();
    let auth = vec![Node::new(vec![A]), Node::new(vec![B]), Node::new(vec![C])];
    let repeated = Proof {
        block_hash: vec![1],
        height: 1,
        round: 0,
        precommit_votes: vec![(vec![A], vec![A]), (vec![A], vec![A]), (vec![B], vec![B])],
    };
    assert!(!repeated.has_distinct_voters());
    assert!(!c.verify_proof(&support(), &repeated, 1, &auth));
    let distinct = Proof {
        block_hash: vec![1],
        height: 1,
        round: 0,
        precommit_votes: vec![(vec![A], vec![A]), (vec![B], vec![B]), (vec![C], vec![C])],
    };
    assert!(distinct.has_distinct_voters());
    assert!(c.verify_proof(&support(), &distinct, 1, &auth));
}

#[test]
fn what_the_service_logs_before_handling() {
    let (c, _) = started();
    let s = support();
    let near = signed_vote(VoteType::Prevote, 2, 0, &[0x11], B, &[B]);
    assert!(c.logs_entry(&s, &WalEntry::SignedVote(near)));
    let far = signed_vote(VoteType::Prevote, 30, 0, &[0x11], B, &[B]);
    assert!(!c.logs_entry(&s, &WalEntry::SignedVote(far)));
    let forged = signed_vote(VoteType::Prevote, 1, 0, &[0x11], B, &[C]);
    assert!(!c.logs_entry(&s, &WalEntry::SignedVote(forged)));
    assert!(!c.logs_entry(&s, &WalEntry::<Block>::RichStatus(status(0, &[A]))));
    assert!(c.logs_entry(&s, &WalEntry::<Block>::RichStatus(status(1, &[A]))));
    assert!(c.logs_entry(&s, &WalEntry::<Block>::Proposal(BftProposal {
        height: 1,
        round: 0,
        content: vec![1],
        lock_round: None,
        lock_votes: vec![],
        proposer: vec![A],
    })));
    assert!(!c.logs_entry(&s, &WalEntry::<Block>::Vote(bft_vote(VoteType::Prevote, 0, 0, &[1], A))));
    let block = Block(vec![8]);
    let hash = block.hash();
    let sp = their_proposal(1, 0, &hash, B, &[B]);
    let frame = combine(&sp.rlp_bytes(), &encode_block(1, &[8], &hash));
    assert!(c.logs_entry(&s, &WalEntry::SignedProposal(frame)));
    let bad = their_proposal(1, 0, &hash, B, &[C]);
    let frame = combine(&bad.rlp_bytes(), &encode_block(1, &[8], &hash));
    assert!(!c.logs_entry(&s, &WalEntry::SignedProposal(frame)));
    assert!(!c.logs_entry(&s, &WalEntry::SignedProposal(vec![1, 2, 3])));
}

#[test]
fn what_the_core_decides_is_sent_signed() {
    let (mut c, _) = started();
    let s = support();
    let mut out = Vec::new();
    let v = bft_vote(VoteType::Prevote, 1, 0, &[0x11], A);
    assert!(matches!(c.core_process(&s, CoreOutput::Vote(v), &mut out), Ok(None)));
    let sent = s.sent.borrow();
    assert_eq!(sent.len(), 1);
    let expected = signed_vote(VoteType::Prevote, 1, 0, &[0x11], A, &[A]).rlp_bytes();
    assert!(matches!(&sent[0], ConsensusOutput::SignedVote(b) if *b == expected));
}

#[test]
fn a_block_hash_is_kept_once_among_blocks_and_checks() {
    let (mut c, _) = started();
    let mut out = Vec::new();
    let block = Block(vec![3, 4]);
    c.async_process(AsyncMsg::Feed(Feed { height: 1, content: block.clone() }), &mut out).unwrap();
    c.async_process(AsyncMsg::Feed(Feed { height: 1, content: block.clone() }), &mut out).unwrap();
    assert_eq!(c.block_origin_cache.len(), 1);
    assert_eq!(out.len(), 2);
    c.async_process(AsyncMsg::VerifyResp(VerifyResp { is_pass: true, proposal: block.hash() }), &mut out)
        .unwrap();
    c.async_process(AsyncMsg::VerifyResp(VerifyResp { is_pass: false, proposal: block.hash() }), &mut out)
        .unwrap();
    assert_eq!(c.verified_block, vec![(block.hash(), true)]);
}
