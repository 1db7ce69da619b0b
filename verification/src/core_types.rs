use crate::types::{Address, VoteType};
use vstd::prelude::*;

verus! {

/// A vote as the BFT core sees it.
#[derive(Clone, Debug)]
pub struct BftVote {
    /// Prevote or precommit.
    pub vote_type: VoteType,
    /// The height of the vote.
    pub height: u64,
    /// The round of the vote.
    pub round: u64,
    /// The proposal (block hash) voted for.
    pub proposal: Vec<u8>,
    /// The address of the voter.
    pub voter: Address,
}

/// The mathematical value of a `BftVote`.
pub struct BftVoteView {
    pub vote_type: VoteType,
    pub height: u64,
    pub round: u64,
    pub proposal: Seq<u8>,
    pub voter: Seq<u8>,
}

impl View for BftVote {
    type V = BftVoteView;

    open spec fn view(&self) -> BftVoteView {
        BftVoteView {
            vote_type: self.vote_type,
            height: self.height,
            round: self.round,
            proposal: self.proposal@,
            voter: self.voter@,
        }
    }
}

impl BftVote {
    /// A copy of the vote.
    pub fn copy(&self) -> (res: BftVote)
        ensures
            res@ == self@,
    {
        BftVote {
            vote_type: self.vote_type,
            height: self.height,
            round: self.round,
            proposal: crate::types::copy_bytes(&self.proposal),
            voter: crate::types::copy_bytes(&self.voter),
        }
    }

    /// Whether two votes are the same.
    pub fn same(&self, other: &BftVote) -> (res: bool)
        ensures
            res == (self@ == other@),
    {
        self.vote_type == other.vote_type && self.height == other.height && self.round
            == other.round && crate::util::bytes_eq(
            self.proposal.as_slice(),
            other.proposal.as_slice(),
        ) && crate::util::bytes_eq(self.voter.as_slice(), other.voter.as_slice())
    }
}

/// The views of a sequence of BFT votes.
pub open spec fn bft_votes_view(votes: Seq<BftVote>) -> Seq<BftVoteView> {
    votes.map_values(|v: BftVote| v@)
}

/// A proposal as the BFT core sees it.
#[derive(Clone, Debug)]
pub struct BftProposal {
    /// The height of the proposal.
    pub height: u64,
    /// The round of the proposal.
    pub round: u64,
    /// The block hash proposed.
    pub content: Vec<u8>,
    /// The lock round, if the proposal is locked.
    pub lock_round: Option<u64>,
    /// The lock votes; empty when the proposal is not locked.
    pub lock_votes: Vec<BftVote>,
    /// The address of the proposer.
    pub proposer: Address,
}

/// The mathematical value of a `BftProposal`.
pub struct BftProposalView {
    pub height: u64,
    pub round: u64,
    pub content: Seq<u8>,
    pub lock_round: Option<u64>,
    pub lock_votes: Seq<BftVoteView>,
    pub proposer: Seq<u8>,
}

impl View for BftProposal {
    type V = BftProposalView;

    open spec fn view(&self) -> BftProposalView {
        BftProposalView {
            height: self.height,
            round: self.round,
            content: self.content@,
            lock_round: self.lock_round,
            lock_votes: bft_votes_view(self.lock_votes@),
            proposer: self.proposer@,
        }
    }
}

/// The block hash that is the proposal of a height.
#[derive(Clone, Debug)]
pub struct BftFeed {
    /// The height.
    pub height: u64,
    /// The block hash.
    pub proposal: Vec<u8>,
}

/// The outcome of checking a proposal's block.
#[derive(Clone, Debug)]
pub struct BftVerifyResp {
    /// Whether the block passed.
    pub is_pass: bool,
    /// The block hash.
    pub proposal: Vec<u8>,
}

/// The status of a height as the BFT core sees it.
#[derive(Clone, Debug)]
pub struct BftStatus {
    /// The height.
    pub height: u64,
    /// The interval of the next height, if it changes.
    pub interval: Option<u64>,
    /// The addresses of the authorities of the next height.
    pub authority_list: Vec<Address>,
}

/// A commit that the BFT core decided.
#[derive(Clone, Debug)]
pub struct BftCommit {
    /// The height.
    pub height: u64,
    /// The round.
    pub round: u64,
    /// The block hash committed.
    pub proposal: Vec<u8>,
    /// The precommit votes behind the commit.
    pub lock_votes: Vec<BftVote>,
    /// The address of this node.
    pub address: Address,
}

/// A message for the BFT core.
#[derive(Clone, Debug)]
pub enum CoreInput {
    /// A proposal.
    Proposal(BftProposal),
    /// A vote.
    Vote(BftVote),
    /// The block hash of a height.
    Feed(BftFeed),
    /// The outcome of a block check.
    VerifyResp(BftVerifyResp),
    /// A status.
    Status(BftStatus),
    /// Pause the state machine.
    Pause,
    /// Start the state machine.
    Start,
}

/// A message from the BFT core.
#[derive(Clone, Debug)]
pub enum CoreOutput {
    /// A proposal to sign and send.
    Proposal(BftProposal),
    /// A vote to sign and send.
    Vote(BftVote),
    /// A decided commit.
    Commit(BftCommit),
    /// A request for the block of a height.
    GetProposalRequest(u64),
}

} // verus!
