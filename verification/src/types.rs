use crate::core_types::{BftProposal, BftProposalView, BftStatus, BftVerifyResp, BftVote, BftVoteView, bft_votes_view};
use vstd::prelude::*;

verus! {

/// Address type.
pub type Address = Vec<u8>;

/// Signature type.
pub type Signature = Vec<u8>;

/// The height before any block.
pub const INIT_HEIGHT: u64 = 0;

/// Vote types.
#[derive(Clone, Copy, Debug, PartialEq, Eq, Structural, Hash)]
pub enum VoteType {
    /// Prevote vote type.
    Prevote,
    /// Precommit vote type.
    Precommit,
}

/// The number that stands for a vote type in encodings.
pub open spec fn vote_type_code(t: VoteType) -> u8 {
    match t {
        VoteType::Prevote => 0,
        VoteType::Precommit => 1,
    }
}

impl From<VoteType> for u8 {
    fn from(t: VoteType) -> (res: u8) {
        match t {
            VoteType::Prevote => 0,
            VoteType::Precommit => 1,
        }
    }
}

impl vstd::std_specs::convert::FromSpecImpl<VoteType> for u8 {
    open spec fn obeys_from_spec() -> bool {
        true
    }

    open spec fn from_spec(t: VoteType) -> u8 {
        vote_type_code(t)
    }
}

/// A copy of a byte string.
pub fn copy_bytes(src: &Vec<u8>) -> (res: Vec<u8>)
    ensures
        res@ == src@,
{
    let mut res: Vec<u8> = Vec::with_capacity(src.len());
    crate::util::append_bytes(&mut res, src.as_slice());
    assert(res@ =~= src@);
    res
}

/// A vote.
#[derive(Clone, Debug)]
pub struct Vote {
    /// The vote type of a vote.
    pub vote_type: VoteType,
    /// The height of a vote.
    pub height: u64,
    /// The round of a vote.
    pub round: u64,
    /// The proposal of a vote.
    pub proposal: Vec<u8>,
    /// The address of voter.
    pub voter: Address,
}

/// The mathematical value of a `Vote`.
pub struct VoteView {
    pub vote_type: VoteType,
    pub height: u64,
    pub round: u64,
    pub proposal: Seq<u8>,
    pub voter: Seq<u8>,
}

impl View for Vote {
    type V = VoteView;

    open spec fn view(&self) -> VoteView {
        VoteView {
            vote_type: self.vote_type,
            height: self.height,
            round: self.round,
            proposal: self.proposal@,
            voter: self.voter@,
        }
    }
}

/// The BFT-core vote that a vote stands for.
pub open spec fn vote_to_bft(v: VoteView) -> BftVoteView {
    BftVoteView {
        vote_type: v.vote_type,
        height: v.height,
        round: v.round,
        proposal: v.proposal,
        voter: v.voter,
    }
}

impl Vote {
    /// A copy of the vote.
    pub fn copy(&self) -> (res: Vote)
        ensures
            res@ == self@,
    {
        Vote {
            vote_type: self.vote_type,
            height: self.height,
            round: self.round,
            proposal: copy_bytes(&self.proposal),
            voter: copy_bytes(&self.voter),
        }
    }

    /// The corresponding vote of the BFT core.
    pub fn to_bft_vote(&self) -> (res: BftVote)
        ensures
            res@ == vote_to_bft(self@),
    {
        BftVote {
            vote_type: self.vote_type,
            height: self.height,
            round: self.round,
            proposal: copy_bytes(&self.proposal),
            voter: copy_bytes(&self.voter),
        }
    }

    /// The vote of the given type that a vote of the BFT core stands for.
    pub fn from_bft_vote(vote: BftVote, vtype: VoteType) -> (res: Vote)
        ensures
            res@ == (VoteView {
                vote_type: vtype,
                height: vote.height,
                round: vote.round,
                proposal: vote.proposal@,
                voter: vote.voter@,
            }),
    {
        Vote {
            vote_type: vtype,
            height: vote.height,
            round: vote.round,
            proposal: vote.proposal,
            voter: vote.voter,
        }
    }
}

/// A signed vote.
#[derive(Clone, Debug)]
pub struct SignedVote {
    /// A vote.
    pub vote: Vote,
    /// A signature of the vote.
    pub signature: Signature,
}

/// The mathematical value of a `SignedVote`.
pub struct SignedVoteView {
    pub vote: VoteView,
    pub signature: Seq<u8>,
}

impl View for SignedVote {
    type V = SignedVoteView;

    open spec fn view(&self) -> SignedVoteView {
        SignedVoteView { vote: self.vote@, signature: self.signature@ }
    }
}

impl SignedVote {
    /// A copy of the signed vote.
    pub fn copy(&self) -> (res: SignedVote)
        ensures
            res@ == self@,
    {
        SignedVote { vote: self.vote.copy(), signature: copy_bytes(&self.signature) }
    }
}

/// The views of a sequence of signed votes.
pub open spec fn signed_votes_view(votes: Seq<SignedVote>) -> Seq<SignedVoteView> {
    votes.map_values(|v: SignedVote| v@)
}

/// A node.
#[derive(Clone, Debug)]
pub struct Node {
    /// The address of a node.
    pub address: Address,
    /// The proposal weight of a node.
    pub proposal_weight: u32,
    /// The vote weight of a node.
    pub vote_weight: u32,
}

/// The mathematical value of a `Node`.
pub struct NodeView {
    pub address: Seq<u8>,
    pub proposal_weight: u32,
    pub vote_weight: u32,
}

impl View for Node {
    type V = NodeView;

    open spec fn view(&self) -> NodeView {
        NodeView {
            address: self.address@,
            proposal_weight: self.proposal_weight,
            vote_weight: self.vote_weight,
        }
    }
}

/// The views of a sequence of nodes.
pub open spec fn nodes_view(nodes: Seq<Node>) -> Seq<NodeView> {
    nodes.map_values(|n: Node| n@)
}

/// The addresses of a sequence of nodes, in order.
pub open spec fn node_addresses(nodes: Seq<NodeView>) -> Seq<Seq<u8>> {
    nodes.map_values(|n: NodeView| n.address)
}

impl Node {
    /// A node with the given address and the default proposal weight and vote
    /// weight, both 1.
    pub fn new(address: Address) -> (res: Self)
        ensures
            res@ == (NodeView { address: address@, proposal_weight: 1, vote_weight: 1 }),
    {
        Node { address, proposal_weight: 1, vote_weight: 1 }
    }

    /// The address of the node.
    pub fn get_address(&self) -> (res: Address)
        ensures
            res@ == self.address@,
    {
        copy_bytes(&self.address)
    }

    /// A copy of the node.
    pub fn copy(&self) -> (res: Node)
        ensures
            res@ == self@,
    {
        Node {
            address: copy_bytes(&self.address),
            proposal_weight: self.proposal_weight,
            vote_weight: self.vote_weight,
        }
    }
}

/// A copy of a list of nodes.
pub fn copy_nodes(nodes: &Vec<Node>) -> (res: Vec<Node>)
    ensures
        nodes_view(res@) == nodes_view(nodes@),
{
    let mut res: Vec<Node> = Vec::with_capacity(nodes.len());
    let mut i: usize = 0;
    while i < nodes.len()
        invariant
            i <= nodes@.len(),
            res@.len() == i,
            forall|k: int| 0 <= k < i ==> #[trigger] res@[k]@ == nodes@[k]@,
        decreases nodes@.len() - i,
    {
        res.push(nodes[i].copy());
        i = i + 1;
    }
    assert(nodes_view(res@) =~= nodes_view(nodes@));
    res
}

/// A rich status.
#[derive(Clone, Debug)]
pub struct Status {
    /// The height of a status.
    pub height: u64,
    /// The consensus interval, handed to the BFT core as it is. If it is
    /// `None`, the BFT core keeps the interval it has, which is the default
    /// of 3 seconds until a status sets another.
    pub interval: Option<u64>,
    /// The authority of the next height.
    pub authority_list: Vec<Node>,
}

/// The BFT-core status that a status stands for.
pub open spec fn status_to_bft(height: u64, interval: Option<u64>, authority_list: Seq<NodeView>) -> (
    u64,
    Option<u64>,
    Seq<Seq<u8>>,
) {
    (height, interval, node_addresses(authority_list))
}

/// The views of a sequence of addresses.
pub open spec fn addresses_view(addrs: Seq<Address>) -> Seq<Seq<u8>> {
    addrs.map_values(|a: Address| a@)
}

impl Status {
    /// The corresponding status of the BFT core: the same height and interval,
    /// and the addresses of the authorities in order.
    pub fn to_bft_status(&self) -> (res: BftStatus)
        ensures
            (res.height, res.interval, addresses_view(res.authority_list@)) == status_to_bft(
                self.height,
                self.interval,
                nodes_view(self.authority_list@),
            ),
    {
        let res = crate::util::into_addr_set(self.authority_list.as_slice());
        BftStatus { height: self.height, interval: self.interval, authority_list: res }
    }
}

/// An authority manage.
#[derive(Clone, Debug)]
pub struct AuthorityManage {
    /// The authority list at present.
    pub authorities: Vec<Node>,
    /// The authority list before the last change.
    pub authorities_old: Vec<Node>,
    /// The height at which the list last changed.
    pub authority_h_old: u64,
}

/// The mathematical value of an `AuthorityManage`.
pub struct AuthorityManageView {
    pub authorities: Seq<NodeView>,
    pub authorities_old: Seq<NodeView>,
    pub authority_h_old: u64,
}

impl View for AuthorityManage {
    type V = AuthorityManageView;

    open spec fn view(&self) -> AuthorityManageView {
        AuthorityManageView {
            authorities: nodes_view(self.authorities@),
            authorities_old: nodes_view(self.authorities_old@),
            authority_h_old: self.authority_h_old,
        }
    }
}

/// The authority manage after the list changes to `auth_list` at height `h`:
/// the present list becomes the old one.
pub open spec fn spec_update_authority(
    a: AuthorityManageView,
    h: u64,
    auth_list: Seq<NodeView>,
) -> AuthorityManageView {
    AuthorityManageView { authorities: auth_list, authorities_old: a.authorities, authority_h_old: h }
}

/// The authority list that holds at `height`: the old list at the height
/// where it last changed, the present list otherwise.
pub open spec fn authorities_at(a: AuthorityManageView, height: u64) -> Seq<NodeView> {
    if height == a.authority_h_old {
        a.authorities_old
    } else {
        a.authorities
    }
}

/// After the authority list changes at height `h`, the old list holds at
/// `h` and the new one at every other height.
pub proof fn lemma_update_authority_at(a: AuthorityManageView, h: u64, l: Seq<NodeView>, q: u64)
    ensures
        authorities_at(spec_update_authority(a, h, l), q) == if q == h {
            a.authorities
        } else {
            l
        },
{
}

impl Default for AuthorityManage {
    fn default() -> (res: Self)
        ensures
            res@ == (AuthorityManageView {
                authorities: Seq::empty(),
                authorities_old: Seq::empty(),
                authority_h_old: INIT_HEIGHT,
            }),
    {
        let res = AuthorityManage {
            authorities: Vec::new(),
            authorities_old: Vec::new(),
            authority_h_old: INIT_HEIGHT,
        };
        assert(res@.authorities =~= Seq::<NodeView>::empty());
        assert(res@.authorities_old =~= Seq::<NodeView>::empty());
        res
    }
}

impl AuthorityManage {
    /// Changes the authority list to `auth_list` at height `h`; the present
    /// list becomes the old one.
    pub fn update_authority(&mut self, h: u64, auth_list: Vec<Node>)
        ensures
            final(self)@ == spec_update_authority(old(self)@, h, nodes_view(auth_list@)),
    {
        let tmp = copy_nodes(&self.authorities);
        self.authorities = auth_list;
        self.authorities_old = tmp;
        self.authority_h_old = h;
    }

    /// The authority list that holds at `height`.
    pub fn authorities_at(&self, height: u64) -> (res: &Vec<Node>)
        ensures
            nodes_view(res@) == authorities_at(self@, height),
    {
        if height == self.authority_h_old {
            &self.authorities_old
        } else {
            &self.authorities
        }
    }
}

/// A proof: the precommit signatures of a block.
#[derive(Clone, Debug)]
pub struct Proof {
    /// The hash of the block.
    pub block_hash: Vec<u8>,
    /// The height of the votes in the proof.
    pub height: u64,
    /// The round of the votes in the proof.
    pub round: u64,
    /// The precommit signatures, by voter address; each address once.
    pub precommit_votes: Vec<(Address, Signature)>,
}

/// The mathematical value of a `Proof`.
pub struct ProofView {
    pub block_hash: Seq<u8>,
    pub height: u64,
    pub round: u64,
    pub precommit_votes: Seq<(Seq<u8>, Seq<u8>)>,
}

/// The views of a sequence of address and signature pairs.
pub open spec fn pairs_view(pairs: Seq<(Address, Signature)>) -> Seq<(Seq<u8>, Seq<u8>)> {
    pairs.map_values(|p: (Address, Signature)| (p.0@, p.1@))
}

impl View for Proof {
    type V = ProofView;

    open spec fn view(&self) -> ProofView {
        ProofView {
            block_hash: self.block_hash@,
            height: self.height,
            round: self.round,
            precommit_votes: pairs_view(self.precommit_votes@),
        }
    }
}

/// The voter addresses of a proof, in order.
pub open spec fn proof_voters(p: ProofView) -> Seq<Seq<u8>> {
    p.precommit_votes.map_values(|e: (Seq<u8>, Seq<u8>)| e.0)
}

/// No voter occurs twice in the proof.
pub open spec fn proof_well_formed(p: ProofView) -> bool {
    forall|i: int, j: int|
        0 <= i < j < p.precommit_votes.len() ==> #[trigger] p.precommit_votes[i].0
            != #[trigger] p.precommit_votes[j].0
}

impl Proof {
    /// Whether no voter occurs twice in the proof (see `proof_well_formed`).
    pub fn has_distinct_voters(&self) -> (res: bool)
        ensures
            res == proof_well_formed(self@),
    {
        let ghost pv = self@;
        let mut j: usize = 0;
        while j < self.precommit_votes.len()
            invariant
                j <= self.precommit_votes@.len(),
                pv == self@,
                pv.precommit_votes.len() == self.precommit_votes@.len(),
                forall|a: int, b: int|
                    0 <= a < b < j ==> #[trigger] pv.precommit_votes[a].0
                        != #[trigger] pv.precommit_votes[b].0,
            decreases self.precommit_votes@.len() - j,
        {
            let mut k: usize = 0;
            while k < j
                invariant
                    j < self.precommit_votes@.len(),
                    k <= j,
                    pv == self@,
                    pv.precommit_votes.len() == self.precommit_votes@.len(),
                    forall|a: int, b: int|
                        0 <= a < b < j ==> #[trigger] pv.precommit_votes[a].0
                            != #[trigger] pv.precommit_votes[b].0,
                    forall|a: int| 0 <= a < k ==> #[trigger] pv.precommit_votes[a].0 != pv.precommit_votes[j as int].0,
                decreases j - k,
            {
                assert(pv.precommit_votes[k as int].0 == self.precommit_votes@[k as int].0@);
                assert(pv.precommit_votes[j as int].0 == self.precommit_votes@[j as int].0@);
                if crate::util::bytes_eq(
                    self.precommit_votes[k].0.as_slice(),
                    self.precommit_votes[j].0.as_slice(),
                ) {
                    return false;
                }
                k = k + 1;
            }
            j = j + 1;
        }
        true
    }

    /// A copy of the proof.
    pub fn copy(&self) -> (res: Proof)
        ensures
            res@ == self@,
    {
        let mut votes: Vec<(Address, Signature)> = Vec::with_capacity(self.precommit_votes.len());
        let mut i: usize = 0;
        while i < self.precommit_votes.len()
            invariant
                i <= self.precommit_votes@.len(),
                votes@.len() == i,
                forall|k: int|
                    0 <= k < i ==> #[trigger] votes@[k].0@ == self.precommit_votes@[k].0@
                        && votes@[k].1@ == self.precommit_votes@[k].1@,
            decreases self.precommit_votes@.len() - i,
        {
            let a = copy_bytes(&self.precommit_votes[i].0);
            let s = copy_bytes(&self.precommit_votes[i].1);
            votes.push((a, s));
            i = i + 1;
        }
        assert(pairs_view(votes@) =~= pairs_view(self.precommit_votes@));
        Proof {
            block_hash: copy_bytes(&self.block_hash),
            height: self.height,
            round: self.round,
            precommit_votes: votes,
        }
    }
}

/// A proposal.
#[derive(Clone, Debug)]
pub struct Proposal {
    /// The height of a proposal.
    pub height: u64,
    /// The round of a proposal.
    pub round: u64,
    /// The block hash of a proposal.
    pub content: Vec<u8>,
    /// The proof of the previous block.
    pub proof: Proof,
    /// The lock round of a proposal. If the proposal has not been locked, it is `None`.
    pub lock_round: Option<u64>,
    /// The lock votes of a proposal. If the proposal has not been locked, it is empty.
    pub lock_votes: Vec<SignedVote>,
    /// The address of proposer.
    pub proposer: Address,
}

/// The mathematical value of a `Proposal`.
pub struct ProposalView {
    pub height: u64,
    pub round: u64,
    pub content: Seq<u8>,
    pub proof: ProofView,
    pub lock_round: Option<u64>,
    pub lock_votes: Seq<SignedVoteView>,
    pub proposer: Seq<u8>,
}

impl View for Proposal {
    type V = ProposalView;

    open spec fn view(&self) -> ProposalView {
        ProposalView {
            height: self.height,
            round: self.round,
            content: self.content@,
            proof: self.proof@,
            lock_round: self.lock_round,
            lock_votes: signed_votes_view(self.lock_votes@),
            proposer: self.proposer@,
        }
    }
}

/// The BFT-core proposal that a proposal stands for, with the given block
/// hash: the lock votes go over only when the proposal is locked.
pub open spec fn proposal_to_bft(p: ProposalView, hash: Seq<u8>) -> BftProposalView {
    BftProposalView {
        height: p.height,
        round: p.round,
        content: hash,
        lock_round: p.lock_round,
        lock_votes: if p.lock_round is Some {
            p.lock_votes.map_values(|v: SignedVoteView| vote_to_bft(v.vote))
        } else {
            Seq::empty()
        },
        proposer: p.proposer,
    }
}

impl Proposal {
    /// The corresponding proposal of the BFT core, with the given block hash.
    pub fn to_bft_proposal(&self, hash: Vec<u8>) -> (res: BftProposal)
        ensures
            res@ == proposal_to_bft(self@, hash@),
    {
        let lock_votes = if self.lock_round.is_some() {
            let mut res: Vec<BftVote> = Vec::new();
            let mut i: usize = 0;
            while i < self.lock_votes.len()
                invariant
                    i <= self.lock_votes@.len(),
                    res@.len() == i,
                    forall|k: int|
                        0 <= k < i ==> #[trigger] res@[k]@ == vote_to_bft(self.lock_votes@[k].vote@),
                decreases self.lock_votes@.len() - i,
            {
                res.push(self.lock_votes[i].vote.to_bft_vote());
                i = i + 1;
            }
            assert(bft_votes_view(res@) =~= signed_votes_view(self.lock_votes@).map_values(
                |v: SignedVoteView| vote_to_bft(v.vote),
            ));
            res
        } else {
            Vec::new()
        };
        let res = BftProposal {
            height: self.height,
            round: self.round,
            content: hash,
            lock_round: self.lock_round,
            lock_votes,
            proposer: copy_bytes(&self.proposer),
        };
        assert(res@.lock_votes =~= proposal_to_bft(self@, res.content@).lock_votes);
        res
    }
}

/// A signed proposal.
#[derive(Clone, Debug)]
pub struct SignedProposal {
    /// A proposal.
    pub proposal: Proposal,
    /// A signature of the proposal.
    pub signature: Signature,
}

/// The mathematical value of a `SignedProposal`.
pub struct SignedProposalView {
    pub proposal: ProposalView,
    pub signature: Seq<u8>,
}

impl View for SignedProposal {
    type V = SignedProposalView;

    open spec fn view(&self) -> SignedProposalView {
        SignedProposalView { proposal: self.proposal@, signature: self.signature@ }
    }
}

/// A copy of a list of signed votes.
pub fn copy_signed_votes(votes: &Vec<SignedVote>) -> (res: Vec<SignedVote>)
    ensures
        signed_votes_view(res@) == signed_votes_view(votes@),
{
    let mut res: Vec<SignedVote> = Vec::with_capacity(votes.len());
    let mut i: usize = 0;
    while i < votes.len()
        invariant
            i <= votes@.len(),
            res@.len() == i,
            forall|k: int| 0 <= k < i ==> #[trigger] res@[k]@ == votes@[k]@,
        decreases votes@.len() - i,
    {
        res.push(votes[i].copy());
        i = i + 1;
    }
    assert(signed_votes_view(res@) =~= signed_votes_view(votes@));
    res
}

impl Proposal {
    /// A copy of the proposal.
    pub fn copy(&self) -> (res: Proposal)
        ensures
            res@ == self@,
    {
        Proposal {
            height: self.height,
            round: self.round,
            content: copy_bytes(&self.content),
            proof: self.proof.copy(),
            lock_round: self.lock_round,
            lock_votes: copy_signed_votes(&self.lock_votes),
            proposer: copy_bytes(&self.proposer),
        }
    }
}

impl SignedProposal {
    /// A copy of the signed proposal.
    pub fn copy(&self) -> (res: SignedProposal)
        ensures
            res@ == self@,
    {
        SignedProposal { proposal: self.proposal.copy(), signature: copy_bytes(&self.signature) }
    }
}

/// A commit.
#[derive(Clone, Debug)]
pub struct Commit<F> {
    /// The height of a commit.
    pub height: u64,
    /// The consensus result.
    pub result: F,
    /// The proof of the commit.
    pub proof: Proof,
    /// The address of the node.
    pub address: Address,
}

/// A feed: the block of a height.
#[derive(Clone, Debug)]
pub struct Feed<F> {
    /// The height of the block.
    pub height: u64,
    /// The block.
    pub content: F,
}

/// The outcome of checking the block of a proposal.
#[derive(Clone, Debug)]
pub struct VerifyResp {
    /// Whether the block passed.
    pub is_pass: bool,
    /// The block hash.
    pub proposal: Vec<u8>,
}

impl VerifyResp {
    /// The corresponding message of the BFT core.
    pub fn to_bft_resp(&self) -> (res: BftVerifyResp)
        ensures
            res.is_pass == self.is_pass,
            res.proposal@ == self.proposal@,
    {
        BftVerifyResp { is_pass: self.is_pass, proposal: copy_bytes(&self.proposal) }
    }
}

/// Consensus input messages.
#[derive(Clone, Debug)]
pub enum ConsensusInput {
    /// A signed proposal with its block, framed as bytes.
    SignedProposal(Vec<u8>),
    /// An encoded signed vote.
    SignedVote(Vec<u8>),
    /// A rich status.
    Status(Status),
}

/// Consensus output messages.
#[derive(Clone, Debug)]
pub enum ConsensusOutput<F> {
    /// A signed proposal with its block, framed as bytes.
    SignedProposal(Vec<u8>),
    /// An encoded signed vote.
    SignedVote(Vec<u8>),
    /// A commit.
    Commit(Commit<F>),
}

/// What a message to the other nodes amounts to: the bytes of a frame or of
/// an encoded signed vote, or the commit itself.
pub enum OutputView<F> {
    /// The frame of a signed proposal with its block.
    SignedProposal(Seq<u8>),
    /// The encoding of a signed vote.
    SignedVote(Seq<u8>),
    /// A commit.
    Commit(Commit<F>),
}

/// What a message to the other nodes amounts to.
pub open spec fn output_view<F>(m: ConsensusOutput<F>) -> OutputView<F> {
    match m {
        ConsensusOutput::SignedProposal(b) => OutputView::SignedProposal(b@),
        ConsensusOutput::SignedVote(b) => OutputView::SignedVote(b@),
        ConsensusOutput::Commit(c) => OutputView::Commit(c),
    }
}

/// Messages that the service sends to itself.
#[derive(Clone, Debug)]
pub enum AsyncMsg<F> {
    /// The outcome of a block check.
    VerifyResp(VerifyResp),
    /// The block of a height.
    Feed(Feed<F>),
}

} // verus!
