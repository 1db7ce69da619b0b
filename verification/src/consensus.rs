use crate::collection::{
    ProposalCollector, ProposalCollectorView, VoteCollector, VoteCollectorView, CACHE_NUMBER,
};
use crate::core_types::{BftCommit, BftFeed, BftProposal, BftStatus, BftVote, CoreInput, CoreOutput};
use crate::error::ConsensusError;
use crate::types::{
    OutputView, ConsensusInput, Address, AuthorityManage, Commit, ConsensusOutput, Feed, Proposal, ProposalView, VerifyResp, VoteView, AuthorityManageView, AsyncMsg, INIT_HEIGHT, NodeView, Proof,
    ProofView, SignedProposal, SignedProposalView, SignedVote, SignedVoteView, Status, authorities_at,
    node_addresses, nodes_view, spec_update_authority,
};
use crate::util::{bytes_eq, contains_address, proof_vote};
use crate::rlp_codec::rlp_vote;
use crate::core_types::BftVoteView;
use crate::types::{Node, Vote, VoteType, vote_to_bft, copy_bytes};
use crate::{ConsensusSupport, Content};
use std::collections::HashMap;
use vstd::prelude::*;

verus! {

broadcast use vstd::std_specs::hash::group_hash_axioms;

/// Consensus result.
pub type Result<T> = core::result::Result<T, ConsensusError>;

// ----------------------------------------------------------------------------
// Keyed lists
// ----------------------------------------------------------------------------
/// The index of the last entry of key `k`, or -1 when there is none.
pub open spec fn last_index<K, X>(s: Seq<(K, X)>, k: K) -> int
    decreases s.len(),
{
    if s.len() == 0 {
        -1
    } else if s.last().0 == k {
        s.len() - 1
    } else {
        last_index(s.drop_last(), k)
    }
}

/// The value of the last entry of key `k`.
pub open spec fn key_get<K, X>(s: Seq<(K, X)>, k: K) -> Option<X> {
    let i = last_index(s, k);
    if 0 <= i < s.len() {
        Some(s[i].1)
    } else {
        None
    }
}

/// The entries with `(k, v)` added when `k` has no entry yet.
pub open spec fn key_or_insert<K, X>(s: Seq<(K, X)>, k: K, v: X) -> Seq<(K, X)> {
    if key_get(s, k) is Some {
        s
    } else {
        s.push((k, v))
    }
}

/// An index found by `last_index` is a valid index of an entry of the key.
pub proof fn lemma_last_index<K, X>(s: Seq<(K, X)>, k: K)
    ensures
        -1 <= last_index(s, k) < s.len(),
        last_index(s, k) >= 0 ==> s[last_index(s, k)].0 == k,
        last_index(s, k) == -1 ==> forall|i: int| 0 <= i < s.len() ==> s[i].0 != k,
    decreases s.len(),
{
    if s.len() > 0 {
        lemma_last_index(s.drop_last(), k);
        if s.last().0 != k {
            assert forall|i: int| 0 <= i < s.len() - 1 implies s[i] == s.drop_last()[i] by {}
        }
    }
}

/// Lists with the same keys in the same places have the same last index of
/// each key.
pub proof fn lemma_last_index_same_keys<K, X, Y>(s: Seq<(K, X)>, t: Seq<(K, Y)>, k: K)
    requires
        s.len() == t.len(),
        forall|i: int| 0 <= i < s.len() ==> s[i].0 == t[i].0,
    ensures
        last_index(s, k) == last_index(t, k),
    decreases s.len(),
{
    if s.len() > 0 {
        let s2 = s.drop_last();
        let t2 = t.drop_last();
        assert forall|i: int| 0 <= i < s2.len() implies s2[i].0 == t2[i].0 by {
            assert(s2[i] == s[i] && t2[i] == t[i]);
        }
        lemma_last_index_same_keys(s2, t2, k);
    }
}

/// A cache with `x` appended to the list of height `h`, a new list being
/// made when there is none.
pub open spec fn cache_push<X>(m: Map<u64, Seq<X>>, h: u64, x: X) -> Map<u64, Seq<X>> {
    m.insert(
        h,
        if m.contains_key(h) {
            m[h].push(x)
        } else {
            seq![x]
        },
    )
}

/// The entries of a list keyed by byte strings, the keys taken by value.
pub open spec fn bytes_keyed<X>(s: Seq<(Vec<u8>, X)>) -> Seq<(Seq<u8>, X)> {
    s.map_values(|p: (Vec<u8>, X)| (p.0@, p.1))
}

fn find_bytes_key<X>(v: &Vec<(Vec<u8>, X)>, k: &[u8]) -> (res: Option<usize>)
    ensures
        match res {
            Some(i) => i as int == last_index(bytes_keyed(v@), k@) && i < v@.len(),
            None => last_index(bytes_keyed(v@), k@) == -1,
        },
{
    let ghost s = bytes_keyed(v@);
    let mut i: usize = v.len();
    assert(s.subrange(0, i as int) =~= s);
    while i > 0
        invariant
            i <= v@.len(),
            s == bytes_keyed(v@),
            s.len() == v@.len(),
            last_index(s, k@) == last_index(s.subrange(0, i as int), k@),
        decreases i,
    {
        assert(s.subrange(0, i as int).drop_last() =~= s.subrange(0, i - 1));
        assert(s.subrange(0, i as int).last() == s[i - 1]);
        if bytes_eq(v[i - 1].0.as_slice(), k) {
            return Some(i - 1);
        }
        i = i - 1;
    }
    None
}

// ----------------------------------------------------------------------------
// The service state
// ----------------------------------------------------------------------------
/// A step the runner of the service performs after a call: a message for
/// the BFT core, or a message the service sends to itself.
#[derive(Clone, Debug)]
pub enum Action<F> {
    /// A message for the BFT core.
    Core(CoreInput),
    /// A message for the service itself.
    Async(AsyncMsg<F>),
}

/// What a step of the runner amounts to: the messages for the BFT core and
/// the messages the service sends itself, by their values. In what a step
/// is expected to give, a block check that the node is asked for stands as
/// `CheckAsked`; the step gives for it a `CheckDone` whose outcome the
/// node's check allows (see `answers`).
pub enum ActionView<F> {
    /// A proposal for the BFT core.
    Proposal(crate::core_types::BftProposalView),
    /// A vote for the BFT core.
    Vote(BftVoteView),
    /// The block hash of a height, for the BFT core.
    Feed(u64, Seq<u8>),
    /// A verify response for the BFT core.
    VerifyResp(bool, Seq<u8>),
    /// A status for the BFT core: height, interval, authority addresses.
    Status(u64, Option<u64>, Seq<Seq<u8>>),
    /// Pause the BFT core.
    Pause,
    /// Start the BFT core.
    Start,
    /// The outcome of the check of the block with this hash.
    CheckDone(Seq<u8>, bool),
    /// A check asked of the node: block hash, block, the frame it came in,
    /// height and whether it is locked.
    CheckAsked(Seq<u8>, F, Seq<u8>, u64, bool),
    /// The block of this height, as the node gave it.
    BlockReady(u64, F),
}

/// What an action amounts to.
pub open spec fn action_view<F>(a: Action<F>) -> ActionView<F> {
    match a {
        Action::Core(c) => match c {
            CoreInput::Proposal(p) => ActionView::Proposal(p@),
            CoreInput::Vote(v) => ActionView::Vote(v@),
            CoreInput::Feed(f) => ActionView::Feed(f.height, f.proposal@),
            CoreInput::VerifyResp(r) => ActionView::VerifyResp(r.is_pass, r.proposal@),
            CoreInput::Status(st) => ActionView::Status(
                st.height,
                st.interval,
                crate::types::addresses_view(st.authority_list@),
            ),
            CoreInput::Pause => ActionView::Pause,
            CoreInput::Start => ActionView::Start,
        },
        Action::Async(m) => match m {
            AsyncMsg::VerifyResp(r) => ActionView::CheckDone(r.proposal@, r.is_pass),
            AsyncMsg::Feed(f) => ActionView::BlockReady(f.height, f.content),
        },
    }
}

/// What a sequence of actions amounts to.
pub open spec fn actions_view<F>(s: Seq<Action<F>>) -> Seq<ActionView<F>> {
    s.map_values(|a: Action<F>| action_view(a))
}

/// The state of the consensus service between messages.
pub struct Consensus<F> {
    /// The height being decided.
    pub height: u64,
    /// The address of this node.
    pub address: Address,
    /// The authority lists.
    pub authority: AuthorityManage,
    /// The signed votes seen.
    pub votes: VoteCollector,
    /// The signed proposals seen.
    pub proposals: ProposalCollector,
    /// The proof of the block below the current height, once known.
    pub proof: Option<Proof>,
    /// The outcome of checking each block, by block hash.
    pub verified_block: Vec<(Vec<u8>, bool)>,
    /// The blocks of the current height, by block hash.
    pub block_origin_cache: Vec<(Vec<u8>, F)>,
    /// Signed proposals of future heights, with their blocks and frames,
    /// by height.
    pub proposal_cache: HashMap<u64, Vec<(SignedProposal, F, Vec<u8>)>>,
    /// Signed votes of future heights, by height.
    pub vote_cache: HashMap<u64, Vec<SignedVote>>,
    /// Whether this node is an authority and the BFT core runs.
    pub consensus_power: bool,
    /// The encoded block of the current height, if any.
    pub block: Option<Vec<u8>>,
}

/// The mathematical value of the service state.
pub struct ConsensusView<F> {
    pub height: u64,
    pub address: Seq<u8>,
    pub authority: AuthorityManageView,
    pub votes: VoteCollectorView,
    pub proposals: ProposalCollectorView,
    pub proof: Option<ProofView>,
    pub verified_block: Seq<(Seq<u8>, bool)>,
    pub block_origin_cache: Seq<(Seq<u8>, F)>,
    pub proposal_cache: Map<u64, Seq<(SignedProposalView, F, Seq<u8>)>>,
    pub vote_cache: Map<u64, Seq<SignedVoteView>>,
    pub consensus_power: bool,
    pub block: Option<Seq<u8>>,
}

/// The view of an optional proof.
pub open spec fn opt_proof_view(p: Option<Proof>) -> Option<ProofView> {
    match p {
        Some(p) => Some(p@),
        None => None,
    }
}

/// The view of a list of cached signed proposals.
pub open spec fn cached_proposals_view<F>(s: Seq<(SignedProposal, F, Vec<u8>)>) -> Seq<
    (SignedProposalView, F, Seq<u8>),
> {
    s.map_values(|e: (SignedProposal, F, Vec<u8>)| (e.0@, e.1, e.2@))
}

/// The view of the cache of future signed proposals.
pub open spec fn proposal_cache_view<F>(m: Map<u64, Vec<(SignedProposal, F, Vec<u8>)>>) -> Map<
    u64,
    Seq<(SignedProposalView, F, Seq<u8>)>,
> {
    m.map_values(|l: Vec<(SignedProposal, F, Vec<u8>)>| cached_proposals_view(l@))
}

/// The view of the cache of future signed votes.
pub open spec fn vote_cache_view(m: Map<u64, Vec<SignedVote>>) -> Map<u64, Seq<SignedVoteView>> {
    m.map_values(|l: Vec<SignedVote>| crate::types::signed_votes_view(l@))
}

impl<F> View for Consensus<F> {
    type V = ConsensusView<F>;

    open spec fn view(&self) -> ConsensusView<F> {
        ConsensusView {
            height: self.height,
            address: self.address@,
            authority: self.authority@,
            votes: self.votes@,
            proposals: self.proposals@,
            proof: opt_proof_view(self.proof),
            verified_block: bytes_keyed(self.verified_block@),
            block_origin_cache: bytes_keyed(self.block_origin_cache@),
            proposal_cache: proposal_cache_view(self.proposal_cache@),
            vote_cache: vote_cache_view(self.vote_cache@),
            consensus_power: self.consensus_power,
            block: match self.block {
                Some(b) => Some(b@),
                None => None,
            },
        }
    }
}

/// The service state after moving past `height`: the blocks and their
/// checks are dropped, and the next height is `height + 1`.
pub open spec fn spec_goto_new_height<F>(s: ConsensusView<F>, height: u64) -> ConsensusView<F> {
    ConsensusView {
        verified_block: Seq::empty(),
        block_origin_cache: Seq::empty(),
        block: None,
        height: (height + 1) as u64,
        ..s
    }
}

/// Whether `address` is the proposer whose turn it is at `height` and
/// `round`: the authority at index `(height + round) mod n` of the `n`
/// authorities of that height.
pub open spec fn is_rightful_proposer(
    authorities: Seq<NodeView>,
    height: u64,
    round: u64,
    address: Seq<u8>,
) -> bool {
    authorities.len() > 0 && authorities[(height + round) % (authorities.len() as int)].address
        == address
}

/// The address that the signature of a signed vote from another node
/// recovers over the hash of the signed vote's encoding, if any.
pub open spec fn vote_signer<F: Content, T: ConsensusSupport<F>>(support: T, sv: SignedVoteView) -> Option<
    Seq<u8>,
> {
    support.recovered(sv.signature, support.hash_of(crate::rlp_codec::rlp_signed_vote(sv)))
}

/// Whether the signature of a signed proposal recovers its proposer over
/// the hash of the proposal's encoding.
pub open spec fn proposal_signed<F: Content, T: ConsensusSupport<F>>(
    support: T,
    sp: SignedProposalView,
) -> bool {
    support.recovered(sp.signature, support.hash_of(crate::rlp_codec::rlp_proposal(sp.proposal))) == Some(
        sp.proposal.proposer,
    )
}

/// Whether a signed proposal can be handled at `height` without an
/// overflow: one whose signature recovers its proposer needs a height of at
/// least 1, and, unless it is obsolete, a height and round that add up
/// within a `u64`.
pub open spec fn proposal_fits<F: Content, T: ConsensusSupport<F>>(
    support: T,
    height: u64,
    sp: SignedProposalView,
) -> bool {
    proposal_signed(support, sp) ==> height >= 1 && (sp.proposal.height < height - 1
        || sp.proposal.height + sp.proposal.round <= u64::MAX)
}

/// What handling a signed vote from another node gives when it is not
/// cached for a later height.
pub open spec fn signed_vote_verdict<F: Content, T: ConsensusSupport<F>>(
    s: ConsensusView<F>,
    support: T,
    sv: SignedVoteView,
) -> Option<ConsensusError> {
    match vote_signer(support, sv) {
        None => Some(ConsensusError::SupportErr),
        Some(a) => if sv.vote.height < s.height - 1 {
            Some(ConsensusError::ObsoleteMsg)
        } else if sv.vote.voter != a {
            Some(ConsensusError::SignatureErr)
        } else if sv.vote.height > s.height {
            Some(ConsensusError::FutureMsg)
        } else if !node_addresses(authorities_at(s.authority, sv.vote.height)).contains(
            sv.vote.voter,
        ) {
            Some(ConsensusError::InvalidVoter)
        } else {
            None
        },
    }
}

/// The state after handling a signed vote: a vote whose signature checks
/// out is cached when it is for a later height, and otherwise added to the
/// votes of its height, round and type, whether or not its voter is an
/// authority.
pub open spec fn after_signed_vote<F: Content, T: ConsensusSupport<F>>(
    s: ConsensusView<F>,
    support: T,
    sv: SignedVoteView,
) -> ConsensusView<F> {
    match signed_vote_verdict(s, support, sv) {
        Some(ConsensusError::SupportErr) => s,
        Some(ConsensusError::ObsoleteMsg) => s,
        Some(ConsensusError::SignatureErr) => s,
        Some(ConsensusError::FutureMsg) => ConsensusView {
            vote_cache: cache_push(s.vote_cache, sv.vote.height, sv),
            ..s
        },
        _ => ConsensusView {
            votes: crate::collection::vc_add(
                s.votes,
                sv.vote.height,
                sv.vote.round,
                sv.vote.vote_type,
                vote_to_bft(sv.vote),
                sv,
            ).0,
            ..s
        },
    }
}

/// What checking a lock vote of `height`, `round` and block `hash` gives:
/// `ObsoleteMsg` below the height before the current one, `BlockVerifyDiff`
/// for another block, `InvalidVoter` when the voter is no authority of
/// default weights at that height, `SupportErr` when the signature recovers
/// nobody, `SignatureErr` when it recovers another address, else the voter.
pub open spec fn signed_vote_check<F: Content, T: ConsensusSupport<F>>(
    s: ConsensusView<F>,
    support: T,
    height: u64,
    hash: Seq<u8>,
    sv: SignedVoteView,
) -> Result<Seq<u8>> {
    if height < s.height - 1 {
        Err(ConsensusError::ObsoleteMsg)
    } else if sv.vote.proposal != hash {
        Err(ConsensusError::BlockVerifyDiff)
    } else if !authorities_at(s.authority, height).contains(
        NodeView { address: sv.vote.voter, proposal_weight: 1, vote_weight: 1 },
    ) {
        Err(ConsensusError::InvalidVoter)
    } else {
        match support.recovered(sv.signature, support.hash_of(rlp_vote(sv.vote))) {
            None => Err(ConsensusError::SupportErr),
            Some(a) => if a != sv.vote.voter {
                Err(ConsensusError::SignatureErr)
            } else {
                Ok(sv.vote.voter)
            },
        }
    }
}

/// The service state with a signed vote added as a prevote of `height` and
/// `round`.
pub open spec fn with_prevote<F>(
    s: ConsensusView<F>,
    height: u64,
    round: u64,
    sv: SignedVoteView,
) -> ConsensusView<F> {
    ConsensusView {
        votes: crate::collection::vc_add(
            s.votes,
            height,
            round,
            VoteType::Prevote,
            vote_to_bft(sv.vote),
            sv,
        ).0,
        ..s
    }
}

/// Checking the lock votes one after another, each checked vote added as a
/// prevote: the state after, and the distinct voters or the first error.
/// A voter that locks twice gives `BlockVerifyDiff`.
pub open spec fn lock_votes_fold<F: Content, T: ConsensusSupport<F>>(
    s: ConsensusView<F>,
    support: T,
    height: u64,
    lock_round: u64,
    hash: Seq<u8>,
    votes: Seq<SignedVoteView>,
) -> (ConsensusView<F>, Result<Seq<Seq<u8>>>)
    decreases votes.len(),
{
    if votes.len() == 0 {
        (s, Ok(Seq::empty()))
    } else {
        let (s1, r) = lock_votes_fold(s, support, height, lock_round, hash, votes.drop_last());
        match r {
            Err(e) => (s1, Err(e)),
            Ok(senders) => match signed_vote_check(s1, support, height, hash, votes.last()) {
                Err(e) => (s1, Err(e)),
                Ok(a) => {
                    let s2 = with_prevote(s1, height, lock_round, votes.last());
                    if senders.contains(a) {
                        (s2, Err(ConsensusError::BlockVerifyDiff))
                    } else {
                        (s2, Ok(senders.push(a)))
                    }
                },
            },
        }
    }
}

/// Once checking the lock votes fails, further votes change nothing.
pub proof fn lemma_lock_votes_fold_err<F: Content, T: ConsensusSupport<F>>(
    s: ConsensusView<F>,
    support: T,
    height: u64,
    lock_round: u64,
    hash: Seq<u8>,
    votes: Seq<SignedVoteView>,
    i: int,
    j: int,
)
    requires
        0 <= i <= j <= votes.len(),
        lock_votes_fold(s, support, height, lock_round, hash, votes.subrange(0, i)).1 is Err,
    ensures
        lock_votes_fold(s, support, height, lock_round, hash, votes.subrange(0, j))
            == lock_votes_fold(s, support, height, lock_round, hash, votes.subrange(0, i)),
    decreases j - i,
{
    if j > i {
        lemma_lock_votes_fold_err(s, support, height, lock_round, hash, votes, i, j - 1);
        assert(votes.subrange(0, j).drop_last() =~= votes.subrange(0, j - 1));
    }
}

/// Checking lock votes changes nothing but the votes.
pub proof fn lemma_lock_votes_fold_frame<F: Content, T: ConsensusSupport<F>>(
    s: ConsensusView<F>,
    support: T,
    height: u64,
    lock_round: u64,
    hash: Seq<u8>,
    votes: Seq<SignedVoteView>,
)
    ensures
        ({
            let s2 = lock_votes_fold(s, support, height, lock_round, hash, votes).0;
            s2 == ConsensusView { votes: s2.votes, ..s }
        }),
    decreases votes.len(),
{
    if votes.len() > 0 {
        lemma_lock_votes_fold_frame(s, support, height, lock_round, hash, votes.drop_last());
    }
}

/// Whether the distinct lock voters make a legal lock: more than two thirds
/// of the authorities of the height, all of them authorities.
pub open spec fn lock_is_legal(senders: Seq<Seq<u8>>, authorities: Seq<NodeView>) -> bool {
    &&& senders.len() * 3 > authorities.len() * 2
    &&& forall|i: int| 0 <= i < senders.len() ==> node_addresses(authorities).contains(#[trigger] senders[i])
}

/// The outcome of the proof stage of a signed proposal: the proof must be
/// of the current height's block below and check out; the verify response
/// `vr` goes out with the proposal.
pub open spec fn proof_stage<F: Content, T: ConsensusSupport<F>>(
    s: ConsensusView<F>,
    support: T,
    p: ProposalView,
    vr: Option<bool>,
    pushed: bool,
) -> (ConsensusView<F>, Result<Option<bool>>, bool) {
    if p.height != s.height || !proof_verifies(
        support,
        p.proof,
        (p.height - 1) as u64,
        proof_authorities(s.authority, p.height),
    ) {
        (s, Err(ConsensusError::ProofErr), pushed)
    } else {
        (ConsensusView { proof: kept_proof(s.proof, p.proof, p.height), ..s }, Ok(vr), pushed)
    }
}

/// Handling a signed proposal from another node: the state after; the
/// outcome, where `Ok(Some(b))` goes out with a verify response of `b` and
/// `Ok(None)` with none; and whether a check of its block was requested.
/// The signature over the proposal's encoding must recover the proposer
/// (`SupportErr`, `SignatureErr`); a proposal below the height before the
/// current one is `ObsoleteMsg`; then it is collected, its proposer must be
/// the rightful one, and its lock must be legal. A proposal of the height
/// before the current one passes at once. Otherwise a block checked before
/// gives its outcome, a known block is sent for a check, and an unknown
/// block is `LoseBlock`; last the proof must check out.
pub open spec fn signed_proposal_step<F: Content, T: ConsensusSupport<F>>(
    s: ConsensusView<F>,
    support: T,
    sp: SignedProposalView,
) -> (ConsensusView<F>, Result<Option<bool>>, bool) {
    let p = sp.proposal;
    match support.recovered(sp.signature, support.hash_of(crate::rlp_codec::rlp_proposal(p))) {
        None => (s, Err(ConsensusError::SupportErr), false),
        Some(a) => if p.proposer != a {
            (s, Err(ConsensusError::SignatureErr), false)
        } else if p.height < s.height - 1 {
            (s, Err(ConsensusError::ObsoleteMsg), false)
        } else {
            let s1 = ConsensusView {
                proposals: crate::collection::pc_add(s.proposals, p.height, p.round, sp).0,
                ..s
            };
            match proposer_check(s1.authority, p.height, p.round, p.proposer) {
                Some(e) => (s1, Err(e), false),
                None => {
                    let (s2, lr) = lock_check(s1, support, sp, p.content);
                    match lr {
                        Err(e) => (s2, Err(e), false),
                        Ok(_) => if p.height == s.height - 1 {
                            (s2, Ok(Some(true)), false)
                        } else {
                            match key_get(s2.verified_block, p.content) {
                                Some(b) => proof_stage(s2, support, p, Some(b), false),
                                None => if key_get(s2.block_origin_cache, p.content) is Some {
                                    proof_stage(s2, support, p, None, true)
                                } else {
                                    (s2, Err(ConsensusError::LoseBlock), false)
                                },
                            }
                        },
                    }
                },
            }
        },
    }
}

/// The outbox after pushing a request to check a block: one more message,
/// a verify response for `hash`.
pub open spec fn pushed_check<F>(before: Seq<Action<F>>, after: Seq<Action<F>>, hash: Seq<u8>) -> bool {
    &&& after.len() == before.len() + 1
    &&& after.subrange(0, before.len() as int) == before
    &&& after.last() matches Action::Async(AsyncMsg::VerifyResp(vr)) && vr.proposal@ == hash
}

/// Once a vote has no signed counterpart, further votes change nothing.
pub proof fn lemma_proof_votes_fold_none(
    set: Seq<(BftVoteView, SignedVoteView)>,
    votes: Seq<BftVoteView>,
    i: int,
    j: int,
)
    requires
        0 <= i <= j <= votes.len(),
        proof_votes_fold(set, votes.subrange(0, i)) is None,
    ensures
        proof_votes_fold(set, votes.subrange(0, j)) is None,
    decreases j - i,
{
    if j > i {
        lemma_proof_votes_fold_none(set, votes, i, j - 1);
        assert(votes.subrange(0, j).drop_last() =~= votes.subrange(0, j - 1));
    }
}

/// The precommit signatures that `votes` find in a vote set, each voter
/// once (the first signature of a voter stays), or `None` when a vote has
/// no signed counterpart.
pub open spec fn proof_votes_fold(
    set: Seq<(BftVoteView, SignedVoteView)>,
    votes: Seq<BftVoteView>,
) -> Option<Seq<(Seq<u8>, Seq<u8>)>>
    decreases votes.len(),
{
    if votes.len() == 0 {
        Some(Seq::empty())
    } else {
        match proof_votes_fold(set, votes.drop_last()) {
            None => None,
            Some(acc) => match crate::collection::vs_get(set, votes.last()) {
                None => None,
                Some(sv) => Some(key_or_insert(acc, votes.last().voter, sv.signature)),
            },
        }
    }
}

/// Whether no key occurs twice in a keyed list.
pub open spec fn keys_distinct<K, X>(s: Seq<(K, X)>) -> bool {
    forall|i: int, j: int| 0 <= i < j < s.len() ==> #[trigger] s[i].0 != #[trigger] s[j].0
}

/// Adding an entry for a key that has none keeps the keys distinct.
pub proof fn lemma_key_or_insert_distinct<K, X>(s: Seq<(K, X)>, k: K, v: X)
    requires
        keys_distinct(s),
    ensures
        keys_distinct(key_or_insert(s, k, v)),
{
    lemma_last_index(s, k);
    let t = key_or_insert(s, k, v);
    if key_get(s, k) is None {
        assert forall|i: int, j: int| 0 <= i < j < t.len() implies #[trigger] t[i].0
            != #[trigger] t[j].0 by {
            if j == s.len() {
                assert(t[i] == s[i]);
            } else {
                assert(t[i] == s[i] && t[j] == s[j]);
            }
        }
    }
}

/// A proof built from collected precommits names each voter once, with the
/// signature of the voter's first precommit.
pub proof fn lemma_built_proof_well_formed(
    set: Seq<(BftVoteView, SignedVoteView)>,
    votes: Seq<BftVoteView>,
    block_hash: Seq<u8>,
    height: u64,
    round: u64,
)
    ensures
        proof_votes_fold(set, votes) matches Some(pv) ==> crate::types::proof_well_formed(
            ProofView { block_hash, height, round, precommit_votes: pv },
        ),
    decreases votes.len(),
{
    if votes.len() > 0 {
        lemma_built_proof_well_formed(set, votes.drop_last(), block_hash, height, round);
        if let Some(acc) = proof_votes_fold(set, votes.drop_last()) {
            if let Some(sv) = crate::collection::vs_get(set, votes.last()) {
                let before = ProofView { block_hash, height, round, precommit_votes: acc };
                assert forall|i: int, j: int| 0 <= i < j < acc.len() implies #[trigger] acc[i].0
                    != #[trigger] acc[j].0 by {
                    assert(before.precommit_votes[i] == acc[i]);
                    assert(before.precommit_votes[j] == acc[j]);
                }
                lemma_key_or_insert_distinct(acc, votes.last().voter, sv.signature);
            }
        }
    }
}

/// Once a lock vote has no signed counterpart, further votes change nothing.
pub proof fn lemma_lock_votes_lookup_none(
    set: Seq<(BftVoteView, SignedVoteView)>,
    votes: Seq<BftVoteView>,
    i: int,
    j: int,
)
    requires
        0 <= i <= j <= votes.len(),
        lock_votes_lookup(set, votes.subrange(0, i)) is None,
    ensures
        lock_votes_lookup(set, votes.subrange(0, j)) is None,
    decreases j - i,
{
    if j > i {
        lemma_lock_votes_lookup_none(set, votes, i, j - 1);
        assert(votes.subrange(0, j).drop_last() =~= votes.subrange(0, j - 1));
    }
}

/// The signed lock votes that `votes` find in a vote set, in order, or
/// `None` when a vote has no signed counterpart.
pub open spec fn lock_votes_lookup(
    set: Seq<(BftVoteView, SignedVoteView)>,
    votes: Seq<BftVoteView>,
) -> Option<Seq<SignedVoteView>>
    decreases votes.len(),
{
    if votes.len() == 0 {
        Some(Seq::empty())
    } else {
        match lock_votes_lookup(set, votes.drop_last()) {
            None => None,
            Some(acc) => match crate::collection::vs_get(set, votes.last()) {
                None => None,
                Some(sv) => Some(acc.push(sv)),
            },
        }
    }
}

/// The signed lock votes that a proposal of the BFT core asks for: none
/// when it is not locked; otherwise those that its lock votes find among the
/// prevotes of its height and round (`NoVoteset` when there are none,
/// `LoseSignedVote` when a vote has no signed counterpart), with the vote
/// collector after the lookup.
pub open spec fn proposal_lock_stage(
    votes: VoteCollectorView,
    p: crate::core_types::BftProposalView,
) -> (VoteCollectorView, Result<Seq<SignedVoteView>>) {
    if p.lock_round is Some {
        let (vc2, set) = crate::collection::vc_get_vote_set(
            votes,
            p.height,
            p.round,
            VoteType::Prevote,
        );
        match set {
            None => (vc2, Err(ConsensusError::NoVoteset)),
            Some(set) => match lock_votes_lookup(set, p.lock_votes) {
                None => (vc2, Err(ConsensusError::LoseSignedVote)),
                Some(lv) => (vc2, Ok(lv)),
            },
        }
    } else {
        (votes, Ok(Seq::empty()))
    }
}

/// The proposal that this node signs for a proposal of the BFT core, with
/// lock votes `lv`: at height 1 it carries the empty proof of the genesis
/// block, otherwise the kept proof.
pub open spec fn built_proposal<F>(
    s: ConsensusView<F>,
    p: crate::core_types::BftProposalView,
    lv: Seq<SignedVoteView>,
) -> ProposalView {
    ProposalView {
        height: p.height,
        round: p.round,
        content: p.content,
        proof: if s.height == 1 {
            ProofView { block_hash: p.content, height: 0, round: 0, precommit_votes: Seq::empty() }
        } else {
            s.proof.unwrap()
        },
        lock_round: p.lock_round,
        lock_votes: lv,
        proposer: p.proposer,
    }
}

/// The outbox after the node was asked to check `block`, with hash `hash`,
/// that came in `frame` at `height`, locked or not: one more message, a
/// verify response for `hash` whose outcome the node's check allows.
pub open spec fn check_pushed<F: Content, T: ConsensusSupport<F>>(
    support: T,
    before: Seq<Action<F>>,
    after: Seq<Action<F>>,
    hash: Seq<u8>,
    block: F,
    frame: Seq<u8>,
    height: u64,
    is_lock: bool,
) -> bool {
    &&& pushed_check(before, after, hash)
    &&& after.last() matches Action::Async(AsyncMsg::VerifyResp(vr)) && support.check_outcome(
        hash,
        block,
        frame,
        height,
        is_lock,
        vr.is_pass,
    )
}

/// Whether an action answers what was expected of it: a check asked of the
/// node is answered by the outcome of the check of that block, one that
/// the node's check allows; anything else by itself.
pub open spec fn answers<F: Content, T: ConsensusSupport<F>>(
    support: T,
    a: ActionView<F>,
    t: ActionView<F>,
) -> bool {
    match t {
        ActionView::CheckAsked(hash, block, frame, height, is_lock) => a matches ActionView::CheckDone(
            h,
            pass,
        ) && h == hash && support.check_outcome(hash, block, frame, height, is_lock, pass),
        _ => a == t,
    }
}

/// Whether the actions `a` answer, one for one, the expected actions `t`.
pub open spec fn answers_all<F: Content, T: ConsensusSupport<F>>(
    support: T,
    a: Seq<ActionView<F>>,
    t: Seq<ActionView<F>>,
) -> bool {
    a.len() == t.len() && forall|i: int| 0 <= i < a.len() ==> answers(support, #[trigger] a[i], t[i])
}

/// Whether no action of a sequence is a check still to be answered.
pub open spec fn all_done<F>(a: Seq<ActionView<F>>) -> bool {
    forall|i: int| 0 <= i < a.len() ==> !((#[trigger] a[i]) is CheckAsked)
}

/// What a runner is asked to perform has no check still to be answered.
pub proof fn lemma_actions_done<F>(s: Seq<Action<F>>)
    ensures
        all_done(actions_view(s)),
{
}

/// Actions with no check to answer answer themselves.
pub proof fn lemma_answers_refl<F: Content, T: ConsensusSupport<F>>(support: T, a: Seq<ActionView<F>>)
    requires
        all_done(a),
    ensures
        answers_all(support, a, a),
{
    assert forall|i: int| 0 <= i < a.len() implies answers(support, #[trigger] a[i], a[i]) by {
        assert(!(a[i] is CheckAsked));
    }
}

/// Actions that answer `p + t1`, followed by actions whose own step
/// answers `t2`, answer `p + t1 + t2`.
pub proof fn lemma_answers_extend<F: Content, T: ConsensusSupport<F>>(
    support: T,
    x: Seq<ActionView<F>>,
    y: Seq<ActionView<F>>,
    p: Seq<ActionView<F>>,
    t1: Seq<ActionView<F>>,
    t2: Seq<ActionView<F>>,
)
    requires
        answers_all(support, x, p + t1),
        answers_all(support, y, x + t2),
        all_done(x),
    ensures
        answers_all(support, y, p + t1 + t2),
{
    let t = p + t1 + t2;
    assert forall|i: int| 0 <= i < y.len() implies answers(support, #[trigger] y[i], t[i]) by {
        if i < x.len() {
            assert(answers(support, y[i], (x + t2)[i]));
            assert((x + t2)[i] == x[i]);
            assert(!(x[i] is CheckAsked));
            assert(answers(support, x[i], (p + t1)[i]));
            assert(t[i] == (p + t1)[i]);
        } else {
            assert(answers(support, y[i], (x + t2)[i]));
            assert((x + t2)[i] == t2[i - x.len()]);
            assert(t[i] == t2[i - x.len()]);
        }
    }
}

/// Equal actions answer what the earlier ones answered, extended by the
/// same plain actions.
pub proof fn lemma_answers_eq<F: Content, T: ConsensusSupport<F>>(
    support: T,
    y: Seq<ActionView<F>>,
    x: Seq<ActionView<F>>,
    t: Seq<ActionView<F>>,
)
    requires
        y == x + t,
        all_done(y),
    ensures
        answers_all(support, y, x + t),
{
    lemma_answers_refl(support, y);
}

/// A verify response pushed for an asked check answers that check.
pub proof fn lemma_check_pushed_view<F: Content, T: ConsensusSupport<F>>(
    support: T,
    before: Seq<Action<F>>,
    after: Seq<Action<F>>,
    hash: Seq<u8>,
    block: F,
    frame: Seq<u8>,
    height: u64,
    is_lock: bool,
)
    requires
        check_pushed(support, before, after, hash, block, frame, height, is_lock),
    ensures
        answers_all(
            support,
            actions_view(after),
            actions_view(before).push(ActionView::CheckAsked(hash, block, frame, height, is_lock)),
        ),
{
    let t = actions_view(before).push(ActionView::CheckAsked(hash, block, frame, height, is_lock));
    let a = actions_view(after);
    assert forall|i: int| 0 <= i < a.len() implies answers(support, #[trigger] a[i], t[i]) by {
        if i < before.len() {
            assert(after.subrange(0, before.len() as int)[i] == after[i]);
            assert(after[i] == before[i]);
        } else {
            assert(after[i] == after.last());
        }
    }
}

/// The actions that handling a signed proposal that came in `frame` at
/// state `s` leads to: the check of its block asked of the node, if any;
/// then, on success, the proposal for the BFT core and the verify
/// response, if any.
pub open spec fn signed_proposal_actions<F>(
    s: ConsensusView<F>,
    sp: SignedProposalView,
    frame: Seq<u8>,
    pushed: bool,
    r: Result<Option<bool>>,
) -> Seq<ActionView<F>> {
    let p = sp.proposal;
    let check = if pushed {
        seq![
            ActionView::CheckAsked(
                p.content,
                key_get(s.block_origin_cache, p.content).unwrap(),
                frame,
                s.height,
                p.lock_round is Some,
            ),
        ]
    } else {
        Seq::empty()
    };
    check + match r {
        Ok(vr) => seq![ActionView::Proposal(crate::types::proposal_to_bft(p, p.content))]
            + match vr {
            Some(b) => seq![ActionView::VerifyResp(b, p.content)],
            None => Seq::empty(),
        },
        Err(_) => Seq::empty(),
    }
}

/// The outcome without the verify response.
pub open spec fn unit_result<X>(r: Result<X>) -> Result<()> {
    match r {
        Ok(_) => Ok(()),
        Err(e) => Err(e),
    }
}

/// Receiving a signed proposal with its block (kept as `kept` under `hash`
/// unless a block is there) and frame: one of a near future height (less
/// than `CACHE_NUMBER` above the current one) is cached for that height;
/// any other is handled at once (see `signed_proposal_step`). The state
/// after, the outcome, and the actions.
pub open spec fn receive_proposal_outcome<F: Content, T: ConsensusSupport<F>>(
    s: ConsensusView<F>,
    support: T,
    sp: SignedProposalView,
    kept: F,
    block: F,
    hash: Seq<u8>,
    frame: Seq<u8>,
) -> (ConsensusView<F>, Result<()>, Seq<ActionView<F>>) {
    let s1 = ConsensusView {
        block_origin_cache: key_or_insert(s.block_origin_cache, hash, kept),
        ..s
    };
    let h = sp.proposal.height;
    if h > s.height && h - s.height < CACHE_NUMBER {
        (
            ConsensusView {
                proposal_cache: cache_push(s1.proposal_cache, h, (sp, block, frame)),
                ..s1
            },
            Ok(()),
            Seq::empty(),
        )
    } else {
        let (s2, r, pushed) = signed_proposal_step(s1, support, sp);
        (s2, unit_result(r), signed_proposal_actions(s1, sp, frame, pushed, r))
    }
}

/// The list of height `h` taken out of a cache: the list (empty when there
/// is none) and the cache without its entry.
pub open spec fn cache_take<X>(m: Map<u64, Seq<X>>, h: u64) -> (Seq<X>, Map<u64, Seq<X>>) {
    (
        if m.contains_key(h) {
            m[h]
        } else {
            Seq::empty()
        },
        m.remove(h),
    )
}

/// What every state of the service keeps: each signed vote is held under
/// the vote it stands for, once in its vote set, every cached signed proposal has a height and
/// round whose sum fits a `u64`, and no block hash occurs twice among the
/// block checks or among the blocks. A new service has it, and taking any
/// message keeps it.
pub open spec fn service_inv<F>(s: ConsensusView<F>) -> bool {
    &&& crate::collection::vc_keyed(s.votes)
    &&& proposal_cache_ok(s)
    &&& keys_distinct(s.verified_block)
    &&& keys_distinct(s.block_origin_cache)
}

/// Every cached signed proposal has a height and round whose sum fits a
/// `u64`.
pub open spec fn proposal_cache_ok<F>(s: ConsensusView<F>) -> bool {
    forall|h: u64| #[trigger] s.proposal_cache.contains_key(h) ==> proposals_fit(s.proposal_cache[h])
}

/// Handling the signed votes of a list one after another, stopping at the
/// first error: the state after, the outcome, and the votes for the BFT
/// core.
pub open spec fn cached_votes_fold<F: Content, T: ConsensusSupport<F>>(
    s: ConsensusView<F>,
    support: T,
    votes: Seq<SignedVoteView>,
) -> (ConsensusView<F>, Result<()>, Seq<ActionView<F>>)
    decreases votes.len(),
{
    if votes.len() == 0 {
        (s, Ok(()), Seq::empty())
    } else {
        let (s1, r, acts) = cached_votes_fold(s, support, votes.drop_last());
        match r {
            Err(e) => (s1, Err(e), acts),
            Ok(_) => {
                let sv = votes.last();
                let s2 = after_signed_vote(s1, support, sv);
                match signed_vote_verdict(s1, support, sv) {
                    Some(e) => (s2, Err(e), acts),
                    None => (s2, Ok(()), acts.push(ActionView::Vote(vote_to_bft(sv.vote)))),
                }
            },
        }
    }
}

/// Handling the signed proposals of a list one after another, stopping at
/// the first error: the state after, the outcome, and the actions.
pub open spec fn cached_proposals_fold<F: Content, T: ConsensusSupport<F>>(
    s: ConsensusView<F>,
    support: T,
    items: Seq<(SignedProposalView, F, Seq<u8>)>,
) -> (ConsensusView<F>, Result<()>, Seq<ActionView<F>>)
    decreases items.len(),
{
    if items.len() == 0 {
        (s, Ok(()), Seq::empty())
    } else {
        let (s1, r, acts) = cached_proposals_fold(s, support, items.drop_last());
        match r {
            Err(e) => (s1, Err(e), acts),
            Ok(_) => {
                let sp = items.last().0;
                let (s2, r2, pushed) = signed_proposal_step(s1, support, sp);
                (s2, unit_result(r2), acts + signed_proposal_actions(s1, sp, items.last().2, pushed, r2))
            },
        }
    }
}

/// Once handling cached votes fails, further votes change nothing.
pub proof fn lemma_cached_votes_fold_err<F: Content, T: ConsensusSupport<F>>(
    s: ConsensusView<F>,
    support: T,
    votes: Seq<SignedVoteView>,
    i: int,
    j: int,
)
    requires
        0 <= i <= j <= votes.len(),
        cached_votes_fold(s, support, votes.subrange(0, i)).1 is Err,
    ensures
        cached_votes_fold(s, support, votes.subrange(0, j)) == cached_votes_fold(
            s,
            support,
            votes.subrange(0, i),
        ),
    decreases j - i,
{
    if j > i {
        lemma_cached_votes_fold_err(s, support, votes, i, j - 1);
        assert(votes.subrange(0, j).drop_last() =~= votes.subrange(0, j - 1));
    }
}

/// Once handling cached proposals fails, further proposals change nothing.
pub proof fn lemma_cached_proposals_fold_err<F: Content, T: ConsensusSupport<F>>(
    s: ConsensusView<F>,
    support: T,
    items: Seq<(SignedProposalView, F, Seq<u8>)>,
    i: int,
    j: int,
)
    requires
        0 <= i <= j <= items.len(),
        cached_proposals_fold(s, support, items.subrange(0, i)).1 is Err,
    ensures
        cached_proposals_fold(s, support, items.subrange(0, j)) == cached_proposals_fold(
            s,
            support,
            items.subrange(0, i),
        ),
    decreases j - i,
{
    if j > i {
        lemma_cached_proposals_fold_err(s, support, items, i, j - 1);
        assert(items.subrange(0, j).drop_last() =~= items.subrange(0, j - 1));
    }
}

/// Handling a signed vote changes only the votes and the vote cache.
pub proof fn lemma_after_signed_vote_frame<F: Content, T: ConsensusSupport<F>>(
    s: ConsensusView<F>,
    support: T,
    sv: SignedVoteView,
)
    ensures
        ({
            let s2 = after_signed_vote(s, support, sv);
            s2 == ConsensusView { votes: s2.votes, vote_cache: s2.vote_cache, ..s }
        }),
{
}

/// Handling a signed proposal changes only the votes, the proposals and
/// the kept proof.
pub proof fn lemma_signed_proposal_step_frame<F: Content, T: ConsensusSupport<F>>(
    s: ConsensusView<F>,
    support: T,
    sp: SignedProposalView,
)
    ensures
        ({
            let s2 = signed_proposal_step(s, support, sp).0;
            s2 == ConsensusView {
                votes: s2.votes,
                proposals: s2.proposals,
                proof: s2.proof,
                ..s
            }
        }),
{
    let p = sp.proposal;
    let s1 = ConsensusView {
        proposals: crate::collection::pc_add(s.proposals, p.height, p.round, sp).0,
        ..s
    };
    match p.lock_round {
        Some(lr) => lemma_lock_votes_fold_frame(s1, support, p.height, lr, p.content, p.lock_votes),
        None => {},
    }
}

/// What `handle_commit` leaves and returns.
pub open spec fn commit_post<F: Content>(
    s: ConsensusView<F>,
    s2: ConsensusView<F>,
    commit: BftCommit,
    res: Result<Commit<F>>,
) -> bool {
    &&& (commit.height < s.height ==> res == Err::<Commit<F>, ConsensusError>(
                ConsensusError::BftCoreErr,
            ) && s2 == s)
    &&& (commit.height >= s.height ==> match key_get(
                s.block_origin_cache,
                commit.proposal@,
            ) {
                None => res == Err::<Commit<F>, ConsensusError>(ConsensusError::LoseBlock)
                    && s2 == s,
                Some(block) => {
                    let (vc2, set) = crate::collection::vc_get_vote_set(
                        s.votes,
                        commit.height,
                        commit.round,
                        VoteType::Precommit,
                    );
                    let proof = match set {
                        None => None,
                        Some(set) => proof_votes_fold(
                            set,
                            crate::core_types::bft_votes_view(commit.lock_votes@),
                        ),
                    };
                    match (set, proof) {
                        (None, _) => res == Err::<Commit<F>, ConsensusError>(
                            ConsensusError::NoVoteset,
                        ) && s2 == (ConsensusView { votes: vc2, ..s }),
                        (Some(_), None) => res == Err::<Commit<F>, ConsensusError>(
                            ConsensusError::LoseSignedVote,
                        ) && s2 == (ConsensusView { votes: vc2, ..s }),
                        (Some(_), Some(pv)) => {
                            let pf = ProofView {
                                block_hash: commit.proposal@,
                                height: commit.height,
                                round: commit.round,
                                precommit_votes: pv,
                            };
                            &&& res matches Ok(c) && c.height == commit.height && cloned(
                                block,
                                c.result,
                            ) && c.proof@ == pf && c.address@ == commit.address@
                            &&& s2 == (ConsensusView {
                                votes: vc2,
                                proof: Some(pf),
                                ..s
                            })
                        },
                    }
                },
            })
}

/// What `handle_vote` leaves and returns: the signature is one that the
/// node gave over the hash of the vote's encoding.
pub open spec fn vote_post<F: Content, T: ConsensusSupport<F>>(
    support: T,
    s: ConsensusView<F>,
    s2: ConsensusView<F>,
    vote: BftVote,
    res: Result<SignedVote>,
) -> bool {
    &&& (vote.height < s.height ==> res == Err::<SignedVote, ConsensusError>(
                ConsensusError::BftCoreErr,
            ) && s2 == s)
    &&& (vote.height >= s.height ==> match res {
                Ok(sv) => sv.vote@ == (VoteView {
                    vote_type: vote.vote_type,
                    height: vote.height,
                    round: vote.round,
                    proposal: vote.proposal@,
                    voter: vote.voter@,
                }) && support.signs(support.hash_of(rlp_vote(sv.vote@)), sv.signature@) && s2 == (
                ConsensusView {
                    votes: crate::collection::vc_add(
                        s.votes,
                        vote.height,
                        vote.round,
                        vote.vote_type,
                        vote@,
                        sv@,
                    ).0,
                    ..s
                }),
                Err(e) => e == ConsensusError::SupportErr && s2 == s,
            })
}

/// Whether `enc` is the encoding of a clone of the block `c`.
pub open spec fn encodes_clone<F: Content>(c: F, enc: Seq<u8>) -> bool {
    exists|c2: F| #[trigger] cloned(c, c2) && c2.encodes_to(enc)
}

/// What `handle_proposal` leaves and returns.
pub open spec fn proposal_post<F: Content, T: ConsensusSupport<F>>(
    support: T,
    s: ConsensusView<F>,
    s2: ConsensusView<F>,
    o0: Seq<Action<F>>,
    o1: Seq<Action<F>>,
    proposal: BftProposal,
    res: Result<Vec<u8>>,
) -> bool {
    &&& (proposal.height != s.height ==> res == Err::<Vec<u8>, ConsensusError>(
                ConsensusError::BftCoreErr,
            ) && s2 == s && o1 == o0)
    &&& (proposal.height == s.height && s.proof is None && s.height
                != 1 ==> res == Err::<Vec<u8>, ConsensusError>(ConsensusError::MissingProof)
                && s2 == s && o1 == o0)
    &&& (proposal.height == s.height && !(s.proof is None && s.height
                != 1) ==> ({
                let p = proposal@;
                let (vc2, r) = proposal_lock_stage(s.votes, p);
                match r {
                    Err(e) => res == Err::<Vec<u8>, ConsensusError>(e) && s2 == (
                    ConsensusView { votes: vc2, ..s }) && o1 == o0,
                    Ok(lv) => match res {
                        Ok(bytes) => exists|sp: SignedProposalView, enc: Seq<u8>|
                            #![trigger crate::collection::pc_add(s.proposals, p.height, p.round, sp), crate::util::spec_encode_block(s.height, enc, p.content)]
                            {
                                &&& sp.proposal == built_proposal(s, p, lv)
                                &&& support.signs(
                                    support.hash_of(crate::rlp_codec::rlp_proposal(sp.proposal)),
                                    sp.signature,
                                )
                                &&& key_get(s.block_origin_cache, p.content) matches Some(c)
                                    && encodes_clone(c, enc)
                                &&& s2 == (ConsensusView {
                                    votes: vc2,
                                    proposals: crate::collection::pc_add(
                                        s.proposals,
                                        p.height,
                                        p.round,
                                        sp,
                                    ).0,
                                    ..s
                                })
                                &&& key_get(s.block_origin_cache, p.content) is Some
                                &&& bytes@ == crate::util::spec_combine(
                                    crate::rlp_codec::rlp_signed_proposal(sp),
                                    crate::util::spec_encode_block(s.height, enc, p.content),
                                )
                                &&& check_pushed(
                                    support,
                                    o0,
                                    o1,
                                    p.content,
                                    key_get(s.block_origin_cache, p.content).unwrap(),
                                    bytes@,
                                    s.height,
                                    p.lock_round is Some,
                                )
                            },
                        Err(ConsensusError::SupportErr) => s2 == (ConsensusView {
                            votes: vc2,
                            ..s
                        }) && o1 == o0,
                        Err(ConsensusError::LoseBlock) => key_get(s.block_origin_cache, p.content)
                            is None && o1 == o0 && exists|sp: SignedProposalView|
                            #![trigger crate::collection::pc_add(s.proposals, p.height, p.round, sp)]
                            sp.proposal == built_proposal(s, p, lv) && s2 == (
                            ConsensusView {
                                votes: vc2,
                                proposals: crate::collection::pc_add(
                                    s.proposals,
                                    p.height,
                                    p.round,
                                    sp,
                                ).0,
                                ..s
                            }),
                        Err(ConsensusError::EncodeErr) => key_get(s.block_origin_cache, p.content)
                            is Some && o1 == o0 && exists|sp: SignedProposalView|
                            #![trigger crate::collection::pc_add(s.proposals, p.height, p.round, sp)]
                            sp.proposal == built_proposal(s, p, lv) && s2 == (
                            ConsensusView {
                                votes: vc2,
                                proposals: crate::collection::pc_add(
                                    s.proposals,
                                    p.height,
                                    p.round,
                                    sp,
                                ).0,
                                ..s
                            }),
                        Err(_) => false,
                    },
                }
            }))
}

/// Handling cached signed proposals changes only the votes, the proposals
/// and the kept proof.
pub proof fn lemma_cached_proposals_fold_frame<F: Content, T: ConsensusSupport<F>>(
    s: ConsensusView<F>,
    support: T,
    items: Seq<(SignedProposalView, F, Seq<u8>)>,
)
    ensures
        ({
            let s2 = cached_proposals_fold(s, support, items).0;
            s2 == ConsensusView {
                votes: s2.votes,
                proposals: s2.proposals,
                proof: s2.proof,
                ..s
            }
        }),
    decreases items.len(),
{
    if items.len() > 0 {
        lemma_cached_proposals_fold_frame(s, support, items.drop_last());
        let s1 = cached_proposals_fold(s, support, items.drop_last()).0;
        lemma_signed_proposal_step_frame(s1, support, items.last().0);
    }
}

/// Handling cached signed votes changes only the votes and the vote cache.
pub proof fn lemma_cached_votes_fold_frame<F: Content, T: ConsensusSupport<F>>(
    s: ConsensusView<F>,
    support: T,
    votes: Seq<SignedVoteView>,
)
    ensures
        ({
            let s2 = cached_votes_fold(s, support, votes).0;
            s2 == ConsensusView { votes: s2.votes, vote_cache: s2.vote_cache, ..s }
        }),
    decreases votes.len(),
{
    if votes.len() > 0 {
        lemma_cached_votes_fold_frame(s, support, votes.drop_last());
        let s1 = cached_votes_fold(s, support, votes.drop_last()).0;
        lemma_after_signed_vote_frame(s1, support, votes.last());
    }
}

/// The power of this node and the messages for the BFT core after a status
/// whose authority addresses are `addrs`: a node that becomes an authority
/// starts the core, one that stops being one pauses it.
pub open spec fn power_after<F>(power: bool, address: Seq<u8>, addrs: Seq<Seq<u8>>) -> (bool, Seq<
    ActionView<F>,
>) {
    if addrs.contains(address) {
        if !power {
            (true, seq![ActionView::Start])
        } else {
            (true, Seq::empty())
        }
    } else if power {
        (false, seq![ActionView::Pause])
    } else {
        (false, Seq::empty())
    }
}

/// Receiving a rich status of `height`, `interval` and `authority_list`: a
/// status below the current height is `ObsoleteMsg`; otherwise the service
/// moves past the status height with the new authority list (see
/// `handle_rich_status`), starts or pauses the BFT core (see
/// `power_after`), hands it the status, and handles the signed proposals,
/// then the signed votes, cached for the new height. The state after, the
/// outcome, and the actions.
pub open spec fn status_outcome<F: Content, T: ConsensusSupport<F>>(
    s: ConsensusView<F>,
    support: T,
    height: u64,
    interval: Option<u64>,
    authority_list: Seq<NodeView>,
) -> (ConsensusView<F>, Result<()>, Seq<ActionView<F>>) {
    if height < s.height {
        (s, Err(ConsensusError::ObsoleteMsg), Seq::empty())
    } else {
        let s1 = spec_goto_new_height(
            ConsensusView {
                authority: spec_update_authority(s.authority, s.height, authority_list),
                ..s
            },
            height,
        );
        let addrs = node_addresses(authority_list);
        let (power, acts1) = power_after::<F>(s.consensus_power, s.address, addrs);
        let s2 = ConsensusView { consensus_power: power, ..s1 };
        let acts2 = acts1.push(ActionView::Status(height, interval, addrs));
        let (items_p, rest_p) = cache_take(s2.proposal_cache, s2.height);
        let (s4, r4, a4) = cached_proposals_fold(
            ConsensusView { proposal_cache: rest_p, ..s2 },
            support,
            items_p,
        );
        match r4 {
            Err(e) => (s4, Err(e), acts2 + a4),
            Ok(_) => {
                let (items_v, rest_v) = cache_take(s4.vote_cache, s4.height);
                let (s6, r6, a6) = cached_votes_fold(
                    ConsensusView { vote_cache: rest_v, ..s4 },
                    support,
                    items_v,
                );
                (s6, r6, acts2 + a4 + a6)
            },
        }
    }
}

/// A rich status below the current height is refused as obsolete and changes
/// nothing. Any other status moves the service past its height: the next
/// height is the status height plus one, the new authority list holds at
/// every height but the one the service was at, no block or block check is
/// kept, and the node has the power to take part exactly when its address is
/// among the new authorities.
pub proof fn lemma_status_moves_height<F: Content, T: ConsensusSupport<F>>(
    s: ConsensusView<F>,
    support: T,
    height: u64,
    interval: Option<u64>,
    authority_list: Seq<NodeView>,
)
    requires
        height < u64::MAX,
    ensures
        ({
            let (s2, r, acts) = status_outcome(s, support, height, interval, authority_list);
            if height < s.height {
                s2 == s && r == Err::<(), ConsensusError>(ConsensusError::ObsoleteMsg) && acts.len()
                    == 0
            } else {
                &&& s2.height == height + 1
                &&& s2.authority == spec_update_authority(s.authority, s.height, authority_list)
                &&& s2.block is None
                &&& s2.verified_block.len() == 0
                &&& s2.block_origin_cache.len() == 0
                &&& s2.consensus_power == node_addresses(authority_list).contains(s.address)
                &&& s2.address == s.address
            }
        }),
{
    if height >= s.height {
        let s1 = spec_goto_new_height(
            ConsensusView {
                authority: spec_update_authority(s.authority, s.height, authority_list),
                ..s
            },
            height,
        );
        let addrs = node_addresses(authority_list);
        let (power, _) = power_after::<F>(s.consensus_power, s.address, addrs);
        let s2 = ConsensusView { consensus_power: power, ..s1 };
        let (items_p, rest_p) = cache_take(s2.proposal_cache, s2.height);
        let s3 = ConsensusView { proposal_cache: rest_p, ..s2 };
        lemma_cached_proposals_fold_frame(s3, support, items_p);
        let s4 = cached_proposals_fold(s3, support, items_p).0;
        let (items_v, rest_v) = cache_take(s4.vote_cache, s4.height);
        lemma_cached_votes_fold_frame(ConsensusView { vote_cache: rest_v, ..s4 }, support, items_v);
    }
}

/// What checking the lock of a signed proposal for block `hash` gives (see
/// `check_lock_votes`): the state after and the outcome.
pub open spec fn lock_check<F: Content, T: ConsensusSupport<F>>(
    s: ConsensusView<F>,
    support: T,
    sp: SignedProposalView,
    hash: Seq<u8>,
) -> (ConsensusView<F>, Result<()>) {
    let p = sp.proposal;
    match p.lock_round {
        None => (s, Ok(())),
        Some(lr) => {
            let (s2, r) = lock_votes_fold(s, support, p.height, lr, hash, p.lock_votes);
            (
                s2,
                match r {
                    Err(e) => Err(e),
                    Ok(senders) => if lock_is_legal(senders, authorities_at(s.authority, p.height)) {
                        Ok(())
                    } else {
                        Err(ConsensusError::IllegalProposalLock)
                    },
                },
            )
        },
    }
}

/// What checking the proposer of `height` and `round` gives.
pub open spec fn proposer_check(
    a: AuthorityManageView,
    height: u64,
    round: u64,
    proposer: Seq<u8>,
) -> Option<ConsensusError> {
    let auths = authorities_at(a, height);
    if auths.len() == 0 {
        Some(ConsensusError::NoAuthorityList)
    } else if !is_rightful_proposer(auths, height, round, proposer) {
        Some(ConsensusError::InvalidProposer)
    } else {
        None
    }
}

/// Whether a proof of the block at `h` checks out against `authority`:
/// height 0 needs none; otherwise the proof is of height `h`, no voter
/// signs twice, it holds more than two thirds as many signatures as there
/// are authorities, each voter
/// is an authority, and no signature recovers an address other than its
/// voter's from the hash of the precommit vote it covers.
pub open spec fn proof_verifies<F: Content, T: ConsensusSupport<F>>(
    support: T,
    proof: ProofView,
    h: u64,
    authority: Seq<NodeView>,
) -> bool {
    h == 0 || {
        &&& h == proof.height
        &&& crate::types::proof_well_formed(proof)
        &&& 2 * authority.len() < 3 * proof.precommit_votes.len()
        &&& forall|i: int|
            0 <= i < proof.precommit_votes.len() ==> #[trigger] proof_vote_ok(
                support,
                proof,
                authority,
                proof.precommit_votes[i],
            )
    }
}

/// One signature of a proof checks out: its voter is an authority, and the
/// signature recovers no address other than the voter's.
pub open spec fn proof_vote_ok<F: Content, T: ConsensusSupport<F>>(
    support: T,
    proof: ProofView,
    authority: Seq<NodeView>,
    entry: (Seq<u8>, Seq<u8>),
) -> bool {
    &&& node_addresses(authority).contains(entry.0)
    &&& match support.recovered(entry.1, support.hash_of(rlp_vote(proof_vote(proof, entry.0)))) {
        Some(a) => a == entry.0,
        None => true,
    }
}

/// The authority list that a proof of the block below `height` is checked
/// against.
pub open spec fn proof_authorities(a: AuthorityManageView, height: u64) -> Seq<NodeView> {
    if a.authority_h_old == height - 1 {
        a.authorities_old
    } else {
        a.authorities
    }
}

/// The kept proof after a proof of the block below `height` checked out:
/// it replaces a kept proof of another height, and fills an empty slot.
pub open spec fn kept_proof(old_proof: Option<ProofView>, proof: ProofView, height: u64) -> Option<
    ProofView,
> {
    match old_proof {
        Some(p) => if p.height != height - 1 {
            Some(proof)
        } else {
            old_proof
        },
        None => Some(proof),
    }
}

impl<F> Consensus<F> {
    /// A service for the node with `address`, at the initial height, with no
    /// authorities.
    pub fn new(address: Address) -> (res: Self)
        ensures
            service_inv(res@),
            res@.height == INIT_HEIGHT,
            res@.address == address@,
            res@.authority == (AuthorityManageView {
                authorities: Seq::empty(),
                authorities_old: Seq::empty(),
                authority_h_old: INIT_HEIGHT,
            }),
            res@.votes == (VoteCollectorView {
                entries: Seq::empty(),
                capacity: CACHE_NUMBER as nat,
            }),
            res@.proposals == (ProposalCollectorView {
                entries: Seq::empty(),
                capacity: CACHE_NUMBER as nat,
            }),
            res@.proof is None,
            res@.verified_block.len() == 0,
            res@.block_origin_cache.len() == 0,
            res@.proposal_cache == Map::<u64, Seq<(SignedProposalView, F, Seq<u8>)>>::empty(),
            res@.vote_cache == Map::<u64, Seq<SignedVoteView>>::empty(),
            !res@.consensus_power,
            res@.block is None,
    {
        Consensus {
            height: INIT_HEIGHT,
            address,
            authority: AuthorityManage::default(),
            votes: VoteCollector::new(),
            proposals: ProposalCollector::new(),
            proof: None,
            verified_block: Vec::new(),
            block_origin_cache: Vec::new(),
            proposal_cache: HashMap::new(),
            vote_cache: HashMap::new(),
            consensus_power: false,
            block: None,
        }
    }

    /// Moves past `height`: drops the blocks of the height and their checks,
    /// and makes `height + 1` the current height.
    pub fn goto_new_height(&mut self, height: u64)
        requires
            height < u64::MAX,
        ensures
            final(self)@ == spec_goto_new_height(old(self)@, height),
            service_inv(old(self)@) ==> service_inv(final(self)@),
    {
        self.verified_block = Vec::new();
        self.block_origin_cache = Vec::new();
        self.block = None;
        self.height = height + 1;
        assert(final(self)@.verified_block =~= Seq::<(Seq<u8>, bool)>::empty());
        assert(final(self)@.block_origin_cache =~= Seq::<(Seq<u8>, F)>::empty());
    }

    /// Takes a rich status: fails with `ObsoleteMsg` when it is below the
    /// current height; otherwise its authority list becomes the present one
    /// (the height at which it changes being the current height), the
    /// service moves past the status height, and the status of the BFT core
    /// is returned.
    pub fn handle_rich_status(&mut self, msg: Status) -> (res: Result<BftStatus>)
        requires
            msg.height < u64::MAX,
        ensures
            msg.height < old(self).height ==> res == Err::<BftStatus, ConsensusError>(
                ConsensusError::ObsoleteMsg,
            ) && final(self)@ == old(self)@,
            msg.height >= old(self).height ==> (res matches Ok(st) && (
            st.height,
            st.interval,
            crate::types::addresses_view(st.authority_list@),
            ) == crate::types::status_to_bft(
                msg.height,
                msg.interval,
                nodes_view(msg.authority_list@),
            )) && final(self)@ == spec_goto_new_height(
                ConsensusView {
                    authority: spec_update_authority(
                        old(self)@.authority,
                        old(self)@.height,
                        nodes_view(msg.authority_list@),
                    ),
                    ..old(self)@
                },
                msg.height,
            ),
            service_inv(old(self)@) ==> service_inv(final(self)@),
    {
        let height = msg.height;
        if height < self.height {
            return Err(ConsensusError::ObsoleteMsg);
        }
        let status = msg.to_bft_status();
        self.authority.update_authority(self.height, msg.authority_list);
        self.goto_new_height(height);
        Ok(status)
    }

    /// Checks that `address` is the proposer whose turn it is at `height`
    /// and `round`, among the authorities of that height: fails with
    /// `NoAuthorityList` when there are none, with `InvalidProposer` when it
    /// is another.
    pub fn check_proposer(&self, height: u64, round: u64, address: &[u8]) -> (res: Result<()>)
        requires
            height + round <= u64::MAX,
        ensures
            ({
                let auths = authorities_at(self@.authority, height);
                &&& auths.len() == 0 ==> res == Err::<(), ConsensusError>(
                    ConsensusError::NoAuthorityList,
                )
                &&& auths.len() > 0 && is_rightful_proposer(auths, height, round, address@)
                    ==> res == Ok::<(), ConsensusError>(())
                &&& auths.len() > 0 && !is_rightful_proposer(auths, height, round, address@)
                    ==> res == Err::<(), ConsensusError>(ConsensusError::InvalidProposer)
            }),
    {
        let authorities = self.authority.authorities_at(height);
        if authorities.len() == 0 {
            return Err(ConsensusError::NoAuthorityList);
        }
        let proposer_nonce = height + round;
        let idx = (proposer_nonce % (authorities.len() as u64)) as usize;
        if bytes_eq(authorities[idx].address.as_slice(), address) {
            Ok(())
        } else {
            Err(ConsensusError::InvalidProposer)
        }
    }

    /// Checks that `sender` is an authority at `height`: fails with
    /// `InvalidVoter` otherwise.
    pub fn check_vote_sender(&self, height: u64, sender: &[u8]) -> (res: Result<()>)
        ensures
            node_addresses(authorities_at(self@.authority, height)).contains(sender@) ==> res
                == Ok::<(), ConsensusError>(()),
            !node_addresses(authorities_at(self@.authority, height)).contains(sender@) ==> res
                == Err::<(), ConsensusError>(ConsensusError::InvalidVoter),
    {
        let authorities = crate::util::into_addr_set(
            self.authority.authorities_at(height).as_slice(),
        );
        if !contains_address(authorities.as_slice(), sender) {
            return Err(ConsensusError::InvalidVoter);
        }
        Ok(())
    }
}

/// Whether `nodes` holds a node with `address` and the default proposal
/// and vote weights.
fn contains_default_node(nodes: &Vec<Node>, address: &[u8]) -> (res: bool)
    ensures
        res == nodes_view(nodes@).contains(
            NodeView { address: address@, proposal_weight: 1, vote_weight: 1 },
        ),
{
    let ghost target = NodeView { address: address@, proposal_weight: 1, vote_weight: 1 };
    let mut i: usize = 0;
    while i < nodes.len()
        invariant
            i <= nodes@.len(),
            target == (NodeView { address: address@, proposal_weight: 1, vote_weight: 1 }),
            forall|k: int| 0 <= k < i ==> nodes_view(nodes@)[k] != target,
        decreases nodes@.len() - i,
    {
        let n = &nodes[i];
        assert(nodes_view(nodes@)[i as int] == nodes@[i as int]@);
        if n.proposal_weight == 1 && n.vote_weight == 1 && bytes_eq(n.address.as_slice(), address) {
            assert(nodes_view(nodes@)[i as int] == target);
            return true;
        }
        i = i + 1;
    }
    assert(!nodes_view(nodes@).contains(target));
    false
}

impl<F: Content> Consensus<F> {
    /// Checks a lock vote of `height`, `round` and block `proposal_hash` and,
    /// when it passes, adds it as a prevote and returns its voter.
    pub fn check_signed_vote<T: ConsensusSupport<F>>(
        &mut self,
        support: &T,
        height: u64,
        round: u64,
        proposal_hash: &[u8],
        signed_vote: SignedVote,
    ) -> (res: Result<Address>)
        requires
            old(self).height >= 1,
        ensures
            ({
                let r = signed_vote_check(old(self)@, *support, height, proposal_hash@, signed_vote@);
                &&& match (res, r) {
                    (Ok(a), Ok(b)) => a@ == b,
                    (Err(e1), Err(e2)) => e1 == e2,
                    _ => false,
                }
                &&& r is Ok ==> final(self)@ == with_prevote(old(self)@, height, round, signed_vote@)
                &&& r is Err ==> final(self)@ == old(self)@
            }),
    {
        let vote = &signed_vote.vote;
        if height < self.height - 1 {
            return Err(ConsensusError::ObsoleteMsg);
        }
        if !bytes_eq(vote.proposal.as_slice(), proposal_hash) {
            return Err(ConsensusError::BlockVerifyDiff);
        }
        let found = contains_default_node(self.authority.authorities_at(height), vote.voter.as_slice());
        if !found {
            return Err(ConsensusError::InvalidVoter);
        }
        let msg = vote.rlp_bytes();
        let hash = support.hash(msg.as_slice());
        let address = support.verify_signature(signed_vote.signature.as_slice(), hash.as_slice());
        let address = match address {
            Ok(a) => a,
            Err(_) => {
                return Err(ConsensusError::SupportErr);
            },
        };
        if !bytes_eq(address.as_slice(), vote.voter.as_slice()) {
            return Err(ConsensusError::SignatureErr);
        }
        let sender = copy_bytes(&vote.voter);
        let bft_vote = vote.to_bft_vote();
        self.votes.add(height, round, VoteType::Prevote, &bft_vote, &signed_vote);
        Ok(sender)
    }
}

impl<F: Content> Consensus<F> {
    /// Checks the lock of a signed proposal for block `proposal_hash`: an
    /// unlocked proposal passes; otherwise each lock vote is checked and
    /// added as a prevote of the lock round, in order, stopping at the first
    /// error; a voter that locks twice gives `BlockVerifyDiff`; then the
    /// distinct voters must be more than two thirds of the authorities of the
    /// height, all of them authorities, else `IllegalProposalLock`.
    pub fn check_lock_votes<T: ConsensusSupport<F>>(
        &mut self,
        support: &T,
        signed_proposal: &SignedProposal,
        proposal_hash: &[u8],
    ) -> (res: Result<()>)
        requires
            old(self).height >= 1 || signed_proposal.proposal.lock_round is None
                || signed_proposal.proposal.lock_votes.len() == 0,
        ensures
            (final(self)@, res) == lock_check(old(self)@, *support, signed_proposal@, proposal_hash@),
    {
        let proposal = &signed_proposal.proposal;
        let height = proposal.height;
        let lock_round = match proposal.lock_round {
            None => {
                return Ok(());
            },
            Some(r) => r,
        };
        let ghost vs = crate::types::signed_votes_view(proposal.lock_votes@);
        let ghost s0 = self@;
        let mut set: Vec<Address> = Vec::new();
        let mut i: usize = 0;
        assert(vs.subrange(0, 0) =~= Seq::<SignedVoteView>::empty());
        assert(crate::types::addresses_view(set@) =~= Seq::<Seq<u8>>::empty());
        while i < proposal.lock_votes.len()
            invariant
                i <= proposal.lock_votes@.len(),
                vs == crate::types::signed_votes_view(proposal.lock_votes@),
                vs == signed_proposal@.proposal.lock_votes,
                signed_proposal@.proposal.lock_round == Some(lock_round),
                signed_proposal@.proposal.height == height,
                vs.len() == proposal.lock_votes@.len(),
                s0 == old(self)@,
                self.height == old(self).height,
                self.height >= 1 || vs.len() == 0,
                self@.authority == s0.authority,
                self@ == lock_votes_fold(
                    s0,
                    *support,
                    height,
                    lock_round,
                    proposal_hash@,
                    vs.subrange(0, i as int),
                ).0,
                lock_votes_fold(
                    s0,
                    *support,
                    height,
                    lock_round,
                    proposal_hash@,
                    vs.subrange(0, i as int),
                ).1 == Ok::<Seq<Seq<u8>>, ConsensusError>(crate::types::addresses_view(set@)),
            decreases proposal.lock_votes@.len() - i,
        {
            assert(vs.subrange(0, i + 1).drop_last() =~= vs.subrange(0, i as int));
            assert(vs.subrange(0, i + 1).last() == proposal.lock_votes@[i as int]@);
            let vote = proposal.lock_votes[i].copy();
            let ghost s1 = self@;
            let ghost senders0 = crate::types::addresses_view(set@);
            assert(lock_votes_fold(s0, *support, height, lock_round, proposal_hash@, vs.subrange(0, i + 1))
                == match signed_vote_check(s1, *support, height, proposal_hash@, vote@) {
                Err(e) => (s1, Err(e)),
                Ok(a) => {
                    let s2 = with_prevote(s1, height, lock_round, vote@);
                    if senders0.contains(a) {
                        (s2, Err(ConsensusError::BlockVerifyDiff))
                    } else {
                        (s2, Ok(senders0.push(a)))
                    }
                },
            });
            let checked = self.check_signed_vote(support, height, lock_round, proposal_hash, vote);
            let sender = match checked {
                Ok(a) => a,
                Err(e) => {
                    proof {
                        lemma_lock_votes_fold_err(
                            s0,
                            *support,
                            height,
                            lock_round,
                            proposal_hash@,
                            vs,
                            i + 1,
                            vs.len() as int,
                        );
                        assert(vs.subrange(0, vs.len() as int) =~= vs);
                    }
                    return Err(e);
                },
            };
            if contains_address(set.as_slice(), sender.as_slice()) {
                proof {
                    lemma_lock_votes_fold_err(
                        s0,
                        *support,
                        height,
                        lock_round,
                        proposal_hash@,
                        vs,
                        i + 1,
                        vs.len() as int,
                    );
                    assert(vs.subrange(0, vs.len() as int) =~= vs);
                }
                return Err(ConsensusError::BlockVerifyDiff);
            }
            let ghost a = sender@;
            assert(signed_vote_check(s1, *support, height, proposal_hash@, vote@) == Ok::<Seq<u8>, ConsensusError>(a));
            assert(!senders0.contains(a));
            set.push(sender);
            assert(crate::types::addresses_view(set@) =~= senders0.push(a));
            assert(self@ == with_prevote(s1, height, lock_round, vote@));
            assert(lock_votes_fold(s0, *support, height, lock_round, proposal_hash@, vs.subrange(0, i + 1)).1 == Ok::<Seq<Seq<u8>>, ConsensusError>(senders0.push(a)));
            i = i + 1;
        }
        assert(vs.subrange(0, vs.len() as int) =~= vs);
        let authority_n = crate::util::into_addr_set(self.authority.authorities_at(height).as_slice());
        let ghost senders = crate::types::addresses_view(set@);
        let ghost auths = authorities_at(old(self)@.authority, height);
        assert(senders.len() == set@.len());
        assert(crate::types::addresses_view(authority_n@).len() == authority_n@.len());
        assert(node_addresses(auths).len() == auths.len());
        if (set.len() as u128) * 3 > (authority_n.len() as u128) * 2 {
            let mut j: usize = 0;
            let mut all_in = true;
            while j < set.len()
                invariant
                    j <= set@.len(),
                    senders == crate::types::addresses_view(set@),
                    crate::types::addresses_view(authority_n@) == node_addresses(auths),
                    all_in == forall|k: int|
                        0 <= k < j ==> node_addresses(auths).contains(#[trigger] senders[k]),
                decreases set@.len() - j,
            {
                let hit = contains_address(authority_n.as_slice(), set[j].as_slice());
                proof {
                    assert(senders[j as int] == set@[j as int]@);
                }
                all_in = all_in && hit;
                j = j + 1;
            }
            if !all_in {
                return Err(ConsensusError::IllegalProposalLock);
            }
            return Ok(());
        }
        Err(ConsensusError::IllegalProposalLock)
    }
}

impl<F: Content> Consensus<F> {
    /// Checks a proof of the block at `h` against `authority` (see
    /// `proof_verifies`). A signature that recovers nobody does not fail the
    /// proof.
    pub fn verify_proof<T: ConsensusSupport<F>>(
        &self,
        support: &T,
        proof: &Proof,
        h: u64,
        authority: &[Node],
    ) -> (res: bool)
        ensures
            res == proof_verifies(*support, proof@, h, nodes_view(authority@)),
    {
        if h == 0 {
            return true;
        }
        if !proof.has_distinct_voters() {
            return false;
        }
        let authority_addrs = crate::util::into_addr_set(authority);
        let ghost auth = nodes_view(authority@);
        let ghost pv = proof@;
        assert(auth.len() == authority@.len());
        assert(pv.precommit_votes.len() == proof.precommit_votes@.len());
        assert(crate::types::addresses_view(authority_addrs@).len() == authority_addrs@.len());
        assert(node_addresses(auth).len() == auth.len());
        if h != proof.height || 2 * (authority_addrs.len() as u128) >= 3 * (
        proof.precommit_votes.len() as u128) {
            return false;
        }
        let mut j: usize = 0;
        while j < proof.precommit_votes.len()
            invariant
                j <= proof.precommit_votes@.len(),
                pv == proof@,
                auth == nodes_view(authority@),
                h != 0,
                h == pv.height,
                crate::types::proof_well_formed(pv),
                2 * auth.len() < 3 * pv.precommit_votes.len(),
                crate::types::addresses_view(authority_addrs@) == node_addresses(auth),
                forall|k: int|
                    0 <= k < j ==> #[trigger] proof_vote_ok(
                        *support,
                        pv,
                        auth,
                        pv.precommit_votes[k],
                    ),
            decreases proof.precommit_votes@.len() - j,
        {
            let sender = &proof.precommit_votes[j].0;
            let sig = &proof.precommit_votes[j].1;
            assert(pv.precommit_votes[j as int] == (sender@, sig@));
            if contains_address(authority_addrs.as_slice(), sender.as_slice()) {
                let msg = Vote {
                    vote_type: VoteType::Precommit,
                    height: proof.height,
                    round: proof.round,
                    proposal: copy_bytes(&proof.block_hash),
                    voter: copy_bytes(sender),
                };
                let bytes = msg.rlp_bytes();
                let hash = support.hash(bytes.as_slice());
                let recovered = support.verify_signature(sig.as_slice(), hash.as_slice());
                if let Ok(address) = recovered {
                    if !bytes_eq(address.as_slice(), sender.as_slice()) {
                        assert(!proof_vote_ok(*support, pv, auth, pv.precommit_votes[j as int]));
                        return false;
                    }
                }
            } else {
                assert(!proof_vote_ok(*support, pv, auth, pv.precommit_votes[j as int]));
                return false;
            }
            j = j + 1;
        }
        true
    }

    /// Checks the proof that a proposal of `height` carries: fails with
    /// `ProofErr` unless `height` is the current height and the proof checks
    /// out for the block below, against the old authorities when the list
    /// changed at that block and the present ones otherwise. A proof that
    /// checks out is kept in place of a kept proof of another height.
    pub fn check_proof<T: ConsensusSupport<F>>(
        &mut self,
        support: &T,
        height: u64,
        proof: &Proof,
    ) -> (res: Result<()>)
        requires
            old(self).height >= 1 || height != old(self).height,
        ensures
            height != old(self).height ==> res == Err::<(), ConsensusError>(ConsensusError::ProofErr)
                && final(self)@ == old(self)@,
            height == old(self).height && !proof_verifies(
                *support,
                proof@,
                (height - 1) as u64,
                proof_authorities(old(self)@.authority, height),
            ) ==> res == Err::<(), ConsensusError>(ConsensusError::ProofErr) && final(self)@
                == old(self)@,
            height == old(self).height && proof_verifies(
                *support,
                proof@,
                (height - 1) as u64,
                proof_authorities(old(self)@.authority, height),
            ) ==> res == Ok::<(), ConsensusError>(()) && final(self)@ == (ConsensusView {
                proof: kept_proof(old(self)@.proof, proof@, height),
                ..old(self)@
            }),
    {
        if height != self.height {
            return Err(ConsensusError::ProofErr);
        }
        let ok = if self.authority.authority_h_old == height - 1 {
            self.verify_proof(support, proof, height - 1, self.authority.authorities_old.as_slice())
        } else {
            self.verify_proof(support, proof, height - 1, self.authority.authorities.as_slice())
        };
        if !ok {
            return Err(ConsensusError::ProofErr);
        }
        let kept = &self.proof;
        let replace = match kept {
            Some(res) => res.height != height - 1,
            None => true,
        };
        if replace {
            self.proof = Some(proof.copy());
        }
        Ok(())
    }
}

impl<F: Content> Consensus<F> {
    /// Handles a signed vote from another node: the signature over the
    /// signed vote's encoding must recover the voter (`SupportErr` when it
    /// recovers nobody, `SignatureErr` when another); a vote below the height
    /// before the current one is `ObsoleteMsg`; a vote for a later height is
    /// cached and answered with `FutureMsg`; otherwise it is added to the
    /// votes and its voter must be an authority of its height
    /// (`InvalidVoter`). On success the vote of the BFT core is returned.
    pub fn handle_signed_vote<T: ConsensusSupport<F>>(&mut self, support: &T, msg: SignedVote) -> (res:
        Result<BftVote>)
        requires
            old(self).height >= 1 || vote_signer(*support, msg@) is None,
        ensures
            final(self)@ == after_signed_vote(old(self)@, *support, msg@),
            match signed_vote_verdict(old(self)@, *support, msg@) {
                Some(e) => res == Err::<BftVote, ConsensusError>(e),
                None => res matches Ok(v) && v@ == vote_to_bft(msg@.vote),
            },
            service_inv(old(self)@) ==> service_inv(final(self)@),
    {
        proof {
            if service_inv(self@) {
                lemma_after_signed_vote_frame(self@, *support, msg@);
                crate::collection::lemma_after_signed_vote_keyed(self@, *support, msg@);
            }
        }
        let bytes = msg.rlp_bytes();
        let hash = support.hash(bytes.as_slice());
        let address = match support.verify_signature(msg.signature.as_slice(), hash.as_slice()) {
            Ok(a) => a,
            Err(_) => {
                return Err(ConsensusError::SupportErr);
            },
        };
        let height = msg.vote.height;
        let round = msg.vote.round;
        if height < self.height - 1 {
            return Err(ConsensusError::ObsoleteMsg);
        }
        if !bytes_eq(msg.vote.voter.as_slice(), address.as_slice()) {
            return Err(ConsensusError::SignatureErr);
        }
        let bft_vote = msg.vote.to_bft_vote();
        if height > self.height {
            let ghost old_cache = self.vote_cache@;
            let mut list: Vec<SignedVote> = match self.vote_cache.remove(&height) {
                Some(l) => l,
                None => Vec::new(),
            };
            let ghost old_list = list@;
            assert(crate::types::signed_votes_view(old_list) == if vote_cache_view(
                old_cache,
            ).contains_key(height) {
                vote_cache_view(old_cache)[height]
            } else {
                Seq::empty()
            }) by {
                if !old_cache.contains_key(height) {
                    assert(crate::types::signed_votes_view(old_list) =~= Seq::<SignedVoteView>::empty());
                }
            }
            list.push(msg);
            assert(crate::types::signed_votes_view(list@) =~= crate::types::signed_votes_view(
                old_list,
            ).push(msg@));
            let ghost new_list = list@;
            self.vote_cache.insert(height, list);
            assert(vote_cache_view(self.vote_cache@) =~= cache_push(
                vote_cache_view(old_cache),
                height,
                msg@,
            ));
            return Err(ConsensusError::FutureMsg);
        }
        self.votes.add(height, round, msg.vote.vote_type, &bft_vote, &msg);
        self.check_vote_sender(height, msg.vote.voter.as_slice())?;
        Ok(bft_vote)
    }
}

impl<F: Content> Consensus<F> {
    /// Has the node check a block, and queues the outcome as a verify
    /// response for the block hash.
    pub fn check_proposal<T: ConsensusSupport<F>>(
        &self,
        support: &T,
        proposal_hash: &[u8],
        proposal: &F,
        signed_proposal_hash: &[u8],
        is_lock: bool,
        out: &mut Vec<Action<F>>,
    )
        ensures
            check_pushed(
                *support,
                old(out)@,
                final(out)@,
                proposal_hash@,
                *proposal,
                signed_proposal_hash@,
                self.height,
                is_lock,
            ),
    {
        let is_pass = support.check_proposal(
            proposal_hash,
            proposal,
            signed_proposal_hash,
            self.height,
            is_lock,
        ).is_ok();
        let mut hash: Vec<u8> = Vec::new();
        crate::util::append_bytes(&mut hash, proposal_hash);
        assert(hash@ =~= proposal_hash@);
        out.push(Action::Async(AsyncMsg::VerifyResp(VerifyResp { is_pass, proposal: hash })));
        assert(final(out)@.subrange(0, old(out)@.len() as int) =~= old(out)@);
    }

    /// Handles a signed proposal from another node whose frame is
    /// `signed_proposal_hash` (see `signed_proposal_step`). On success the
    /// proposal of the BFT core, with the proposal's block hash, goes out
    /// with the verify response, if any.
    pub fn handle_signed_proposal<T: ConsensusSupport<F>>(
        &mut self,
        support: &T,
        msg: SignedProposal,
        signed_proposal_hash: &[u8],
        out: &mut Vec<Action<F>>,
    ) -> (res: Result<(BftProposal, Option<VerifyResp>)>)
        requires
            proposal_fits(*support, old(self).height, msg@),
        ensures
            ({
                let (s2, r, pushed) = signed_proposal_step(old(self)@, *support, msg@);
                let p = msg@.proposal;
                &&& final(self)@ == s2
                &&& pushed ==> check_pushed(
                    *support,
                    old(out)@,
                    final(out)@,
                    p.content,
                    key_get(old(self)@.block_origin_cache, p.content).unwrap(),
                    signed_proposal_hash@,
                    old(self).height,
                    p.lock_round is Some,
                )
                &&& !pushed ==> final(out)@ == old(out)@
                &&& match r {
                    Err(e) => res == Err::<(BftProposal, Option<VerifyResp>), ConsensusError>(e),
                    Ok(vr) => res matches Ok((bp, v)) && bp@ == crate::types::proposal_to_bft(
                        p,
                        p.content,
                    ) && match vr {
                        Some(b) => v matches Some(x) && x.is_pass == b && x.proposal@ == p.content,
                        None => v is None,
                    },
                }
            }),
            service_inv(old(self)@) ==> service_inv(final(self)@),
    {
        let ghost s0 = self@;
        proof {
            if service_inv(s0) {
                lemma_signed_proposal_step_frame(s0, *support, msg@);
                crate::collection::lemma_signed_proposal_step_keyed(s0, *support, msg@);
            }
        }
        let bytes = msg.proposal.rlp_bytes();
        let digest = support.hash(bytes.as_slice());
        let address = match support.verify_signature(msg.signature.as_slice(), digest.as_slice()) {
            Ok(a) => a,
            Err(_) => {
                return Err(ConsensusError::SupportErr);
            },
        };
        let height = msg.proposal.height;
        let round = msg.proposal.round;
        if !bytes_eq(msg.proposal.proposer.as_slice(), address.as_slice()) {
            return Err(ConsensusError::SignatureErr);
        }
        if height < self.height - 1 {
            return Err(ConsensusError::ObsoleteMsg);
        }
        self.proposals.add(height, round, &msg);
        let hash = copy_bytes(&msg.proposal.content);
        let bft_proposal = msg.proposal.to_bft_proposal(copy_bytes(&hash));
        self.check_proposer(height, round, msg.proposal.proposer.as_slice())?;
        proof {
            match msg@.proposal.lock_round {
                Some(lr) => lemma_lock_votes_fold_frame(
                    self@,
                    *support,
                    height,
                    lr,
                    hash@,
                    msg@.proposal.lock_votes,
                ),
                None => {},
            }
        }
        self.check_lock_votes(support, &msg, hash.as_slice())?;
        if height == self.height - 1 {
            return Ok((bft_proposal, Some(VerifyResp { is_pass: true, proposal: hash })));
        }
        let verify_resp = match find_bytes_key(&self.verified_block, hash.as_slice()) {
            Some(i) => {
                proof {
                    lemma_last_index(bytes_keyed(self.verified_block@), hash@);
                }
                Some(VerifyResp { is_pass: self.verified_block[i].1, proposal: copy_bytes(&hash) })
            },
            None => match find_bytes_key(&self.block_origin_cache, hash.as_slice()) {
                Some(i) => {
                    proof {
                        lemma_last_index(bytes_keyed(self.block_origin_cache@), hash@);
                        assert(bytes_keyed(self.block_origin_cache@)[i as int].1
                            == self.block_origin_cache@[i as int].1);
                    }
                    let is_lock = msg.proposal.lock_round.is_some();
                    self.check_proposal(
                        support,
                        hash.as_slice(),
                        &self.block_origin_cache[i].1,
                        signed_proposal_hash,
                        is_lock,
                        out,
                    );
                    None
                },
                None => {
                    return Err(ConsensusError::LoseBlock);
                },
            },
        };
        self.check_proof(support, height, &msg.proposal.proof)?;
        Ok((bft_proposal, verify_resp))
    }
}

impl<F: Content> Consensus<F> {
    /// Builds the proof of block `block_hash` at `height` and `round` from
    /// the signed precommits of `vote`: `NoVoteset` when no precommit of that
    /// height and round was collected, `LoseSignedVote` when a vote has no
    /// signed counterpart; each voter's first signature counts.
    pub fn generate_proof(
        &mut self,
        height: u64,
        round: u64,
        block_hash: Vec<u8>,
        vote: Vec<BftVote>,
    ) -> (res: Result<Proof>)
        ensures
            ({
                let (vc2, set) = crate::collection::vc_get_vote_set(
                    old(self)@.votes,
                    height,
                    round,
                    VoteType::Precommit,
                );
                &&& final(self)@ == (ConsensusView { votes: vc2, ..old(self)@ })
                &&& match set {
                    None => res == Err::<Proof, ConsensusError>(ConsensusError::NoVoteset),
                    Some(set) => match proof_votes_fold(
                        set,
                        crate::core_types::bft_votes_view(vote@),
                    ) {
                        None => res == Err::<Proof, ConsensusError>(
                            ConsensusError::LoseSignedVote,
                        ),
                        Some(pv) => res matches Ok(p) && p@ == (ProofView {
                            block_hash: block_hash@,
                            height,
                            round,
                            precommit_votes: pv,
                        }),
                    },
                }
            }),
    {
        let vote_set = match self.votes.get_vote_set(height, round, VoteType::Precommit) {
            Some(vs) => vs,
            None => {
                return Err(ConsensusError::NoVoteset);
            },
        };
        let ghost set = vote_set@;
        let ghost vv = crate::core_types::bft_votes_view(vote@);
        let ghost s1 = self@;
        let mut tmp: Vec<(Address, Vec<u8>)> = Vec::new();
        let mut i: usize = 0;
        assert(vv.subrange(0, 0) =~= Seq::<BftVoteView>::empty());
        assert(crate::types::pairs_view(tmp@) =~= Seq::<(Seq<u8>, Seq<u8>)>::empty());
        while i < vote.len()
            invariant
                i <= vote@.len(),
                set == vote_set@,
                self@ == s1,
                s1 == (ConsensusView {
                    votes: crate::collection::vc_get_vote_set(
                        old(self)@.votes,
                        height,
                        round,
                        VoteType::Precommit,
                    ).0,
                    ..old(self)@
                }),
                crate::collection::vc_get_vote_set(
                    old(self)@.votes,
                    height,
                    round,
                    VoteType::Precommit,
                ).1 == Some(set),
                vv == crate::core_types::bft_votes_view(vote@),
                vv.len() == vote@.len(),
                proof_votes_fold(set, vv.subrange(0, i as int)) == Some(
                    crate::types::pairs_view(tmp@),
                ),
            decreases vote@.len() - i,
        {
            assert(vv.subrange(0, i + 1).drop_last() =~= vv.subrange(0, i as int));
            assert(vv.subrange(0, i + 1).last() == vote@[i as int]@);
            let signed_vote = match vote_set.get(&vote[i]) {
                Some(sv) => sv,
                None => {
                    proof {
                        lemma_proof_votes_fold_none(set, vv, i + 1, vv.len() as int);
                        assert(vv.subrange(0, vv.len() as int) =~= vv);
                    }
                    return Err(ConsensusError::LoseSignedVote);
                },
            };
            let ghost before = crate::types::pairs_view(tmp@);
            proof {
                lemma_last_index_same_keys(bytes_keyed(tmp@), before, vote@[i as int].voter@);
                assert forall|k: int| 0 <= k < tmp@.len() implies bytes_keyed(tmp@)[k].0
                    == before[k].0 by {}
            }
            match find_bytes_key(&tmp, vote[i].voter.as_slice()) {
                Some(_) => {
                    proof {
                        lemma_last_index(before, vote@[i as int].voter@);
                    }
                },
                None => {
                    tmp.push((copy_bytes(&vote[i].voter), signed_vote.signature));
                    assert(crate::types::pairs_view(tmp@) =~= before.push(
                        (vote@[i as int].voter@, signed_vote@.signature),
                    ));
                },
            }
            i = i + 1;
        }
        assert(vv.subrange(0, vv.len() as int) =~= vv);
        Ok(Proof { block_hash, height, round, precommit_votes: tmp })
    }
}

impl<F: Content> Consensus<F> {
    /// Turns a commit of the BFT core into a commit for the node: a commit
    /// below the current height is `BftCoreErr`, a commit of an unknown block
    /// is `LoseBlock`; otherwise the proof is built from the collected
    /// precommits (see `generate_proof`), kept, and the commit carries a
    /// clone of the block.
    pub fn handle_commit(&mut self, commit: BftCommit) -> (res: Result<Commit<F>>)
        ensures
            commit_post(old(self)@, final(self)@, commit, res),
            service_inv(old(self)@) ==> service_inv(final(self)@),
    {
        let ghost s0 = self@;
        let res = self.commit_block(commit);
        proof {
            if service_inv(s0) {
                crate::collection::lemma_commit_post_keyed(s0, self@, commit, res);
            }
        }
        res
    }

    /// The work of `handle_commit`.
    fn commit_block(&mut self, commit: BftCommit) -> (res: Result<Commit<F>>)
        ensures
            commit_post(old(self)@, final(self)@, commit, res),
    {
        let height = commit.height;
        if height < self.height {
            return Err(ConsensusError::BftCoreErr);
        }
        let round = commit.round;
        let hash = commit.proposal;
        let idx = match find_bytes_key(&self.block_origin_cache, hash.as_slice()) {
            Some(i) => i,
            None => {
                return Err(ConsensusError::LoseBlock);
            },
        };
        proof {
            lemma_last_index(bytes_keyed(self.block_origin_cache@), hash@);
        }
        let block = self.block_origin_cache[idx].1.clone();
        let proof = self.generate_proof(height, round, copy_bytes(&hash), commit.lock_votes)?;
        self.proof = Some(proof.copy());
        Ok(Commit { height, result: block, proof, address: commit.address })
    }

    /// Signs a vote of the BFT core: a vote below the current height is
    /// `BftCoreErr`; a failed signing is `SupportErr` and changes nothing;
    /// otherwise the signed vote is collected and returned.
    pub fn handle_vote<T: ConsensusSupport<F>>(&mut self, support: &T, vote: BftVote) -> (res: Result<
        SignedVote,
    >)
        ensures
            vote_post(*support, old(self)@, final(self)@, vote, res),
            service_inv(old(self)@) ==> service_inv(final(self)@),
    {
        let ghost s0 = self@;
        let res = self.sign_vote(support, vote);
        proof {
            if service_inv(s0) {
                crate::collection::lemma_vote_post_keyed(*support, s0, self@, vote, res);
            }
        }
        res
    }

    /// The work of `handle_vote`.
    fn sign_vote<T: ConsensusSupport<F>>(&mut self, support: &T, vote: BftVote) -> (res: Result<
        SignedVote,
    >)
        ensures
            vote_post(*support, old(self)@, final(self)@, vote, res),
    {
        let height = vote.height;
        if height < self.height {
            return Err(ConsensusError::BftCoreErr);
        }
        let vtype = match vote.vote_type {
            VoteType::Prevote => VoteType::Prevote,
            VoteType::Precommit => VoteType::Precommit,
        };
        let signed_vote = Vote::from_bft_vote(vote.copy(), vtype);
        let bytes = signed_vote.rlp_bytes();
        let hash = support.hash(bytes.as_slice());
        match support.sign(hash.as_slice()) {
            Ok(sig) => {
                let res = SignedVote { vote: signed_vote, signature: sig };
                self.votes.add(height, vote.round, vtype, &vote, &res);
                Ok(res)
            },
            Err(_) => Err(ConsensusError::SupportErr),
        }
    }
}

impl<F: Content> Consensus<F> {
    /// Signs a proposal of the BFT core: without a kept proof it is
    /// `MissingProof`, except at height 1; the lock votes are looked up (see
    /// `proposal_lock_stage`); then the proposal (see `built_proposal`) is
    /// signed over its encoding, a failed signing being `SupportErr`.
    pub fn build_signed_proposal<T: ConsensusSupport<F>>(
        &mut self,
        support: &T,
        proposal: BftProposal,
    ) -> (res: Result<SignedProposal>)
        ensures
            old(self)@.proof is None && old(self)@.height != 1 ==> res == Err::<
                SignedProposal,
                ConsensusError,
            >(ConsensusError::MissingProof) && final(self)@ == old(self)@,
            !(old(self)@.proof is None && old(self)@.height != 1) ==> ({
                let (vc2, r) = proposal_lock_stage(old(self)@.votes, proposal@);
                &&& final(self)@ == (ConsensusView { votes: vc2, ..old(self)@ })
                &&& match r {
                    Err(e) => res == Err::<SignedProposal, ConsensusError>(e),
                    Ok(lv) => match res {
                        Ok(sp) => sp@.proposal == built_proposal(old(self)@, proposal@, lv)
                            && support.signs(
                            support.hash_of(crate::rlp_codec::rlp_proposal(sp@.proposal)),
                            sp@.signature,
                        ),
                        Err(e) => e == ConsensusError::SupportErr,
                    },
                }
            }),
            crate::collection::vc_keyed(old(self)@.votes) ==> crate::collection::vc_keyed(
                final(self)@.votes,
            ) && (res matches Ok(sp) ==> sp@.proposal.lock_votes.len() == (if proposal.lock_round is Some {
                proposal.lock_votes.len() as int
            } else {
                0
            }) && forall|i: int|
                0 <= i < sp@.proposal.lock_votes.len() ==> vote_to_bft(
                    (#[trigger] sp@.proposal.lock_votes[i]).vote,
                ) == proposal@.lock_votes[i]),
            service_inv(old(self)@) ==> service_inv(final(self)@),
    {
        proof {
            if crate::collection::vc_keyed(self@.votes) {
                crate::collection::lemma_proposal_lock_stage_keyed(self@.votes, proposal@);
            }
        }
        if self.proof.is_none() && self.height != 1 {
            return Err(ConsensusError::MissingProof);
        }
        let ghost lvs = crate::core_types::bft_votes_view(proposal.lock_votes@);
        let lock_votes: Vec<SignedVote> = if proposal.lock_round.is_some() {
            let vote_set = match self.votes.get_vote_set(
                proposal.height,
                proposal.round,
                VoteType::Prevote,
            ) {
                Some(vs) => vs,
                None => {
                    return Err(ConsensusError::NoVoteset);
                },
            };
            let ghost set = vote_set@;
            let ghost s1 = self@;
            let mut res: Vec<SignedVote> = Vec::new();
            let mut i: usize = 0;
            assert(lvs.subrange(0, 0) =~= Seq::<BftVoteView>::empty());
            assert(crate::types::signed_votes_view(res@) =~= Seq::<SignedVoteView>::empty());
            while i < proposal.lock_votes.len()
                invariant
                    i <= proposal.lock_votes@.len(),
                    set == vote_set@,
                    self@ == s1,
                    crate::collection::vc_keyed(old(self)@.votes) ==> crate::collection::vc_keyed(
                        s1.votes,
                    ),
                    !(old(self)@.proof is None && old(self)@.height != 1),
                    proposal.lock_round is Some,
                    s1 == (ConsensusView {
                        votes: crate::collection::vc_get_vote_set(
                            old(self)@.votes,
                            proposal.height,
                            proposal.round,
                            VoteType::Prevote,
                        ).0,
                        ..old(self)@
                    }),
                    crate::collection::vc_get_vote_set(
                        old(self)@.votes,
                        proposal.height,
                        proposal.round,
                        VoteType::Prevote,
                    ).1 == Some(set),
                    lvs == crate::core_types::bft_votes_view(proposal.lock_votes@),
                    lvs.len() == proposal.lock_votes@.len(),
                    lock_votes_lookup(set, lvs.subrange(0, i as int)) == Some(
                        crate::types::signed_votes_view(res@),
                    ),
                decreases proposal.lock_votes@.len() - i,
            {
                assert(lvs.subrange(0, i + 1).drop_last() =~= lvs.subrange(0, i as int));
                assert(lvs.subrange(0, i + 1).last() == proposal.lock_votes@[i as int]@);
                match vote_set.get(&proposal.lock_votes[i]) {
                    Some(sv) => {
                        let ghost before = crate::types::signed_votes_view(res@);
                        res.push(sv);
                        assert(crate::types::signed_votes_view(res@) =~= before.push(
                            res@.last()@,
                        ));
                    },
                    None => {
                        proof {
                            lemma_lock_votes_lookup_none(set, lvs, i + 1, lvs.len() as int);
                            assert(lvs.subrange(0, lvs.len() as int) =~= lvs);
                        }
                        return Err(ConsensusError::LoseSignedVote);
                    },
                }
                i = i + 1;
            }
            assert(lvs.subrange(0, lvs.len() as int) =~= lvs);
            res
        } else {
            let res: Vec<SignedVote> = Vec::new();
            assert(crate::types::signed_votes_view(res@) =~= Seq::<SignedVoteView>::empty());
            res
        };
        let proof = if self.height == 1 {
            let genesis = Proof {
                height: 0,
                round: 0,
                block_hash: copy_bytes(&proposal.content),
                precommit_votes: Vec::new(),
            };
            assert(genesis@.precommit_votes =~= Seq::<(Seq<u8>, Seq<u8>)>::empty());
            genesis
        } else {
            let kept = &self.proof;
            match kept {
                Some(p) => p.copy(),
                None => {
                    return Err(ConsensusError::MissingProof);
                },
            }
        };
        let signed_proposal = Proposal {
            height: proposal.height,
            round: proposal.round,
            content: proposal.content,
            proof,
            lock_round: proposal.lock_round,
            lock_votes,
            proposer: proposal.proposer,
        };
        let bytes = signed_proposal.rlp_bytes();
        let hash = support.hash(bytes.as_slice());
        let sig = match support.sign(hash.as_slice()) {
            Ok(sig) => sig,
            Err(_) => {
                return Err(ConsensusError::SupportErr);
            },
        };
        Ok(SignedProposal { proposal: signed_proposal, signature: sig })
    }
}

impl<F: Content> Consensus<F> {
    /// Signs a proposal of the BFT core for the current height (else
    /// `BftCoreErr`; see `build_signed_proposal` for the signing), collects
    /// the signed proposal, and frames it with the encoded block: the signed
    /// proposal's encoding combined with the block frame of the current
    /// height. The block must be known (`LoseBlock`) and encode
    /// (`EncodeErr`); it is then sent for a check, with the frame.
    pub fn handle_proposal<T: ConsensusSupport<F>>(
        &mut self,
        support: &T,
        proposal: BftProposal,
        out: &mut Vec<Action<F>>,
    ) -> (res: Result<Vec<u8>>)
        ensures
            proposal_post(*support, old(self)@, final(self)@, old(out)@, final(out)@, proposal, res),
            service_inv(old(self)@) ==> service_inv(final(self)@),
    {
        let ghost s0 = self@;
        let ghost o0 = out@;
        let ghost bp = proposal;
        let res = self.sign_and_frame_proposal(support, proposal, out);
        proof {
            if service_inv(s0) {
                crate::collection::lemma_proposal_post_keyed(*support, s0, self@, o0, out@, bp, res);
            }
        }
        res
    }

    /// The work of `handle_proposal`.
    fn sign_and_frame_proposal<T: ConsensusSupport<F>>(
        &mut self,
        support: &T,
        proposal: BftProposal,
        out: &mut Vec<Action<F>>,
    ) -> (res: Result<Vec<u8>>)
        ensures
            proposal_post(*support, old(self)@, final(self)@, old(out)@, final(out)@, proposal, res),
    {
        let height = proposal.height;
        let round = proposal.round;
        if height != self.height {
            return Err(ConsensusError::BftCoreErr);
        }
        let hash = copy_bytes(&proposal.content);
        let ghost proposal_content_v = proposal.content@;
        let is_lock = proposal.lock_round.is_some();
        let signed_proposal = self.build_signed_proposal(support, proposal)?;
        self.proposals.add(height, round, &signed_proposal);
        match find_bytes_key(&self.block_origin_cache, hash.as_slice()) {
            Some(i) => {
                proof {
                    lemma_last_index(bytes_keyed(self.block_origin_cache@), hash@);
                }
                let content = self.block_origin_cache[i].1.clone();
                let ghost content_v = content;
                assert(cloned(self.block_origin_cache@[i as int].1, content_v));
                let content_encode = match content.encode() {
                    Ok(e) => e,
                    Err(_) => {
                        return Err(ConsensusError::EncodeErr);
                    },
                };
                let sp_bytes = signed_proposal.rlp_bytes();
                let block_frame = crate::util::encode_block(
                    self.height,
                    content_encode.as_slice(),
                    hash.as_slice(),
                );
                let encode = crate::util::combine(sp_bytes.as_slice(), block_frame.as_slice());
                proof {
                    let c0 = self.block_origin_cache@[i as int].1;
                    assert(bytes_keyed(self.block_origin_cache@)[i as int].1 == c0);
                    assert(key_get(old(self)@.block_origin_cache, proposal_content_v) == Some(c0));
                    assert(cloned(c0, content_v) && content_v.encodes_to(content_encode@));
                    assert(encodes_clone(c0, content_encode@));
                }
                self.check_proposal(
                    support,
                    hash.as_slice(),
                    &self.block_origin_cache[i].1,
                    encode.as_slice(),
                    is_lock,
                    out,
                );
                Ok(encode)
            },
            None => Err(ConsensusError::LoseBlock),
        }
    }
}

impl<F: Content> Consensus<F> {
    /// Takes the outcome of a block check: it goes to the BFT core, and is
    /// remembered for the block unless an outcome is already there.
    pub fn async_verify_resp(&mut self, vr: VerifyResp, out: &mut Vec<Action<F>>) -> (res: Result<()>)
        ensures
            res == Ok::<(), ConsensusError>(()),
            actions_view(final(out)@) == actions_view(old(out)@).push(
                ActionView::VerifyResp(vr.is_pass, vr.proposal@),
            ),
            final(self)@ == (ConsensusView {
                verified_block: key_or_insert(
                    old(self)@.verified_block,
                    vr.proposal@,
                    vr.is_pass,
                ),
                ..old(self)@
            }),
            service_inv(old(self)@) ==> service_inv(final(self)@),
    {
        proof {
            if service_inv(self@) {
                lemma_key_or_insert_distinct(self@.verified_block, vr.proposal@, vr.is_pass);
            }
        }
        out.push(Action::Core(CoreInput::VerifyResp(vr.to_bft_resp())));
        assert(actions_view(out@) =~= actions_view(old(out)@).push(
            ActionView::VerifyResp(vr.is_pass, vr.proposal@),
        ));
        let ghost before = self.verified_block@;
        proof {
            lemma_last_index(bytes_keyed(before), vr.proposal@);
        }
        if find_bytes_key(&self.verified_block, vr.proposal.as_slice()).is_none() {
            self.verified_block.push((vr.proposal, vr.is_pass));
            assert(bytes_keyed(self.verified_block@) =~= bytes_keyed(before).push(
                (vr.proposal@, vr.is_pass),
            ));
        }
        Ok(())
    }

    /// Takes the block of a height with its hash: the hash goes to the BFT
    /// core as the feed of the height, and the block is kept under it unless
    /// a block is already there.
    pub fn async_feed_with_hash(&mut self, f: Feed<F>, hash: Vec<u8>, out: &mut Vec<Action<F>>) -> (res:
        Result<()>)
        ensures
            res == Ok::<(), ConsensusError>(()),
            actions_view(final(out)@) == actions_view(old(out)@).push(
                ActionView::Feed(f.height, hash@),
            ),
            final(self)@ == (ConsensusView {
                block_origin_cache: key_or_insert(old(self)@.block_origin_cache, hash@, f.content),
                ..old(self)@
            }),
            service_inv(old(self)@) ==> service_inv(final(self)@),
    {
        proof {
            if service_inv(self@) {
                lemma_key_or_insert_distinct(self@.block_origin_cache, hash@, f.content);
            }
        }
        out.push(
            Action::Core(CoreInput::Feed(BftFeed { height: f.height, proposal: copy_bytes(&hash) })),
        );
        assert(actions_view(out@) =~= actions_view(old(out)@).push(
            ActionView::Feed(f.height, hash@),
        ));
        let ghost before = self.block_origin_cache@;
        proof {
            lemma_last_index(bytes_keyed(before), hash@);
        }
        if find_bytes_key(&self.block_origin_cache, hash.as_slice()).is_none() {
            self.block_origin_cache.push((hash, f.content));
            assert(bytes_keyed(self.block_origin_cache@) =~= bytes_keyed(before).push(
                (hash@, f.content),
            ));
        }
        Ok(())
    }

    /// Takes a message the service sent itself: a block check's outcome (see
    /// `async_verify_resp`) or a block of a height, kept and fed under its
    /// hash as its `Content` computes it (see `async_feed_with_hash`).
    pub fn async_process(&mut self, msg: AsyncMsg<F>, out: &mut Vec<Action<F>>) -> (res: Result<()>)
        ensures
            res == Ok::<(), ConsensusError>(()),
            service_inv(old(self)@) ==> service_inv(final(self)@),
            match msg {
                AsyncMsg::VerifyResp(vr) => {
                    &&& actions_view(final(out)@) == actions_view(old(out)@).push(
                        ActionView::VerifyResp(vr.is_pass, vr.proposal@),
                    )
                    &&& final(self)@ == (ConsensusView {
                        verified_block: key_or_insert(
                            old(self)@.verified_block,
                            vr.proposal@,
                            vr.is_pass,
                        ),
                        ..old(self)@
                    })
                },
                AsyncMsg::Feed(f) => exists|h: Seq<u8>|
                    #![trigger key_or_insert(old(self)@.block_origin_cache, h, f.content)]
                    {
                        &&& f.content.hashes_to(h)
                        &&& actions_view(final(out)@) == actions_view(old(out)@).push(
                            ActionView::Feed(f.height, h),
                        )
                        &&& final(self)@ == (ConsensusView {
                            block_origin_cache: key_or_insert(
                                old(self)@.block_origin_cache,
                                h,
                                f.content,
                            ),
                            ..old(self)@
                        })
                    },
            },
    {
        let ghost s0 = self@;
        match msg {
            AsyncMsg::VerifyResp(vr) => {
                let ghost h = vr.proposal@;
                let ghost b = vr.is_pass;
                proof {
                    if keys_distinct(s0.verified_block) {
                        lemma_key_or_insert_distinct(s0.verified_block, h, b);
                    }
                }
                self.async_verify_resp(vr, out)
            },
            AsyncMsg::Feed(f) => {
                let hash = f.content.hash();
                proof {
                    if keys_distinct(s0.block_origin_cache) {
                        lemma_key_or_insert_distinct(s0.block_origin_cache, hash@, f.content);
                    }
                }
                self.async_feed_with_hash(f, hash, out)
            },
        }
    }
}

impl<F: Content> Consensus<F> {
    /// Receives a signed vote from another node (see `handle_signed_vote`);
    /// on success its vote goes to the BFT core.
    pub fn receive_signed_vote<T: ConsensusSupport<F>>(
        &mut self,
        support: &T,
        sv: SignedVote,
        out: &mut Vec<Action<F>>,
    ) -> (res: Result<()>)
        requires
            old(self).height >= 1 || vote_signer(*support, sv@) is None,
        ensures
            final(self)@ == after_signed_vote(old(self)@, *support, sv@),
            match signed_vote_verdict(old(self)@, *support, sv@) {
                Some(e) => res == Err::<(), ConsensusError>(e) && final(out)@ == old(out)@,
                None => res == Ok::<(), ConsensusError>(()) && actions_view(final(out)@)
                    == actions_view(old(out)@).push(ActionView::Vote(vote_to_bft(sv@.vote))),
            },
            service_inv(old(self)@) ==> service_inv(final(self)@),
    {
        let vote = self.handle_signed_vote(support, sv)?;
        out.push(Action::Core(CoreInput::Vote(vote)));
        assert(actions_view(out@) =~= actions_view(old(out)@).push(
            ActionView::Vote(vote_to_bft(sv@.vote)),
        ));
        Ok(())
    }

    /// Handles a signed proposal at once (see `signed_proposal_step`): on
    /// success its proposal goes to the BFT core, with the verify response
    /// if there is one.
    pub fn deliver_signed_proposal<T: ConsensusSupport<F>>(
        &mut self,
        support: &T,
        sp: SignedProposal,
        frame: &[u8],
        out: &mut Vec<Action<F>>,
    ) -> (res: Result<()>)
        requires
            proposal_fits(*support, old(self).height, sp@),
        ensures
            ({
                let (s2, r, pushed) = signed_proposal_step(old(self)@, *support, sp@);
                &&& final(self)@ == s2
                &&& res == unit_result(r)
                &&& answers_all(
                    *support,
                    actions_view(final(out)@),
                    actions_view(old(out)@) + signed_proposal_actions(
                        old(self)@,
                        sp@,
                        frame@,
                        pushed,
                        r,
                    ),
                )
            }),
            service_inv(old(self)@) ==> service_inv(final(self)@),
    {
        proof {
            if service_inv(self@) {
                lemma_signed_proposal_step_frame(self@, *support, sp@);
                crate::collection::lemma_signed_proposal_step_keyed(self@, *support, sp@);
            }
        }
        let ghost s0 = self@;
        let ghost spv = sp@;
        let ghost p = sp@.proposal;
        let ghost step = signed_proposal_step(self@, *support, sp@);
        let ghost before = out@;
        let ghost all = signed_proposal_actions(s0, spv, frame@, step.2, step.1);
        let ghost chk: Seq<ActionView<F>> = if step.2 {
            seq![
                ActionView::CheckAsked(
                    p.content,
                    key_get(s0.block_origin_cache, p.content).unwrap(),
                    frame@,
                    s0.height,
                    p.lock_round is Some,
                ),
            ]
        } else {
            Seq::empty()
        };
        let handled = self.handle_signed_proposal(support, sp, frame, out);
        proof {
            if step.2 {
                lemma_check_pushed_view(
                    *support,
                    before,
                    out@,
                    p.content,
                    key_get(s0.block_origin_cache, p.content).unwrap(),
                    frame@,
                    s0.height,
                    p.lock_round is Some,
                );
                assert(actions_view(before).push(chk[0]) =~= actions_view(before) + chk);
            } else {
                assert(actions_view(out@) =~= actions_view(before) + chk);
                lemma_actions_done(out@);
                lemma_answers_refl(*support, actions_view(out@));
            }
        }
        let (proposal, verify_resp) = match handled {
            Ok(x) => x,
            Err(e) => {
                assert(all =~= chk);
                return Err(e);
            },
        };
        let ghost mid = out@;
        out.push(Action::Core(CoreInput::Proposal(proposal)));
        match verify_resp {
            Some(res) => {
                out.push(Action::Core(CoreInput::VerifyResp(res.to_bft_resp())));
            },
            None => {},
        }
        proof {
            let tail = all.subrange(chk.len() as int, all.len() as int);
            assert(all =~= chk + tail);
            assert(actions_view(out@) =~= actions_view(mid) + tail);
            lemma_actions_done(out@);
            lemma_actions_done(mid);
            lemma_answers_eq(*support, actions_view(out@), actions_view(mid), tail);
            lemma_answers_extend(
                *support,
                actions_view(mid),
                actions_view(out@),
                actions_view(before),
                chk,
                tail,
            );
            assert(actions_view(before) + chk + tail =~= actions_view(before) + all);
        }
        Ok(())
    }

    /// Receives a signed proposal from another node with its block, the
    /// block's hash and the frame it came in (see
    /// `receive_proposal_outcome`): the block is kept, and the proposal is
    /// cached or handled at once.
    pub fn receive_signed_proposal<T: ConsensusSupport<F>>(
        &mut self,
        support: &T,
        sp: SignedProposal,
        block: F,
        hash: Vec<u8>,
        frame: Vec<u8>,
        out: &mut Vec<Action<F>>,
    ) -> (res: Result<()>)
        requires
            receivable(*support, old(self).height, sp@),
        ensures
            exists|kept: F|
                #![trigger cloned(block, kept)]
                {
                    let o = receive_proposal_outcome(
                        old(self)@,
                        *support,
                        sp@,
                        kept,
                        block,
                        hash@,
                        frame@,
                    );
                    &&& cloned(block, kept)
                    &&& final(self)@ == o.0
                    &&& res == o.1
                    &&& answers_all(*support, actions_view(final(out)@), actions_view(old(out)@) + o.2)
                },
            service_inv(old(self)@) ==> service_inv(final(self)@),
    {
        let ghost s0 = self@;
        let Ghost(kept_v) = self.keep_block(&hash, &block);
        let ghost s1 = self@;
        let h = sp.proposal.height;
        if h > self.height && h - self.height < CACHE_NUMBER as u64 {
            let ghost o = receive_proposal_outcome(s0, *support, sp@, kept_v, block, hash@, frame@);
            proof {
                if service_inv(self@) {
                    lemma_cache_push_fits(self@, h, (sp@, block, frame@));
                }
            }
            self.cache_proposal(sp, block, frame);
            assert(actions_view(out@) =~= actions_view(old(out)@) + Seq::<ActionView<F>>::empty());
            proof {
                lemma_actions_done(out@);
                lemma_answers_refl(*support, actions_view(out@));
            }
            assert(self@ == o.0);
            return Ok(());
        }
        let ghost sp_v = sp@;
        let ghost frame_v = frame@;
        let res = self.deliver_signed_proposal(support, sp, frame.as_slice(), out);
        let ghost o = receive_proposal_outcome(s0, *support, sp_v, kept_v, block, hash@, frame_v);
        assert(self@ == o.0);
        assert(res == o.1);
        res
    }
}

impl<F: Content> Consensus<F> {
    /// Keeps a copy of `block` under `hash` unless a block is kept there
    /// already; gives the copy.
    pub(crate) fn keep_block(&mut self, hash: &Vec<u8>, block: &F) -> (kept: Ghost<F>)
        ensures
            cloned(*block, kept@),
            final(self)@ == (ConsensusView {
                block_origin_cache: key_or_insert(old(self)@.block_origin_cache, hash@, kept@),
                ..old(self)@
            }),
            service_inv(old(self)@) ==> service_inv(final(self)@),
    {
        let kept = block.clone();
        let ghost kept_v = kept;
        let ghost before_blocks = self.block_origin_cache@;
        proof {
            lemma_last_index(bytes_keyed(before_blocks), hash@);
            if service_inv(self@) {
                lemma_key_or_insert_distinct(self@.block_origin_cache, hash@, kept_v);
            }
        }
        if find_bytes_key(&self.block_origin_cache, hash.as_slice()).is_none() {
            self.block_origin_cache.push((copy_bytes(hash), kept));
            assert(bytes_keyed(self.block_origin_cache@) =~= bytes_keyed(before_blocks).push(
                (hash@, kept_v),
            ));
        }
        Ghost(kept_v)
    }

    /// Adds a signed proposal with its block and frame to the cache of its
    /// height.
    pub(crate) fn cache_proposal(&mut self, sp: SignedProposal, block: F, frame: Vec<u8>)
        ensures
            final(self)@ == (ConsensusView {
                proposal_cache: cache_push(
                    old(self)@.proposal_cache,
                    sp@.proposal.height,
                    (sp@, block, frame@),
                ),
                ..old(self)@
            }),
    {
        let h = sp.proposal.height;
        let ghost old_cache = self.proposal_cache@;
        let ghost item = (sp@, block, frame@);
        let mut list: Vec<(SignedProposal, F, Vec<u8>)> = match self.proposal_cache.remove(&h) {
            Some(l) => l,
            None => Vec::new(),
        };
        let ghost old_list = list@;
        assert(cached_proposals_view(old_list) == if proposal_cache_view(old_cache).contains_key(h) {
            proposal_cache_view(old_cache)[h]
        } else {
            Seq::empty()
        }) by {
            if !old_cache.contains_key(h) {
                assert(cached_proposals_view(old_list) =~= Seq::<
                    (SignedProposalView, F, Seq<u8>),
                >::empty());
            }
        }
        list.push((sp, block, frame));
        assert(cached_proposals_view(list@) =~= cached_proposals_view(old_list).push(item));
        self.proposal_cache.insert(h, list);
        assert(proposal_cache_view(self.proposal_cache@) =~= cache_push(
            proposal_cache_view(old_cache),
            h,
            item,
        ));
    }
}

impl<F: Content> Consensus<F> {
    /// Takes the signed votes cached for `height` out of the cache and
    /// handles them in order (see `cached_votes_fold`), each vote going to
    /// the BFT core.
    pub fn send_cache_vote<T: ConsensusSupport<F>>(
        &mut self,
        support: &T,
        height: u64,
        out: &mut Vec<Action<F>>,
    ) -> (res: Result<()>)
        requires
            old(self).height >= 1,
        ensures
            ({
                let (items, rest) = cache_take(old(self)@.vote_cache, height);
                let s1 = ConsensusView { vote_cache: rest, ..old(self)@ };
                let (s2, r, acts) = cached_votes_fold(s1, *support, items);
                &&& final(self)@ == s2
                &&& res == r
                &&& actions_view(final(out)@) == actions_view(old(out)@) + acts
            }),
            service_inv(old(self)@) ==> service_inv(final(self)@),
    {
        let ghost s0 = self@;
        proof {
            let (items, rest) = cache_take(s0.vote_cache, height);
            let s1 = ConsensusView { vote_cache: rest, ..s0 };
            if service_inv(s0) {
                lemma_cached_votes_fold_frame(s1, *support, items);
                crate::collection::lemma_cached_votes_fold_keyed(s1, *support, items);
            }
        }
        let ghost out0 = out@;
        let votes: Vec<SignedVote> = match self.vote_cache.remove(&height) {
            Some(l) => {
                assert(vote_cache_view(self.vote_cache@) =~= s0.vote_cache.remove(height));
                l
            },
            None => {
                assert(vote_cache_view(self.vote_cache@) =~= s0.vote_cache.remove(height));
                assert(actions_view(out@) =~= actions_view(old(out)@) + Seq::<ActionView<F>>::empty());
                return Ok(());
            },
        };
        let ghost items = crate::types::signed_votes_view(votes@);
        let ghost s1 = self@;
        assert(items.subrange(0, 0) =~= Seq::<SignedVoteView>::empty());
        assert(actions_view(out@) =~= actions_view(out0) + Seq::<ActionView<F>>::empty());
        let mut i: usize = 0;
        while i < votes.len()
            invariant
                i <= votes@.len(),
                items == crate::types::signed_votes_view(votes@),
                items.len() == votes@.len(),
                self.height >= 1,
                s0 == old(self)@,
                out0 == old(out)@,
                cache_take(s0.vote_cache, height).0 == items,
                s1 == (ConsensusView { vote_cache: cache_take(s0.vote_cache, height).1, ..s0 }),
                service_inv(s0) ==> service_inv(cached_votes_fold(s1, *support, items).0),
                ({
                    let (s2, r, acts) = cached_votes_fold(s1, *support, items.subrange(0, i as int));
                    &&& self@ == s2
                    &&& r == Ok::<(), ConsensusError>(())
                    &&& actions_view(out@) == actions_view(out0) + acts
                }),
            decreases votes@.len() - i,
        {
            assert(items.subrange(0, i + 1).drop_last() =~= items.subrange(0, i as int));
            assert(items.subrange(0, i + 1).last() == votes@[i as int]@);
            let ghost acts0 = cached_votes_fold(s1, *support, items.subrange(0, i as int)).2;
            proof {
                lemma_after_signed_vote_frame(self@, *support, votes@[i as int]@);
            }
            let ghost sa = self@;
            assert(cached_votes_fold(s1, *support, items.subrange(0, i + 1)) == {
                let sv = votes@[i as int]@;
                let s2 = after_signed_vote(sa, *support, sv);
                match signed_vote_verdict(sa, *support, sv) {
                    Some(e) => (s2, Err(e), acts0),
                    None => (s2, Ok(()), acts0.push(ActionView::Vote(vote_to_bft(sv.vote)))),
                }
            });
            let vote = match self.handle_signed_vote(support, votes[i].copy()) {
                Ok(v) => v,
                Err(e) => {
                    proof {
                        lemma_cached_votes_fold_err(s1, *support, items, i + 1, items.len() as int);
                        assert(items.subrange(0, items.len() as int) =~= items);
                    }
                    return Err(e);
                },
            };
            assert(vote@ == vote_to_bft(votes@[i as int]@.vote));
            assert(actions_view(out@) == actions_view(out0) + acts0);
            let ghost out1 = out@;
            out.push(Action::Core(CoreInput::Vote(vote)));
            assert(actions_view(out@) =~= actions_view(out1).push(
                ActionView::Vote(vote_to_bft(votes@[i as int]@.vote)),
            ));
            assert(actions_view(out@) =~= actions_view(out0) + acts0.push(
                ActionView::Vote(vote_to_bft(votes@[i as int]@.vote)),
            ));
            i = i + 1;
        }
        assert(items.subrange(0, items.len() as int) =~= items);
        Ok(())
    }

    /// Takes the signed proposals cached for `height` out of the cache and
    /// handles them in order (see `cached_proposals_fold`).
    pub fn send_cache_proposal<T: ConsensusSupport<F>>(
        &mut self,
        support: &T,
        height: u64,
        out: &mut Vec<Action<F>>,
    ) -> (res: Result<()>)
        requires
            old(self).height >= 1,
            proposal_cache_ok(old(self)@),
        ensures
            ({
                let (items, rest) = cache_take(old(self)@.proposal_cache, height);
                let s1 = ConsensusView { proposal_cache: rest, ..old(self)@ };
                let (s2, r, acts) = cached_proposals_fold(s1, *support, items);
                &&& final(self)@ == s2
                &&& res == r
                &&& answers_all(*support, actions_view(final(out)@), actions_view(old(out)@) + acts)
            }),
            proposal_cache_ok(final(self)@),
            service_inv(old(self)@) ==> service_inv(final(self)@),
    {
        let ghost s0 = self@;
        proof {
            let (items, rest) = cache_take(s0.proposal_cache, height);
            let s1 = ConsensusView { proposal_cache: rest, ..s0 };
            if service_inv(s0) {
                lemma_cached_proposals_fold_frame(s1, *support, items);
                crate::collection::lemma_cached_proposals_fold_keyed(s1, *support, items);
            }
        }
        let ghost out0 = out@;
        let list: Vec<(SignedProposal, F, Vec<u8>)> = match self.proposal_cache.remove(&height) {
            Some(l) => {
                assert(proposal_cache_view(self.proposal_cache@) =~= s0.proposal_cache.remove(height));
                assert(proposal_cache_ok(self@)) by {
                    assert forall|g: u64| #[trigger] self@.proposal_cache.contains_key(g) implies proposals_fit(
                        self@.proposal_cache[g],
                    ) by {
                        assert(s0.proposal_cache.contains_key(g));
                    }
                }
                assert(s0.proposal_cache.contains_key(height));
                assert(proposals_fit(cached_proposals_view(l@)));
                l
            },
            None => {
                assert(proposal_cache_view(self.proposal_cache@) =~= s0.proposal_cache.remove(height));
                assert(actions_view(out@) =~= actions_view(old(out)@) + Seq::<ActionView<F>>::empty());
                proof {
                    lemma_actions_done(out@);
                    lemma_answers_refl(*support, actions_view(out@));
                }
                return Ok(());
            },
        };
        let ghost items = cached_proposals_view(list@);
        let ghost s1 = self@;
        assert(items.subrange(0, 0) =~= Seq::<(SignedProposalView, F, Seq<u8>)>::empty());
        assert(actions_view(out@) =~= actions_view(out0) + Seq::<ActionView<F>>::empty());
        proof {
            lemma_actions_done(out@);
            lemma_answers_refl(*support, actions_view(out@));
        }
        let mut i: usize = 0;
        while i < list.len()
            invariant
                i <= list@.len(),
                items == cached_proposals_view(list@),
                items.len() == list@.len(),
                s0 == old(self)@,
                out0 == old(out)@,
                cache_take(s0.proposal_cache, height).0 == items,
                s1 == (ConsensusView {
                    proposal_cache: cache_take(s0.proposal_cache, height).1,
                    ..s0
                }),
                forall|k: int|
                    0 <= k < items.len() ==> (#[trigger] items[k]).0.proposal.height
                        + items[k].0.proposal.round <= u64::MAX,
                self.height >= 1,
                proposal_cache_ok(self@),
                self@.proposal_cache == s1.proposal_cache,
                service_inv(s0) ==> service_inv(cached_proposals_fold(s1, *support, items).0),
                ({
                    let (s2, r, acts) = cached_proposals_fold(
                        s1,
                        *support,
                        items.subrange(0, i as int),
                    );
                    &&& self@ == s2
                    &&& r == Ok::<(), ConsensusError>(())
                    &&& answers_all(*support, actions_view(out@), actions_view(out0) + acts)
                }),
            decreases list@.len() - i,
        {
            assert(items.subrange(0, i + 1).drop_last() =~= items.subrange(0, i as int));
            assert(items.subrange(0, i + 1).last() == items[i as int]);
            assert(items[i as int].0 == list@[i as int].0@);
            let ghost acts0 = cached_proposals_fold(s1, *support, items.subrange(0, i as int)).2;
            proof {
                lemma_signed_proposal_step_frame(self@, *support, list@[i as int].0@);
            }
            let sp = list[i].0.copy();
            let ghost mid = out@;
            let ghost st = self@;
            let r = self.deliver_signed_proposal(support, sp, list[i].2.as_slice(), out);
            proof {
                let it = items[i as int];
                let step = signed_proposal_step(st, *support, it.0);
                assert(list@[i as int].2@ == it.2);
                lemma_actions_done(mid);
                lemma_answers_extend(
                    *support,
                    actions_view(mid),
                    actions_view(out@),
                    actions_view(out0),
                    acts0,
                    signed_proposal_actions(st, it.0, it.2, step.2, step.1),
                );
                assert(actions_view(out0) + acts0 + signed_proposal_actions(st, it.0, it.2, step.2, step.1)
                    =~= actions_view(out0) + cached_proposals_fold(
                    s1,
                    *support,
                    items.subrange(0, i + 1),
                ).2);
            }
            if let Err(e) = r {
                proof {
                    lemma_cached_proposals_fold_err(s1, *support, items, i + 1, items.len() as int);
                    assert(items.subrange(0, items.len() as int) =~= items);
                }
                return Err(e);
            }
            i = i + 1;
        }
        assert(items.subrange(0, items.len() as int) =~= items);
        Ok(())
    }
}

impl<F: Content> Consensus<F> {
    /// Receives a rich status (see `status_outcome`).
    #[verifier::rlimit(30)]
    pub fn receive_status<T: ConsensusSupport<F>>(
        &mut self,
        support: &T,
        rs: Status,
        out: &mut Vec<Action<F>>,
    ) -> (res: Result<()>)
        requires
            rs.height < u64::MAX,
            proposal_cache_ok(old(self)@),
        ensures
            ({
                let o = status_outcome(
                    old(self)@,
                    *support,
                    rs.height,
                    rs.interval,
                    nodes_view(rs.authority_list@),
                );
                &&& final(self)@ == o.0
                &&& res == o.1
                &&& answers_all(*support, actions_view(final(out)@), actions_view(old(out)@) + o.2)
            }),
            service_inv(old(self)@) ==> service_inv(final(self)@),
    {
        let ghost s0 = self@;
        let ghost out0 = out@;
        let addrs = crate::util::into_addr_set(rs.authority_list.as_slice());
        let ghost nodes = nodes_view(rs.authority_list@);
        let status_msg = Status {
            height: rs.height,
            interval: rs.interval,
            authority_list: crate::types::copy_nodes(&rs.authority_list),
        };
        let status = match self.handle_rich_status(status_msg) {
            Ok(st) => st,
            Err(e) => {
                assert(actions_view(out@) =~= actions_view(out0) + Seq::<ActionView<F>>::empty());
                proof {
                    lemma_actions_done(out@);
                    lemma_answers_refl(*support, actions_view(out@));
                }
                return Err(e);
            },
        };
        let ghost acts1 = power_after::<F>(s0.consensus_power, s0.address, node_addresses(nodes)).1;
        if contains_address(addrs.as_slice(), self.address.as_slice()) {
            if !self.consensus_power {
                self.consensus_power = true;
                out.push(Action::Core(CoreInput::Start));
            }
        } else if self.consensus_power {
            self.consensus_power = false;
            out.push(Action::Core(CoreInput::Pause));
        }
        assert(actions_view(out@) =~= actions_view(out0) + acts1);
        out.push(Action::Core(CoreInput::Status(status)));
        let ghost acts2 = acts1.push(
            ActionView::Status(rs.height, rs.interval, node_addresses(nodes)),
        );
        assert(actions_view(out@) =~= actions_view(out0) + acts2);
        let ghost s2 = self@;
        proof {
            let (items_p, rest_p) = cache_take(s2.proposal_cache, s2.height);
            lemma_cached_proposals_fold_frame(
                ConsensusView { proposal_cache: rest_p, ..s2 },
                *support,
                items_p,
            );
        }
        let ghost mid0 = out@;
        proof {
            lemma_actions_done(mid0);
            lemma_answers_refl(*support, actions_view(mid0));
        }
        let ghost a4 = {
            let (items_p, rest_p) = cache_take(s2.proposal_cache, s2.height);
            cached_proposals_fold(ConsensusView { proposal_cache: rest_p, ..s2 }, *support, items_p).2
        };
        let height = self.height;
        let rp = self.send_cache_proposal(support, height, out);
        proof {
            lemma_answers_extend(*support, actions_view(mid0), actions_view(out@), actions_view(out0), acts2, a4);
        }
        if let Err(e) = rp {
            return Err(e);
        }
        let ghost mid1 = out@;
        let ghost s4 = self@;
        let ghost a6 = {
            let (items_v, rest_v) = cache_take(s4.vote_cache, s4.height);
            cached_votes_fold(ConsensusView { vote_cache: rest_v, ..s4 }, *support, items_v).2
        };
        let height = self.height;
        let rv = self.send_cache_vote(support, height, out);
        proof {
            lemma_actions_done(out@);
            lemma_actions_done(mid1);
            lemma_answers_eq(*support, actions_view(out@), actions_view(mid1), a6);
            lemma_answers_extend(
                *support,
                actions_view(mid1),
                actions_view(out@),
                actions_view(out0),
                acts2 + a4,
                a6,
            );
            assert(actions_view(out0) + (acts2 + a4) + a6 =~= actions_view(out0) + (acts2 + a4 + a6));
            assert(actions_view(out0) + acts2 + a4 =~= actions_view(out0) + (acts2 + a4));
        }
        rv
    }

    /// Asks the node for the block of `height`; a block it gives is queued
    /// as the feed of that height.
    pub fn ask_for_proposal<T: ConsensusSupport<F>>(
        &self,
        support: &T,
        height: u64,
        out: &mut Vec<Action<F>>,
    )
        ensures
            final(out)@ == old(out)@ || exists|c: F|
                final(out)@ == old(out)@.push(
                    Action::Async(AsyncMsg::Feed(Feed { height, content: c })),
                ),
    {
        if let Ok(proposal) = support.get_content(height) {
            out.push(Action::Async(AsyncMsg::Feed(Feed { content: proposal, height })));
        }
    }
}

/// What taking a message of the BFT core gives once its message is sent:
/// nothing when the send succeeds, `SupportErr` when it fails.
pub open spec fn sent_result(res: Result<Option<Status>>) -> bool {
    res == Ok::<Option<Status>, ConsensusError>(None) || res == Err::<Option<Status>, ConsensusError>(
        ConsensusError::SupportErr,
    )
}

impl<F: Content> Consensus<F> {
    /// Takes a message of the BFT core. A proposal is signed and framed (see
    /// `handle_proposal`) and the frame sent to the other nodes; a vote is
    /// signed (see `handle_vote`) and its encoding sent; a commit becomes a
    /// commit for the node (see `handle_commit`), which the node commits,
    /// and the status it gives back is returned for the runner to receive;
    /// a request for the block of a height asks the node for it. A failed
    /// send or commit is `SupportErr`.
    pub fn core_process<T: ConsensusSupport<F>>(
        &mut self,
        support: &T,
        msg: CoreOutput,
        out: &mut Vec<Action<F>>,
    ) -> (res: Result<Option<Status>>)
        ensures
            match msg {
                CoreOutput::Proposal(p) => exists|r: Result<Vec<u8>>|
                    #![trigger proposal_post(*support, old(self)@, final(self)@, old(out)@, final(out)@, p, r)]
                    proposal_post(*support, old(self)@, final(self)@, old(out)@, final(out)@, p, r)
                        && match r {
                        Err(e) => res == Err::<Option<Status>, ConsensusError>(e),
                        Ok(bytes) => support.transmits(OutputView::SignedProposal(bytes@), res is Ok)
                            && sent_result(res),
                    },
                CoreOutput::Vote(v) => final(out)@ == old(out)@ && exists|r: Result<SignedVote>|
                    #![trigger vote_post(*support, old(self)@, final(self)@, v, r)]
                    vote_post(*support, old(self)@, final(self)@, v, r) && match r {
                        Err(e) => res == Err::<Option<Status>, ConsensusError>(e),
                        Ok(sv) => support.transmits(
                            OutputView::SignedVote(crate::rlp_codec::rlp_signed_vote(sv@)),
                            res is Ok,
                        ) && sent_result(res),
                    },
                CoreOutput::Commit(c) => final(out)@ == old(out)@ && exists|r: Result<Commit<F>>|
                    #![trigger commit_post(old(self)@, final(self)@, c, r)]
                    commit_post(old(self)@, final(self)@, c, r) && match r {
                        Err(e) => res == Err::<Option<Status>, ConsensusError>(e),
                        Ok(cm) => support.commits(cm, res is Ok) && (res matches Ok(Some(_)) || res
                            == Err::<Option<Status>, ConsensusError>(ConsensusError::SupportErr)),
                    },
                CoreOutput::GetProposalRequest(h) => final(self)@ == old(self)@ && res == Ok::<
                    Option<Status>,
                    ConsensusError,
                >(None) && (final(out)@ == old(out)@ || exists|c: F|
                    final(out)@ == old(out)@.push(
                        Action::Async(AsyncMsg::Feed(Feed { height: h, content: c })),
                    )),
            },
            service_inv(old(self)@) ==> service_inv(final(self)@),
    {
        let ghost s0 = self@;
        let ghost o0 = out@;
        match msg {
            CoreOutput::Proposal(p) => {
                let ghost pv = p;
                let r = self.handle_proposal(support, p, out);
                let ghost rv = r;
                proof {
                    if service_inv(s0) {
                        crate::collection::lemma_proposal_post_keyed(*support, s0, self@, o0, out@, pv, rv);
                    }
                }
                match r {
                    Ok(bytes) => {
                        if support.transmit(ConsensusOutput::SignedProposal(bytes)).is_ok() {
                            Ok(None)
                        } else {
                            Err(ConsensusError::SupportErr)
                        }
                    },
                    Err(e) => Err(e),
                }
            },
            CoreOutput::Vote(v) => {
                let ghost vv = v;
                let r = self.handle_vote(support, v);
                proof {
                    if service_inv(s0) {
                        crate::collection::lemma_vote_post_keyed(*support, s0, self@, vv, r);
                    }
                }
                match r {
                    Ok(sv) => {
                        let bytes = sv.rlp_bytes();
                        if support.transmit(ConsensusOutput::SignedVote(bytes)).is_ok() {
                            Ok(None)
                        } else {
                            Err(ConsensusError::SupportErr)
                        }
                    },
                    Err(e) => Err(e),
                }
            },
            CoreOutput::Commit(c) => {
                let ghost cv = c;
                let r = self.handle_commit(c);
                proof {
                    if service_inv(s0) {
                        crate::collection::lemma_commit_post_keyed(s0, self@, cv, r);
                    }
                }
                match r {
                    Ok(commit) => match support.commit(commit) {
                        Ok(status) => Ok(Some(status)),
                        Err(_) => Err(ConsensusError::SupportErr),
                    },
                    Err(e) => Err(e),
                }
            },
            CoreOutput::GetProposalRequest(h) => {
                self.ask_for_proposal(support, h, out);
                Ok(None)
            },
        }
    }
}

// ----------------------------------------------------------------------------
// Messages from the node
// ----------------------------------------------------------------------------
/// Whether a frame whose outer part is complete also holds the eight
/// height bytes of its block frame.
pub open spec fn frame_has_height(b: Seq<u8>) -> bool {
    crate::util::extract_ok(b) ==> crate::util::spec_extract(b).1.len() >= 8
}

/// What the frame of a signed proposal with its block holds: the signed
/// proposal, the encoded block and the block hash; `None` when it does not
/// read.
pub open spec fn proposal_frame_parts(b: Seq<u8>) -> Option<(SignedProposalView, Seq<u8>, Seq<u8>)> {
    if crate::util::extract_ok(b) {
        let (spb, frame) = crate::util::spec_extract(b);
        let rest = frame.subrange(8, frame.len() as int);
        if crate::util::extract_ok(rest) {
            match crate::rlp_decode::spec_decode_signed_proposal(spb) {
                Some(sp) => Some(
                    (sp, crate::util::spec_extract(rest).1, crate::util::spec_extract(rest).0),
                ),
                None => None,
            }
        } else {
            None
        }
    } else {
        None
    }
}

/// Whether a signed proposal can be received at `height` without an
/// overflow: one of a near future height is cached, to be handled once that
/// height comes, so its height and round must add up within a `u64`; any
/// other is handled at once and must be one that can be (see
/// `proposal_fits`).
pub open spec fn receivable<F: Content, T: ConsensusSupport<F>>(
    support: T,
    height: u64,
    sp: SignedProposalView,
) -> bool {
    if sp.proposal.height > height && sp.proposal.height - height < CACHE_NUMBER {
        sp.proposal.height + sp.proposal.round <= u64::MAX
    } else {
        proposal_fits(support, height, sp)
    }
}

/// What taking a message from the node leaves and returns. A signed
/// proposal frame or a signed vote that does not read is `DecodeErr`; so are
/// block bytes that are no block's encoding. Otherwise the signed proposal
/// is received with a block that its block bytes read as (see
/// `receive_proposal_outcome`),
/// the signed vote is received (see `handle_signed_vote`), and the status is
/// received (see `status_outcome`).
pub open spec fn external_post<F: Content, T: ConsensusSupport<F>>(
    s: ConsensusView<F>,
    s2: ConsensusView<F>,
    support: T,
    msg: ConsensusInput,
    res: Result<()>,
    out: Seq<Action<F>>,
    out2: Seq<Action<F>>,
) -> bool {
    match msg {
        ConsensusInput::SignedProposal(b) => match proposal_frame_parts(b@) {
            None => res == Err::<(), ConsensusError>(ConsensusError::DecodeErr) && s2 == s && out2
                == out,
            Some((sp, blk, hash)) => (res == Err::<(), ConsensusError>(ConsensusError::DecodeErr) && s2
                == s && out2 == out && forall|v: F| !F::decodes_to(blk, v)) || exists|block: F, kept: F|
                #![trigger cloned(block, kept)]
                F::decodes_to(blk, block) && cloned(block, kept) && {
                    let o = receive_proposal_outcome(s, support, sp, kept, block, hash, b@);
                    &&& s2 == o.0
                    &&& res == o.1
                    &&& answers_all(support, actions_view(out2), actions_view(out) + o.2)
                },
        },
        ConsensusInput::SignedVote(b) => match crate::rlp_decode::spec_decode_signed_vote(b@) {
            None => res == Err::<(), ConsensusError>(ConsensusError::DecodeErr) && s2 == s && out2
                == out,
            Some(sv) => s2 == after_signed_vote(s, support, sv) && match signed_vote_verdict(
                s,
                support,
                sv,
            ) {
                Some(e) => res == Err::<(), ConsensusError>(e) && out2 == out,
                None => res == Ok::<(), ConsensusError>(()) && actions_view(out2) == actions_view(
                    out,
                ).push(ActionView::Vote(vote_to_bft(sv.vote))),
            },
        },
        ConsensusInput::Status(rs) => {
            let o = status_outcome(s, support, rs.height, rs.interval, nodes_view(rs.authority_list@));
            &&& s2 == o.0
            &&& res == o.1
            &&& answers_all(support, actions_view(out2), actions_view(out) + o.2)
        },
    }
}

/// Whether every proposal in a cache list has a height and round that add
/// up within a `u64`.
pub open spec fn proposals_fit<F>(l: Seq<(SignedProposalView, F, Seq<u8>)>) -> bool {
    forall|k: int|
        0 <= k < l.len() ==> (#[trigger] l[k]).0.proposal.height + l[k].0.proposal.round <= u64::MAX
}

/// Taking a height's list out of the proposal cache keeps every cached
/// proposal fitting, and what is taken out fits too.
pub proof fn lemma_cache_take_fits<F>(s: ConsensusView<F>, h: u64)
    requires
        proposal_cache_ok(s),
    ensures
        proposal_cache_ok(ConsensusView { proposal_cache: cache_take(s.proposal_cache, h).1, ..s }),
        proposals_fit(cache_take(s.proposal_cache, h).0),
{
    let c = s.proposal_cache;
    let r = c.remove(h);
    assert forall|g: u64| #[trigger] r.contains_key(g) implies proposals_fit(r[g]) by {
        assert(c.contains_key(g));
    }
    if !c.contains_key(h) {
        assert(proposals_fit(Seq::<(SignedProposalView, F, Seq<u8>)>::empty()));
    }
}

/// Caching a proposal whose height and round fit keeps every cached
/// proposal fitting.
pub proof fn lemma_cache_push_fits<F>(
    s: ConsensusView<F>,
    h: u64,
    x: (SignedProposalView, F, Seq<u8>),
)
    requires
        proposal_cache_ok(s),
        x.0.proposal.height + x.0.proposal.round <= u64::MAX,
    ensures
        proposal_cache_ok(ConsensusView { proposal_cache: cache_push(s.proposal_cache, h, x), ..s }),
{
    let c = s.proposal_cache;
    let r = cache_push(c, h, x);
    assert forall|g: u64| #[trigger] r.contains_key(g) implies proposals_fit(r[g]) by {
        if g == h {
            if c.contains_key(h) {
                assert forall|k: int| 0 <= k < r[g].len() implies (#[trigger] r[g][k]).0.proposal.height
                    + r[g][k].0.proposal.round <= u64::MAX by {
                    if k < c[h].len() {
                        assert(r[g][k] == c[h][k]);
                    }
                }
            }
        } else {
            assert(c.contains_key(g));
        }
    }
}

/// Taking a message from the node keeps every proposal cached for a later
/// height one whose height and round add up within a `u64`.
pub proof fn lemma_external_keeps_cache_fitting<F: Content, T: ConsensusSupport<F>>(
    s: ConsensusView<F>,
    s2: ConsensusView<F>,
    support: T,
    msg: ConsensusInput,
    res: Result<()>,
    out: Seq<Action<F>>,
    out2: Seq<Action<F>>,
)
    requires
        proposal_cache_ok(s),
        msg matches ConsensusInput::SignedProposal(b) ==> (proposal_frame_parts(b@) matches Some(
            (sp, _, _),
        ) ==> receivable(support, s.height, sp)),
        external_post(s, s2, support, msg, res, out, out2),
    ensures
        proposal_cache_ok(s2),
{
    match msg {
        ConsensusInput::SignedProposal(b) => {
            if let Some((sp, _, hash)) = proposal_frame_parts(b@) {
                if s2 != s {
                    let (block, kept) = choose|block: F, kept: F|
                        #![trigger cloned(block, kept)]
                        cloned(block, kept) && {
                            let o = receive_proposal_outcome(s, support, sp, kept, block, hash, b@);
                            &&& s2 == o.0
                            &&& res == o.1
                            &&& answers_all(support, actions_view(out2), actions_view(out) + o.2)
                        };
                    let s1 = ConsensusView {
                        block_origin_cache: key_or_insert(s.block_origin_cache, hash, kept),
                        ..s
                    };
                    let h = sp.proposal.height;
                    if h > s.height && h - s.height < CACHE_NUMBER {
                        lemma_cache_push_fits(s1, h, (sp, block, b@));
                    } else {
                        lemma_signed_proposal_step_frame(s1, support, sp);
                    }
                }
            }
        },
        ConsensusInput::SignedVote(b) => {
            if let Some(sv) = crate::rlp_decode::spec_decode_signed_vote(b@) {
                lemma_after_signed_vote_frame(s, support, sv);
            }
        },
        ConsensusInput::Status(rs) => {
            let nodes = nodes_view(rs.authority_list@);
            if rs.height >= s.height {
                let s1 = spec_goto_new_height(
                    ConsensusView {
                        authority: spec_update_authority(s.authority, s.height, nodes),
                        ..s
                    },
                    rs.height,
                );
                let addrs = node_addresses(nodes);
                let (power, _) = power_after::<F>(s.consensus_power, s.address, addrs);
                let st2 = ConsensusView { consensus_power: power, ..s1 };
                lemma_cache_take_fits(st2, st2.height);
                let (items_p, rest_p) = cache_take(st2.proposal_cache, st2.height);
                let s3 = ConsensusView { proposal_cache: rest_p, ..st2 };
                lemma_cached_proposals_fold_frame(s3, support, items_p);
                let s4 = cached_proposals_fold(s3, support, items_p).0;
                let (items_v, rest_v) = cache_take(s4.vote_cache, s4.height);
                lemma_cached_votes_fold_frame(ConsensusView { vote_cache: rest_v, ..s4 }, support, items_v);
            }
        },
    }
}

/// Handling a signed vote caches it only for a height above the current
/// one: no height at or below it gains an entry in the vote cache.
pub proof fn lemma_after_signed_vote_keys<F: Content, T: ConsensusSupport<F>>(
    s: ConsensusView<F>,
    support: T,
    sv: SignedVoteView,
)
    ensures
        forall|g: u64|
            g <= s.height && !s.vote_cache.contains_key(g) ==> !(#[trigger] after_signed_vote(
                s,
                support,
                sv,
            ).vote_cache.contains_key(g)),
{
}

/// Handling cached signed votes adds no entry to the vote cache at the
/// current height or below.
pub proof fn lemma_cached_votes_fold_keys<F: Content, T: ConsensusSupport<F>>(
    s: ConsensusView<F>,
    support: T,
    votes: Seq<SignedVoteView>,
)
    ensures
        forall|g: u64|
            g <= s.height && !s.vote_cache.contains_key(g) ==> !(#[trigger] cached_votes_fold(
                s,
                support,
                votes,
            ).0.vote_cache.contains_key(g)),
    decreases votes.len(),
{
    if votes.len() > 0 {
        lemma_cached_votes_fold_keys(s, support, votes.drop_last());
        lemma_cached_votes_fold_frame(s, support, votes.drop_last());
        let s1 = cached_votes_fold(s, support, votes.drop_last()).0;
        lemma_after_signed_vote_keys(s1, support, votes.last());
    }
}

/// A status that moves the service to a new height leaves no signed
/// proposal cached for that height, and, when all goes well, no signed vote
/// either (a cached proposal that fails leaves the votes cached).
pub proof fn lemma_status_clears_caches<F: Content, T: ConsensusSupport<F>>(
    s: ConsensusView<F>,
    support: T,
    height: u64,
    interval: Option<u64>,
    authority_list: Seq<NodeView>,
)
    requires
        height < u64::MAX,
    ensures
        ({
            let (s2, r, _) = status_outcome(s, support, height, interval, authority_list);
            &&& height >= s.height ==> !s2.proposal_cache.contains_key(s2.height)
            &&& r is Ok ==> !s2.vote_cache.contains_key(s2.height)
        }),
{
    if height >= s.height {
        let s1 = spec_goto_new_height(
            ConsensusView {
                authority: spec_update_authority(s.authority, s.height, authority_list),
                ..s
            },
            height,
        );
        let addrs = node_addresses(authority_list);
        let (power, _) = power_after::<F>(s.consensus_power, s.address, addrs);
        let s2 = ConsensusView { consensus_power: power, ..s1 };
        let (items_p, rest_p) = cache_take(s2.proposal_cache, s2.height);
        let s3 = ConsensusView { proposal_cache: rest_p, ..s2 };
        lemma_cached_proposals_fold_frame(s3, support, items_p);
        let s4 = cached_proposals_fold(s3, support, items_p).0;
        let (items_v, rest_v) = cache_take(s4.vote_cache, s4.height);
        let s5 = ConsensusView { vote_cache: rest_v, ..s4 };
        lemma_cached_votes_fold_frame(s5, support, items_v);
        lemma_cached_votes_fold_keys(s5, support, items_v);
        assert(!s5.vote_cache.contains_key(s5.height));
        let s6 = cached_votes_fold(s5, support, items_v).0;
        assert(!s6.vote_cache.contains_key(s5.height));
        assert(s6.proposal_cache == rest_p);
    }
}

/// Whether a message from the node is one that cannot be taken at
/// `height` without an overflow: a signed proposal that is not receivable
/// (see `receivable`), or, at height 0, a signed vote whose signature
/// recovers an address.
pub open spec fn refused_at_once<F: Content, T: ConsensusSupport<F>>(
    support: T,
    height: u64,
    msg: ConsensusInput,
) -> bool {
    match msg {
        ConsensusInput::SignedProposal(b) => match proposal_frame_parts(b@) {
            Some((sp, _, _)) => !receivable(support, height, sp),
            None => false,
        },
        ConsensusInput::SignedVote(b) => match crate::rlp_decode::spec_decode_signed_vote(b@) {
            Some(sv) => height == 0 && vote_signer(support, sv) is Some,
            None => false,
        },
        ConsensusInput::Status(_) => false,
    }
}

/// Taking a message from the node keeps each block hash once among the
/// block checks and among the blocks.
pub proof fn lemma_external_keys_distinct<F: Content, T: ConsensusSupport<F>>(
    s: ConsensusView<F>,
    s2: ConsensusView<F>,
    support: T,
    msg: ConsensusInput,
    res: Result<()>,
    out: Seq<Action<F>>,
    out2: Seq<Action<F>>,
)
    requires
        keys_distinct(s.verified_block),
        keys_distinct(s.block_origin_cache),
        msg matches ConsensusInput::Status(rs) ==> rs.height < u64::MAX,
        external_post(s, s2, support, msg, res, out, out2),
    ensures
        keys_distinct(s2.verified_block),
        keys_distinct(s2.block_origin_cache),
{
    match msg {
        ConsensusInput::SignedProposal(b) => {
            if let Some((sp, blk, hash)) = proposal_frame_parts(b@) {
                if s2 != s {
                    let (block, kept) = choose|block: F, kept: F|
                        #![trigger cloned(block, kept)]
                        F::decodes_to(blk, block) && cloned(block, kept) && {
                            let o = receive_proposal_outcome(s, support, sp, kept, block, hash, b@);
                            &&& s2 == o.0
                            &&& res == o.1
                            &&& answers_all(support, actions_view(out2), actions_view(out) + o.2)
                        };
                    lemma_key_or_insert_distinct(s.block_origin_cache, hash, kept);
                    let s1 = ConsensusView {
                        block_origin_cache: key_or_insert(s.block_origin_cache, hash, kept),
                        ..s
                    };
                    lemma_signed_proposal_step_frame(s1, support, sp);
                }
            }
        },
        ConsensusInput::SignedVote(b) => {
            if let Some(sv) = crate::rlp_decode::spec_decode_signed_vote(b@) {
                lemma_after_signed_vote_frame(s, support, sv);
            }
        },
        ConsensusInput::Status(rs) => {
            lemma_status_moves_height(s, support, rs.height, rs.interval, nodes_view(rs.authority_list@));
        },
    }
}

impl<F: Content> Consensus<F> {
    /// Takes a message from the node (see `external_post`): the frame of a
    /// signed proposal with its block, an encoded signed vote, or a rich
    /// status. The invariant of the service (see `service_inv`) is kept.
    pub fn external_process<T: ConsensusSupport<F>>(
        &mut self,
        support: &T,
        msg: ConsensusInput,
        out: &mut Vec<Action<F>>,
    ) -> (res: Result<()>)
        requires
            msg matches ConsensusInput::SignedVote(b) ==> (crate::rlp_decode::spec_decode_signed_vote(
                b@,
            ) matches Some(sv) ==> old(self).height >= 1 || vote_signer(*support, sv) is None),
            msg matches ConsensusInput::Status(rs) ==> rs.height < u64::MAX && proposal_cache_ok(
                old(self)@,
            ),
            msg matches ConsensusInput::SignedProposal(b) ==> frame_has_height(b@) && (
            proposal_frame_parts(b@) matches Some((sp, _, _)) ==> receivable(*support, old(self).height, sp)),
        ensures
            external_post(old(self)@, final(self)@, *support, msg, res, old(out)@, final(out)@),
            service_inv(old(self)@) ==> service_inv(final(self)@),
    {
        let ghost s0 = self@;
        let ghost o0 = out@;
        let ghost m = msg;
        let res = self.take_node_message(support, msg, out);
        proof {
            if service_inv(s0) {
                lemma_external_keeps_cache_fitting(s0, self@, *support, m, res, o0, out@);
                crate::collection::lemma_external_keyed(s0, self@, *support, m, res, o0, out@);
                lemma_external_keys_distinct(s0, self@, *support, m, res, o0, out@);
            }
        }
        res
    }

    /// Takes a message from the node (see `external_post`).
    fn take_node_message<T: ConsensusSupport<F>>(
        &mut self,
        support: &T,
        msg: ConsensusInput,
        out: &mut Vec<Action<F>>,
    ) -> (res: Result<()>)
        requires
            msg matches ConsensusInput::SignedVote(b) ==> (crate::rlp_decode::spec_decode_signed_vote(
                b@,
            ) matches Some(sv) ==> old(self).height >= 1 || vote_signer(*support, sv) is None),
            msg matches ConsensusInput::Status(rs) ==> rs.height < u64::MAX && proposal_cache_ok(
                old(self)@,
            ),
            msg matches ConsensusInput::SignedProposal(b) ==> frame_has_height(b@) && (
            proposal_frame_parts(b@) matches Some((sp, _, _)) ==> receivable(*support, old(self).height, sp)),
        ensures
            external_post(old(self)@, final(self)@, *support, msg, res, old(out)@, final(out)@),
    {
        match msg {
            ConsensusInput::SignedProposal(bytes) => {
                let (spb, _, blk, hash) = match crate::util::decode_signed_proposal_frame(
                    bytes.as_slice(),
                ) {
                    Ok(parts) => parts,
                    Err(e) => return Err(e),
                };
                let sp = match crate::rlp_decode::decode_signed_proposal(spb.as_slice()) {
                    Ok(sp) => sp,
                    Err(e) => return Err(e),
                };
                let block = match F::decode(blk.as_slice()) {
                    Ok(b) => b,
                    Err(_) => return Err(ConsensusError::DecodeErr),
                };
                self.receive_signed_proposal(support, sp, block, hash, bytes, out)
            },
            ConsensusInput::SignedVote(bytes) => {
                let sv = match crate::rlp_decode::decode_signed_vote(bytes.as_slice()) {
                    Ok(sv) => sv,
                    Err(e) => return Err(e),
                };
                self.receive_signed_vote(support, sv, out)
            },
            ConsensusInput::Status(rs) => self.receive_status(support, rs, out),
        }
    }

    /// Takes a message from the node as `external_process` does, but first
    /// tests a signed proposal it holds: `None`, with nothing changed, when
    /// the proposal cannot be received at the current height (see
    /// `receivable`).
    pub fn try_external_process<T: ConsensusSupport<F>>(
        &mut self,
        support: &T,
        msg: ConsensusInput,
        out: &mut Vec<Action<F>>,
    ) -> (res: Option<Result<()>>)
        requires
            msg matches ConsensusInput::Status(rs) ==> rs.height < u64::MAX && proposal_cache_ok(
                old(self)@,
            ),
            msg matches ConsensusInput::SignedProposal(b) ==> frame_has_height(b@),
        ensures
            res is None <==> refused_at_once(*support, old(self).height, msg),
            res is None ==> final(self)@ == old(self)@ && final(out)@ == old(out)@,
            service_inv(old(self)@) ==> service_inv(final(self)@),
            res matches Some(r) ==> external_post(
                old(self)@,
                final(self)@,
                *support,
                msg,
                r,
                old(out)@,
                final(out)@,
            ),
    {
        if let ConsensusInput::SignedProposal(bytes) = &msg {
            if let Ok((spb, _, _, _)) = crate::util::decode_signed_proposal_frame(bytes.as_slice()) {
                if let Ok(sp) = crate::rlp_decode::decode_signed_proposal(spb.as_slice()) {
                    if !self.can_receive(support, &sp) {
                        return None;
                    }
                }
            }
        }
        if let ConsensusInput::SignedVote(bytes) = &msg {
            if self.height == 0 {
                if let Ok(sv) = crate::rlp_decode::decode_signed_vote(bytes.as_slice()) {
                    if vote_is_signed(support, &sv) {
                        return None;
                    }
                }
            }
        }
        Some(self.external_process(support, msg, out))
    }

    /// Whether a signed proposal can be received at the current height (see
    /// `receivable`).
    pub fn can_receive<T: ConsensusSupport<F>>(&self, support: &T, sp: &SignedProposal) -> (res: bool)
        ensures
            res == receivable(*support, self.height, sp@),
    {
        let h = sp.proposal.height;
        let r = sp.proposal.round;
        if h > self.height && h - self.height < CACHE_NUMBER as u64 {
            return h <= u64::MAX - r;
        }
        if !proposal_is_signed(support, sp) {
            return true;
        }
        self.height >= 1 && (h < self.height - 1 || h <= u64::MAX - r)
    }

    /// Whether every cached signed proposal has a height and round that add
    /// up within a `u64` (see `proposal_cache_ok`).
    pub fn proposal_cache_fits(&self) -> (res: bool)
        ensures
            res == proposal_cache_ok(self@),
    {
        let ghost m = self.proposal_cache@;
        let ghost vs = vstd::std_specs::iter::IteratorSpec::remaining(
            &vstd::std_specs::hash::spec_values_iter(&self.proposal_cache),
        );
        assert(vs.unref().to_set() == m.values());
        let ghost mut n: int = 0;
        for list in it: self.proposal_cache.values()
            invariant
                m == self.proposal_cache@,
                it.seq() == vs,
                n == it.index(),
                vs.unref().to_set() == m.values(),
                forall|j: int|
                    0 <= j < n ==> proposals_fit(cached_proposals_view(#[trigger] vs.unref()[j]@)),
        {
            assert(vs.unref()[n] == *list);
            let ghost lv = cached_proposals_view(list@);
            let mut k: usize = 0;
            while k < list.len()
                invariant
                    k <= list@.len(),
                    lv == cached_proposals_view(list@),
                    0 <= n < vs.unref().len(),
                    m == self.proposal_cache@,
                    vs.unref()[n] == *list,
                    vs.unref().to_set() == m.values(),
                    forall|c: int|
                        0 <= c < k ==> (#[trigger] lv[c]).0.proposal.height + lv[c].0.proposal.round
                            <= u64::MAX,
                decreases list@.len() - k,
            {
                let p = &list[k].0.proposal;
                assert(lv[k as int].0 == list@[k as int].0@);
                if p.height > u64::MAX - p.round {
                    proof {
                        assert(vs.unref().contains(*list));
                        assert(vs.unref().to_set().contains(*list));
                        assert(m.values().contains(*list));
                        let h = choose|h: u64| m.contains_key(h) && m[h] == *list;
                        assert(proposal_cache_view(m).contains_key(h));
                        assert(proposal_cache_view(m)[h] == lv);
                        assert(lv[k as int].0.proposal.height + lv[k as int].0.proposal.round > u64::MAX);
                        assert(!proposals_fit(proposal_cache_view(m)[h]));
                        assert(self@.proposal_cache == proposal_cache_view(m));
                        assert(!proposal_cache_ok(self@));
                    }
                    return false;
                }
                k = k + 1;
            }
            proof {
                assert(proposals_fit(lv));
                n = n + 1;
            }
        }
        assert(n == vs.len());
        proof {
            assert forall|h: u64| #[trigger] proposal_cache_view(m).contains_key(h) implies proposals_fit(
                proposal_cache_view(m)[h],
            ) by {
                assert(m.values().contains(m[h]));
                assert(vs.unref().to_set().contains(m[h]));
                assert(vs.unref().contains(m[h]));
                let j = choose|j: int| 0 <= j < vs.unref().len() && vs.unref()[j] == m[h];
                assert(proposals_fit(cached_proposals_view(vs.unref()[j]@)));
            }
        }
        true
    }
}

/// Whether the signature of a signed vote recovers an address over the
/// hash of the signed vote's encoding.
pub fn vote_is_signed<F: Content, T: ConsensusSupport<F>>(support: &T, sv: &SignedVote) -> (res: bool)
    ensures
        res == vote_signer(*support, sv@) is Some,
{
    let bytes = sv.rlp_bytes();
    let hash = support.hash(bytes.as_slice());
    support.verify_signature(sv.signature.as_slice(), hash.as_slice()).is_ok()
}

/// Whether the signature of a signed proposal recovers its proposer over
/// the hash of the proposal's encoding.
pub fn proposal_is_signed<F: Content, T: ConsensusSupport<F>>(support: &T, sp: &SignedProposal) -> (res:
    bool)
    ensures
        res == proposal_signed(*support, sp@),
{
    let bytes = sp.proposal.rlp_bytes();
    let hash = support.hash(bytes.as_slice());
    match support.verify_signature(sp.signature.as_slice(), hash.as_slice()) {
        Ok(a) => bytes_eq(a.as_slice(), sp.proposal.proposer.as_slice()),
        Err(_) => false,
    }
}

} // verus!
