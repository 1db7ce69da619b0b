use crate::types::{
    Proof, ProofView, Proposal, ProposalView, SignedProposal, SignedProposalView, SignedVote,
    SignedVoteView, Vote, VoteView, vote_type_code,
};
use crate::util::append_bytes;
use vstd::prelude::*;

verus! {

/// The big-endian bytes of `x` without leading zero bytes (empty for zero).
pub open spec fn be_min(x: nat) -> Seq<u8>
    decreases x,
{
    if x == 0 {
        Seq::empty()
    } else {
        be_min(x / 256).push((x % 256) as u8)
    }
}

/// The length bytes that the rlp crate writes for a long payload: the
/// length taken as a `u32`, big-endian, without leading zero bytes.
pub open spec fn rlp_len_bytes(len: nat) -> Seq<u8> {
    be_min(len % 0x1_0000_0000)
}

/// The RLP encoding of a byte string: a byte below 0x80 stands for itself;
/// up to 55 bytes follow the prefix 0x80 plus the length; longer strings
/// follow the prefix 0xb7 plus the number of length bytes, and those bytes.
#[verifier::opaque]
pub open spec fn rlp_string(b: Seq<u8>) -> Seq<u8> {
    if b.len() == 1 && b[0] < 0x80 {
        b
    } else if b.len() <= 55 {
        seq![(0x80 + b.len()) as u8] + b
    } else {
        let l = rlp_len_bytes(b.len());
        seq![(0xb7 + l.len()) as u8] + l + b
    }
}

/// The RLP encoding of an unsigned integer: the string of its big-endian
/// bytes without leading zeros.
pub open spec fn rlp_uint(x: nat) -> Seq<u8> {
    rlp_string(be_min(x))
}

/// An RLP list around an already encoded payload: up to 55 bytes follow the
/// prefix 0xc0 plus the length; longer payloads follow the prefix 0xf7 plus
/// the number of length bytes, and those bytes.
#[verifier::opaque]
pub open spec fn rlp_list(payload: Seq<u8>) -> Seq<u8> {
    if payload.len() <= 55 {
        seq![(0xc0 + payload.len()) as u8] + payload
    } else {
        let l = rlp_len_bytes(payload.len());
        seq![(0xf7 + l.len()) as u8] + l + payload
    }
}

/// The concatenated encodings of the bytes of `b`, each as an integer.
pub open spec fn rlp_uints_payload(b: Seq<u8>) -> Seq<u8>
    decreases b.len(),
{
    if b.len() == 0 {
        Seq::empty()
    } else {
        rlp_uints_payload(b.drop_last()) + rlp_uint(b.last() as nat)
    }
}

/// The RLP list of the bytes of `b`, each encoded as an integer.
pub open spec fn rlp_byte_list(b: Seq<u8>) -> Seq<u8> {
    rlp_list(rlp_uints_payload(b))
}

/// `rlp::encode` of a `u64`.
///
/// Claims that the result is the RLP encoding of the number: the string of
/// its big-endian bytes without leading zeros.
#[verifier::external_body]
fn rlp_encode_u64(x: u64) -> (res: Vec<u8>)
    ensures
        res@ == rlp_uint(x as nat),
{
    rlp::encode(&x).to_vec()
}

/// `rlp::encode` of a `u8`.
///
/// Claims that the result is the RLP encoding of the number: 0x80 for zero,
/// the byte itself below 0x80, else 0x81 and the byte.
#[verifier::external_body]
fn rlp_encode_u8(x: u8) -> (res: Vec<u8>)
    ensures
        res@ == rlp_uint(x as nat),
{
    rlp::encode(&x).to_vec()
}

/// `rlp::encode` of a byte slice.
///
/// Claims that the result is the RLP string encoding of the bytes.
#[verifier::external_body]
fn rlp_encode_bytes(b: &[u8]) -> (res: Vec<u8>)
    ensures
        res@ == rlp_string(b@),
{
    rlp::encode(&b).to_vec()
}

/// `rlp::encode_list` of a byte slice, each byte an item.
///
/// Claims that the result is the RLP list whose items are the bytes, each
/// encoded as an integer.
#[verifier::external_body]
fn rlp_encode_byte_list(b: &[u8]) -> (res: Vec<u8>)
    ensures
        res@ == rlp_byte_list(b@),
{
    rlp::encode_list::<u8, u8>(b).to_vec()
}

/// `RlpStream::begin_unbounded_list`, `append_raw` and
/// `finalize_unbounded_list` around an encoded payload.
///
/// Claims that the result is the RLP list header of the payload's length,
/// then the payload.
#[verifier::external_body]
fn rlp_wrap_list(payload: &[u8]) -> (res: Vec<u8>)
    ensures
        res@ == rlp_list(payload@),
{
    let mut s = rlp::RlpStream::new();
    s.begin_unbounded_list();
    s.append_raw(payload, 1);
    s.finalize_unbounded_list();
    s.out().to_vec()
}

/// The encoding of a vote that its signature covers: the vote type's code,
/// the height, the round, the proposal and the voter, one after another.
pub open spec fn rlp_vote(v: VoteView) -> Seq<u8> {
    rlp_uint(vote_type_code(v.vote_type) as nat) + rlp_uint(v.height as nat) + rlp_uint(
        v.round as nat,
    ) + rlp_string(v.proposal) + rlp_string(v.voter)
}

/// The encoding of a signed vote: the vote, then the signature as a list of
/// bytes.
pub open spec fn rlp_signed_vote(v: SignedVoteView) -> Seq<u8> {
    rlp_vote(v.vote) + rlp_byte_list(v.signature)
}

/// The concatenated encodings of a sequence of signed votes.
pub open spec fn rlp_signed_votes_payload(votes: Seq<SignedVoteView>) -> Seq<u8>
    decreases votes.len(),
{
    if votes.len() == 0 {
        Seq::empty()
    } else {
        rlp_signed_votes_payload(votes.drop_last()) + rlp_signed_vote(votes.last())
    }
}

/// The items that an RLP stream counts when a signed vote is appended to
/// it: the five fields of the vote, the vote itself (no bytes of its own),
/// and the list of the signature's bytes.
pub open spec fn vote_events(v: SignedVoteView) -> Seq<Seq<u8>> {
    seq![
        rlp_uint(vote_type_code(v.vote.vote_type) as nat),
        rlp_uint(v.vote.height as nat),
        rlp_uint(v.vote.round as nat),
        rlp_string(v.vote.proposal),
        rlp_string(v.vote.voter),
        Seq::<u8>::empty(),
        rlp_byte_list(v.signature),
    ]
}

/// The items that an RLP stream counts when signed votes are appended to it
/// one after another.
pub open spec fn lock_events(votes: Seq<SignedVoteView>) -> Seq<Seq<u8>>
    decreases votes.len(),
{
    if votes.len() == 0 {
        Seq::empty()
    } else {
        lock_events(votes.drop_last()) + vote_events(votes.last())
    }
}

/// Byte strings one after another.
pub open spec fn flat(parts: Seq<Seq<u8>>) -> Seq<u8>
    decreases parts.len(),
{
    if parts.len() == 0 {
        Seq::empty()
    } else {
        flat(parts.drop_last()) + parts.last()
    }
}

/// Seven items are counted for each signed vote.
pub proof fn lemma_lock_events_len(votes: Seq<SignedVoteView>)
    ensures
        lock_events(votes).len() == 7 * votes.len(),
    decreases votes.len(),
{
    if votes.len() > 0 {
        lemma_lock_events_len(votes.drop_last());
    }
}

/// The lock votes as the rlp crate's stream writes them when they are
/// appended as a list of as many items as there are votes: the list is
/// closed once that many items are counted, and the items after it follow
/// it unlisted.
pub open spec fn rlp_lock_votes(votes: Seq<SignedVoteView>) -> Seq<u8> {
    let ev = lock_events(votes);
    rlp_list(flat(ev.subrange(0, votes.len() as int))) + flat(ev.subrange(votes.len() as int, ev.len() as int))
}

/// The encoding of a proposal that its signature covers, as the rlp crate's
/// stream writes it: the height, the round, the block hash, then the lock
/// round and the lock votes when the proposal is locked (see
/// `rlp_lock_votes`), then the proposer.
pub open spec fn rlp_proposal(p: ProposalView) -> Seq<u8> {
    let head = rlp_uint(p.height as nat) + rlp_uint(p.round as nat) + rlp_string(p.content);
    let lock = match p.lock_round {
        Some(r) => rlp_uint(r as nat) + rlp_lock_votes(p.lock_votes),
        None => Seq::empty(),
    };
    head + lock + rlp_string(p.proposer)
}

/// The encoding of a proposal in a frame: the height, the round, the block
/// hash, then the lock round and the list of the encoded lock votes when
/// the proposal is locked, then the proposer. Unlike `rlp_proposal` it
/// reads back item by item.
pub open spec fn rlp_proposal_frame(p: ProposalView) -> Seq<u8> {
    let head = rlp_uint(p.height as nat) + rlp_uint(p.round as nat) + rlp_string(p.content);
    let lock = match p.lock_round {
        Some(r) => rlp_uint(r as nat) + rlp_list(rlp_signed_votes_payload(p.lock_votes)),
        None => Seq::empty(),
    };
    head + lock + rlp_string(p.proposer)
}

/// The encoding of a signed proposal in a frame: the proposal, then the
/// signature as a list of bytes.
pub open spec fn rlp_signed_proposal(p: SignedProposalView) -> Seq<u8> {
    rlp_proposal_frame(p.proposal) + rlp_byte_list(p.signature)
}

/// The concatenated encodings of the voter and signature of each precommit.
pub open spec fn rlp_precommits_payload(votes: Seq<(Seq<u8>, Seq<u8>)>) -> Seq<u8>
    decreases votes.len(),
{
    if votes.len() == 0 {
        Seq::empty()
    } else {
        rlp_precommits_payload(votes.drop_last()) + rlp_string(votes.last().0) + rlp_string(
            votes.last().1,
        )
    }
}

/// The encoding of a proof: the block hash, the height, the round, then each
/// voter and signature.
pub open spec fn rlp_proof(p: ProofView) -> Seq<u8> {
    rlp_string(p.block_hash) + rlp_uint(p.height as nat) + rlp_uint(p.round as nat)
        + rlp_precommits_payload(p.precommit_votes)
}

impl Vote {
    /// The encoding of the vote that its signature covers.
    pub fn rlp_bytes(&self) -> (res: Vec<u8>)
        ensures
            res@ == rlp_vote(self@),
    {
        let code: u8 = self.vote_type.into();
        let mut res = rlp_encode_u8(code);
        let h = rlp_encode_u64(self.height);
        append_bytes(&mut res, h.as_slice());
        let r = rlp_encode_u64(self.round);
        append_bytes(&mut res, r.as_slice());
        let p = rlp_encode_bytes(self.proposal.as_slice());
        append_bytes(&mut res, p.as_slice());
        let v = rlp_encode_bytes(self.voter.as_slice());
        append_bytes(&mut res, v.as_slice());
        res
    }
}

impl SignedVote {
    /// The encoding of the signed vote.
    pub fn rlp_bytes(&self) -> (res: Vec<u8>)
        ensures
            res@ == rlp_signed_vote(self@),
    {
        let mut res = self.vote.rlp_bytes();
        let s = rlp_encode_byte_list(self.signature.as_slice());
        append_bytes(&mut res, s.as_slice());
        res
    }
}

impl Proposal {
    /// The encoding of the proposal that its signature covers.
    pub fn rlp_bytes(&self) -> (res: Vec<u8>)
        ensures
            res@ == rlp_proposal(self@),
    {
        let mut res = rlp_encode_u64(self.height);
        let r = rlp_encode_u64(self.round);
        append_bytes(&mut res, r.as_slice());
        let c = rlp_encode_bytes(self.content.as_slice());
        append_bytes(&mut res, c.as_slice());
        if let Some(lock_round) = self.lock_round {
            let l = rlp_encode_u64(lock_round);
            append_bytes(&mut res, l.as_slice());
            let lv = lock_votes_bytes(&self.lock_votes);
            append_bytes(&mut res, lv.as_slice());
        }
        let p = rlp_encode_bytes(self.proposer.as_slice());
        append_bytes(&mut res, p.as_slice());
        assert(res@ =~= rlp_proposal(self@));
        res
    }

    /// The encoding of the proposal in a frame.
    pub fn frame_bytes(&self) -> (res: Vec<u8>)
        ensures
            res@ == rlp_proposal_frame(self@),
    {
        let mut res = rlp_encode_u64(self.height);
        let r = rlp_encode_u64(self.round);
        append_bytes(&mut res, r.as_slice());
        let c = rlp_encode_bytes(self.content.as_slice());
        append_bytes(&mut res, c.as_slice());
        let ghost head = res@;
        if let Some(lock_round) = self.lock_round {
            let l = rlp_encode_u64(lock_round);
            append_bytes(&mut res, l.as_slice());
            let mut payload: Vec<u8> = Vec::new();
            let mut i: usize = 0;
            while i < self.lock_votes.len()
                invariant
                    i <= self.lock_votes@.len(),
                    payload@ == rlp_signed_votes_payload(
                        crate::types::signed_votes_view(self.lock_votes@.subrange(0, i as int)),
                    ),
                decreases self.lock_votes@.len() - i,
            {
                let e = self.lock_votes[i].rlp_bytes();
                append_bytes(&mut payload, e.as_slice());
                proof {
                    let vs = crate::types::signed_votes_view(
                        self.lock_votes@.subrange(0, i + 1 as int),
                    );
                    assert(vs.drop_last() =~= crate::types::signed_votes_view(
                        self.lock_votes@.subrange(0, i as int),
                    ));
                }
                i = i + 1;
            }
            assert(self.lock_votes@.subrange(0, self.lock_votes@.len() as int)
                =~= self.lock_votes@);
            let wrapped = rlp_wrap_list(payload.as_slice());
            append_bytes(&mut res, wrapped.as_slice());
        }
        let p = rlp_encode_bytes(self.proposer.as_slice());
        append_bytes(&mut res, p.as_slice());
        assert(res@ =~= rlp_proposal_frame(self@));
        res
    }
}

/// The views of a list of byte strings.
pub open spec fn parts_view(v: Seq<Vec<u8>>) -> Seq<Seq<u8>> {
    v.map_values(|b: Vec<u8>| b@)
}

/// The lock votes as the rlp crate's stream writes them (see
/// `rlp_lock_votes`).
fn lock_votes_bytes(votes: &Vec<SignedVote>) -> (res: Vec<u8>)
    ensures
        res@ == rlp_lock_votes(crate::types::signed_votes_view(votes@)),
{
    let ghost vs = crate::types::signed_votes_view(votes@);
    let mut events: Vec<Vec<u8>> = Vec::new();
    let mut i: usize = 0;
    while i < votes.len()
        invariant
            i <= votes@.len(),
            vs == crate::types::signed_votes_view(votes@),
            parts_view(events@) == lock_events(vs.subrange(0, i as int)),
        decreases votes@.len() - i,
    {
        let ghost before = parts_view(events@);
        let v = &votes[i];
        let code: u8 = v.vote.vote_type.into();
        events.push(rlp_encode_u8(code));
        events.push(rlp_encode_u64(v.vote.height));
        events.push(rlp_encode_u64(v.vote.round));
        events.push(rlp_encode_bytes(v.vote.proposal.as_slice()));
        events.push(rlp_encode_bytes(v.vote.voter.as_slice()));
        events.push(Vec::new());
        events.push(rlp_encode_byte_list(v.signature.as_slice()));
        proof {
            assert(vs.subrange(0, i + 1).drop_last() =~= vs.subrange(0, i as int));
            assert(vs.subrange(0, i + 1).last() == v@);
            assert(parts_view(events@) =~= before + vote_events(v@));
        }
        i = i + 1;
    }
    assert(vs.subrange(0, vs.len() as int) =~= vs);
    let ghost ev = parts_view(events@);
    proof {
        lemma_lock_events_len(vs);
    }
    let n = votes.len();
    let mut payload: Vec<u8> = Vec::new();
    let mut j: usize = 0;
    assert(ev.subrange(0, 0) =~= Seq::<Seq<u8>>::empty());
    while j < n
        invariant
            j <= n,
            n == vs.len(),
            ev == parts_view(events@),
            ev.len() == 7 * n,
            payload@ == flat(ev.subrange(0, j as int)),
        decreases n - j,
    {
        append_bytes(&mut payload, events[j].as_slice());
        assert(ev.subrange(0, j + 1).drop_last() =~= ev.subrange(0, j as int));
        j = j + 1;
    }
    let mut rest: Vec<u8> = Vec::new();
    let mut k: usize = n;
    assert(ev.subrange(n as int, n as int) =~= Seq::<Seq<u8>>::empty());
    while k < events.len()
        invariant
            n <= k <= events@.len(),
            ev == parts_view(events@),
            rest@ == flat(ev.subrange(n as int, k as int)),
        decreases events@.len() - k,
    {
        append_bytes(&mut rest, events[k].as_slice());
        assert(ev.subrange(n as int, k + 1).drop_last() =~= ev.subrange(n as int, k as int));
        k = k + 1;
    }
    let mut res = rlp_wrap_list(payload.as_slice());
    append_bytes(&mut res, rest.as_slice());
    res
}

impl SignedProposal {
    /// The encoding of the signed proposal.
    pub fn rlp_bytes(&self) -> (res: Vec<u8>)
        ensures
            res@ == rlp_signed_proposal(self@),
    {
        let mut res = self.proposal.frame_bytes();
        let s = rlp_encode_byte_list(self.signature.as_slice());
        append_bytes(&mut res, s.as_slice());
        res
    }
}

impl Proof {
    /// The encoding of the proof.
    pub fn rlp_bytes(&self) -> (res: Vec<u8>)
        ensures
            res@ == rlp_proof(self@),
    {
        let mut res = rlp_encode_bytes(self.block_hash.as_slice());
        let h = rlp_encode_u64(self.height);
        append_bytes(&mut res, h.as_slice());
        let r = rlp_encode_u64(self.round);
        append_bytes(&mut res, r.as_slice());
        let ghost head = res@;
        let mut i: usize = 0;
        while i < self.precommit_votes.len()
            invariant
                i <= self.precommit_votes@.len(),
                res@ == head + rlp_precommits_payload(
                    crate::types::pairs_view(self.precommit_votes@.subrange(0, i as int)),
                ),
            decreases self.precommit_votes@.len() - i,
        {
            let a = rlp_encode_bytes(self.precommit_votes[i].0.as_slice());
            append_bytes(&mut res, a.as_slice());
            let s = rlp_encode_bytes(self.precommit_votes[i].1.as_slice());
            append_bytes(&mut res, s.as_slice());
            proof {
                let ps = crate::types::pairs_view(self.precommit_votes@.subrange(0, i + 1 as int));
                assert(ps.drop_last() =~= crate::types::pairs_view(
                    self.precommit_votes@.subrange(0, i as int),
                ));
            }
            i = i + 1;
        }
        assert(self.precommit_votes@.subrange(0, self.precommit_votes@.len() as int)
            =~= self.precommit_votes@);
        res
    }
}

} // verus!
