use crate::error::ConsensusError;
use crate::rlp_codec::{
    be_min, rlp_byte_list, rlp_list, rlp_signed_vote, rlp_string, rlp_uint, rlp_uints_payload,
    rlp_vote,
};
use crate::rlp_codec::{rlp_signed_proposal, rlp_signed_votes_payload};
use crate::types::{
    Proof, ProofView, Proposal, ProposalView, SignedProposal, SignedProposalView, SignedVote,
    SignedVoteView, Vote, VoteType, VoteView, signed_votes_view,
};
use vstd::prelude::*;

verus! {

// ----------------------------------------------------------------------------
// What the rlp crate reads
// ----------------------------------------------------------------------------
/// The header length and the value length of the first RLP item of `b`, as
/// `Rlp::payload_info` reads them; `None` where it reports an error.
pub uninterp spec fn rlp_payload_info_of(b: Seq<u8>) -> Option<(usize, usize)>;

/// The `u8` that `rlp::decode` reads from `b`; `None` where it reports an
/// error.
pub uninterp spec fn rlp_u8_of(b: Seq<u8>) -> Option<u8>;

/// The `u64` that `rlp::decode` reads from `b`; `None` where it reports an
/// error.
pub uninterp spec fn rlp_u64_of(b: Seq<u8>) -> Option<u64>;

/// The byte string that `rlp::decode` reads from `b`; `None` where it
/// reports an error.
pub uninterp spec fn rlp_bytes_of(b: Seq<u8>) -> Option<Seq<u8>>;

/// The bytes that `Rlp::as_list` reads from the list `b`, each item as a
/// `u8`; `None` where it reports an error.
pub uninterp spec fn rlp_byte_list_of(b: Seq<u8>) -> Option<Seq<u8>>;

/// The view of an optional byte string.
pub open spec fn bytes_opt_view(o: Option<Vec<u8>>) -> Option<Seq<u8>> {
    match o {
        Some(v) => Some(v@),
        None => None,
    }
}

/// Whether `b` begins with `e`.
pub open spec fn starts_with(b: Seq<u8>, e: Seq<u8>) -> bool {
    e.len() <= b.len() && b.subrange(0, e.len() as int) == e
}

/// `Rlp::payload_info` of the first item of `b`: its header length and its
/// value length.
///
/// Claims that they are a function of the bytes, that the item, header and
/// value, is at least one byte and at most the length of `b`, and that where
/// `b` begins with the encoding of a byte string or of a list of fewer than
/// 2^32 bytes, the value is that string or payload and the item that
/// encoding.
#[verifier::external_body]
fn rlp_payload_info(b: &[u8]) -> (res: Option<(usize, usize)>)
    ensures
        res == rlp_payload_info_of(b@),
        res matches Some((h, v)) ==> 1 <= h + v <= b@.len(),
        forall|s: Seq<u8>|
            #![trigger rlp_string(s)]
            s.len() < 0x1_0000_0000 && starts_with(b@, rlp_string(s)) ==> res == Some(
                ((rlp_string(s).len() - s.len()) as usize, s.len() as usize),
            ),
        forall|p: Seq<u8>|
            #![trigger rlp_list(p)]
            p.len() < 0x1_0000_0000 && starts_with(b@, rlp_list(p)) ==> res == Some(
                ((rlp_list(p).len() - p.len()) as usize, p.len() as usize),
            ),
{
    match rlp::Rlp::new(b).payload_info() {
        Ok(info) => Some((info.header_len, info.value_len)),
        Err(_) => None,
    }
}

/// `rlp::decode::<u8>`.
///
/// Claims that the result is a function of the bytes, and that the encoding
/// of a number reads back as that number.
#[verifier::external_body]
fn rlp_decode_u8(b: &[u8]) -> (res: Option<u8>)
    ensures
        res == rlp_u8_of(b@),
        forall|x: u8| #![trigger rlp_uint(x as nat)] b@ == rlp_uint(x as nat) ==> res == Some(x),
{
    rlp::decode::<u8>(b).ok()
}

/// `rlp::decode::<u64>`.
///
/// Claims that the result is a function of the bytes, and that the encoding
/// of a number reads back as that number.
#[verifier::external_body]
fn rlp_decode_u64(b: &[u8]) -> (res: Option<u64>)
    ensures
        res == rlp_u64_of(b@),
        forall|x: u64| #![trigger rlp_uint(x as nat)] b@ == rlp_uint(x as nat) ==> res == Some(x),
{
    rlp::decode::<u64>(b).ok()
}

/// `rlp::decode::<Vec<u8>>`.
///
/// Claims that the result is a function of the bytes, and that the encoding
/// of a byte string of fewer than 2^32 bytes reads back as that string.
#[verifier::external_body]
fn rlp_decode_bytes(b: &[u8]) -> (res: Option<Vec<u8>>)
    ensures
        bytes_opt_view(res) == rlp_bytes_of(b@),
        forall|s: Seq<u8>|
            #![trigger rlp_string(s)]
            s.len() < 0x1_0000_0000 && b@ == rlp_string(s) ==> bytes_opt_view(res) == Some(s),
{
    rlp::decode::<Vec<u8>>(b).ok()
}

/// `Rlp::as_list::<u8>`.
///
/// Claims that the result is a function of the bytes, and that a list of
/// bytes, each encoded as a number, whose payload is shorter than 2^32 bytes
/// reads back as those bytes.
#[verifier::external_body]
fn rlp_decode_byte_list(b: &[u8]) -> (res: Option<Vec<u8>>)
    ensures
        bytes_opt_view(res) == rlp_byte_list_of(b@),
        forall|t: Seq<u8>|
            #![trigger rlp_byte_list(t)]
            rlp_uints_payload(t).len() < 0x1_0000_0000 && b@ == rlp_byte_list(t) ==> bytes_opt_view(res)
                == Some(t),
{
    rlp::Rlp::new(b).as_list::<u8>().ok()
}

// ----------------------------------------------------------------------------
// Reading items one after another
// ----------------------------------------------------------------------------
/// The item that starts at `pos`, and where it ends.
pub open spec fn item_at(b: Seq<u8>, pos: int) -> Option<(Seq<u8>, int)> {
    match rlp_payload_info_of(b.subrange(pos, b.len() as int)) {
        Some((h, v)) => Some((b.subrange(pos, pos + h + v), pos + h + v)),
        None => None,
    }
}

/// The `k` items that follow one another from `pos`, and where the last
/// ends.
pub open spec fn items_at(b: Seq<u8>, pos: int, k: nat) -> Option<(Seq<Seq<u8>>, int)>
    decreases k,
{
    if k == 0 {
        Some((Seq::empty(), pos))
    } else {
        match items_at(b, pos, (k - 1) as nat) {
            Some((items, p)) => match item_at(b, p) {
                Some((item, e)) => Some((items.push(item), e)),
                None => None,
            },
            None => None,
        }
    }
}

/// `256` to the power `k`.
pub open spec fn pow256(k: nat) -> nat
    decreases k,
{
    if k == 0 {
        1
    } else {
        256 * pow256((k - 1) as nat)
    }
}

/// A number below `256^k` has at most `k` big-endian bytes without leading
/// zeros.
pub proof fn lemma_be_min_len(x: nat, k: nat)
    requires
        x < pow256(k),
    ensures
        be_min(x).len() <= k,
    decreases x,
{
    if x > 0 {
        lemma_be_min_len(x / 256, (k - 1) as nat);
    }
}

/// A number of 64 bits is written in at most eight bytes.
pub proof fn lemma_be_min_u64(x: u64)
    ensures
        be_min(x as nat).len() <= 8,
{
    reveal_with_fuel(pow256, 9);
    assert(pow256(8) == 0x1_0000_0000_0000_0000);
    lemma_be_min_len(x as nat, 8);
}

/// The start of the value of the item that starts at `pos`.
pub open spec fn value_start(b: Seq<u8>, pos: int) -> int {
    match rlp_payload_info_of(b.subrange(pos, b.len() as int)) {
        Some((h, _)) => pos + h,
        None => pos,
    }
}

/// Reads where the value of the item that starts at `pos` starts, and where
/// the item ends.
fn read_item(b: &[u8], pos: usize) -> (res: Option<(usize, usize)>)
    requires
        pos <= b@.len(),
    ensures
        match res {
            Some((v, e)) => item_at(b@, pos as int) == Some((b@.subrange(pos as int, e as int), e as int))
                && v == value_start(b@, pos as int) && pos <= v <= e && pos < e <= b@.len(),
            None => item_at(b@, pos as int) is None,
        },
        forall|s: Seq<u8>|
            #![trigger rlp_string(s)]
            s.len() < 0x1_0000_0000 && starts_with(b@.subrange(pos as int, b@.len() as int), rlp_string(s))
                ==> (res matches Some((v, e)) && e == pos + rlp_string(s).len() && e - v == s.len()),
        forall|p: Seq<u8>|
            #![trigger rlp_list(p)]
            p.len() < 0x1_0000_0000 && starts_with(b@.subrange(pos as int, b@.len() as int), rlp_list(p))
                ==> (res matches Some((v, e)) && e == pos + rlp_list(p).len() && e - v == p.len()),
{
    let len = b.len();
    let (_, rest) = b.split_at(pos);
    assert(rest@ =~= b@.subrange(pos as int, b@.len() as int));
    let info = rlp_payload_info(rest);
    proof {
        assert forall|s: Seq<u8>|
            s.len() < 0x1_0000_0000 && starts_with(rest@, #[trigger] rlp_string(s)) implies info
            == Some(((rlp_string(s).len() - s.len()) as usize, s.len() as usize))
            && rlp_string(s).len() >= s.len() by {
            lemma_string_nonempty(s);
        }
        assert forall|p: Seq<u8>|
            p.len() < 0x1_0000_0000 && starts_with(rest@, #[trigger] rlp_list(p)) implies info
            == Some(((rlp_list(p).len() - p.len()) as usize, p.len() as usize))
            && rlp_list(p).len() >= p.len() by {
            lemma_list_payload(p);
        }
    }
    match info {
        Some((h, v)) => {
            assert(h + v <= len - pos);
            Some((pos + h, pos + h + v))
        },
        None => None,
    }
}

// ----------------------------------------------------------------------------
// Signed votes
// ----------------------------------------------------------------------------
/// The vote type of a code.
pub open spec fn vote_type_of_code(c: u8) -> Option<VoteType> {
    if c == 0 {
        Some(VoteType::Prevote)
    } else if c == 1 {
        Some(VoteType::Precommit)
    } else {
        None
    }
}

/// The vote that five items hold: the vote type's code, the height, the
/// round, the proposal and the voter.
pub open spec fn vote_of_items(it: Seq<Seq<u8>>) -> Option<VoteView> {
    match (rlp_u8_of(it[0]), rlp_u64_of(it[1]), rlp_u64_of(it[2]), rlp_bytes_of(it[3]), rlp_bytes_of(
        it[4],
    )) {
        (Some(c), Some(h), Some(r), Some(p), Some(v)) => match vote_type_of_code(c) {
            Some(t) => Some(VoteView { vote_type: t, height: h, round: r, proposal: p, voter: v }),
            None => None,
        },
        _ => None,
    }
}

/// The signed vote whose six items start at `pos`, and where it ends.
pub open spec fn signed_vote_at(b: Seq<u8>, pos: int) -> Option<(SignedVoteView, int)> {
    match items_at(b, pos, 6) {
        Some((it, e)) => match (vote_of_items(it), rlp_byte_list_of(it[5])) {
            (Some(v), Some(s)) => Some((SignedVoteView { vote: v, signature: s }, e)),
            _ => None,
        },
        None => None,
    }
}

/// The signed vote that `b` holds, with nothing after it.
pub open spec fn spec_decode_signed_vote(b: Seq<u8>) -> Option<SignedVoteView> {
    match signed_vote_at(b, 0) {
        Some((sv, e)) => if e == b.len() {
            Some(sv)
        } else {
            None
        },
        None => None,
    }
}

/// The byte strings of a signed vote are short enough for the rlp crate to
/// read back.
pub open spec fn signed_vote_fits(sv: SignedVoteView) -> bool {
    &&& sv.vote.proposal.len() < 0x1_0000_0000
    &&& sv.vote.voter.len() < 0x1_0000_0000
    &&& rlp_uints_payload(sv.signature).len() < 0x1_0000_0000
}


/// A beginning of what follows `p` splits like the bytes it begins with.
pub proof fn lemma_skip(b: Seq<u8>, p: int, a: Seq<u8>, c: Seq<u8>)
    requires
        0 <= p <= b.len(),
        starts_with(b.subrange(p, b.len() as int), a + c),
    ensures
        starts_with(b.subrange(p, b.len() as int), a),
        p + a.len() <= b.len(),
        starts_with(b.subrange(p + a.len(), b.len() as int), c),
        b.subrange(p, p + a.len()) == a,
{
    let r = b.subrange(p, b.len() as int);
    assert(r.subrange(0, a.len() as int) =~= (a + c).subrange(0, a.len() as int));
    assert((a + c).subrange(0, a.len() as int) =~= a);
    assert(b.subrange(p, p + a.len()) =~= r.subrange(0, a.len() as int));
    let r2 = b.subrange(p + a.len(), b.len() as int);
    assert(r2.subrange(0, c.len() as int) =~= (a + c).subrange(a.len() as int, (a + c).len() as int));
    assert((a + c).subrange(a.len() as int, (a + c).len() as int) =~= c);
}

/// The bytes from `i` to `j`.
fn slice_of(b: &[u8], i: usize, j: usize) -> (res: &[u8])
    requires
        i <= j <= b@.len(),
    ensures
        res@ == b@.subrange(i as int, j as int),
{
    let (head, _) = b.split_at(j);
    let (_, mid) = head.split_at(i);
    assert(mid@ =~= b@.subrange(i as int, j as int));
    mid
}

/// The encoded parts of a signed vote, in order: the vote type's code, the
/// height, the round, the proposal, the voter and the signature.
pub open spec fn sv_part(sv: SignedVoteView, k: int) -> Seq<u8> {
    if k == 0 {
        rlp_uint(crate::types::vote_type_code(sv.vote.vote_type) as nat)
    } else if k == 1 {
        rlp_uint(sv.vote.height as nat)
    } else if k == 2 {
        rlp_uint(sv.vote.round as nat)
    } else if k == 3 {
        rlp_string(sv.vote.proposal)
    } else if k == 4 {
        rlp_string(sv.vote.voter)
    } else {
        rlp_byte_list(sv.signature)
    }
}

/// Where the first `k` parts of a signed vote end, its encoding starting at
/// `pos`.
pub open spec fn sv_end(pos: int, sv: SignedVoteView, k: nat) -> int
    decreases k,
{
    if k == 0 {
        pos
    } else {
        sv_end(pos, sv, (k - 1) as nat) + sv_part(sv, k - 1).len()
    }
}

/// Where the bytes from `pos` begin with six parts one after another, each
/// part lies where the ones before it end.
proof fn lemma_six_parts(
    bs: Seq<u8>,
    pos: int,
    p0: Seq<u8>,
    p1: Seq<u8>,
    p2: Seq<u8>,
    p3: Seq<u8>,
    p4: Seq<u8>,
    p5: Seq<u8>,
)
    requires
        0 <= pos <= bs.len(),
        starts_with(bs.subrange(pos, bs.len() as int), p0 + p1 + p2 + p3 + p4 + p5),
    ensures
        ({
            let q1 = pos + p0.len();
            let q2 = q1 + p1.len();
            let q3 = q2 + p2.len();
            let q4 = q3 + p3.len();
            let q5 = q4 + p4.len();
            let q6 = q5 + p5.len();
            &&& q6 <= bs.len()
            &&& starts_with(bs.subrange(pos, bs.len() as int), p0) && bs.subrange(pos, q1) == p0
            &&& starts_with(bs.subrange(q1, bs.len() as int), p1) && bs.subrange(q1, q2) == p1
            &&& starts_with(bs.subrange(q2, bs.len() as int), p2) && bs.subrange(q2, q3) == p2
            &&& starts_with(bs.subrange(q3, bs.len() as int), p3) && bs.subrange(q3, q4) == p3
            &&& starts_with(bs.subrange(q4, bs.len() as int), p4) && bs.subrange(q4, q5) == p4
            &&& starts_with(bs.subrange(q5, bs.len() as int), p5) && bs.subrange(q5, q6) == p5
        }),
{
    assert(p0 + p1 + p2 + p3 + p4 + p5 =~= p0 + (p1 + (p2 + (p3 + (p4 + p5)))));
    let q1 = pos + p0.len();
    let q2 = q1 + p1.len();
    let q3 = q2 + p2.len();
    let q4 = q3 + p3.len();
    let q5 = q4 + p4.len();
    lemma_skip(bs, pos, p0, p1 + (p2 + (p3 + (p4 + p5))));
    lemma_skip(bs, q1, p1, p2 + (p3 + (p4 + p5)));
    lemma_skip(bs, q2, p2, p3 + (p4 + p5));
    lemma_skip(bs, q3, p3, p4 + p5);
    lemma_skip(bs, q4, p4, p5);
    assert(p5 + Seq::<u8>::empty() =~= p5);
    lemma_skip(bs, q5, p5, Seq::empty());
}

/// Where the bytes from `pos` begin with the encoding of a signed vote, its
/// parts lie one after another, each read as one item.
proof fn lemma_sv_layout(bs: Seq<u8>, pos: int, sv: SignedVoteView)
    requires
        0 <= pos <= bs.len(),
        signed_vote_fits(sv),
        starts_with(bs.subrange(pos, bs.len() as int), rlp_signed_vote(sv)),
    ensures
        sv_end(pos, sv, 6) == pos + rlp_signed_vote(sv).len(),
        sv_end(pos, sv, 6) <= bs.len(),
        starts_with(bs.subrange(pos, bs.len() as int), sv_part(sv, 0)),
        starts_with(bs.subrange(sv_end(pos, sv, 1), bs.len() as int), sv_part(sv, 1)),
        starts_with(bs.subrange(sv_end(pos, sv, 2), bs.len() as int), sv_part(sv, 2)),
        starts_with(bs.subrange(sv_end(pos, sv, 3), bs.len() as int), sv_part(sv, 3)),
        starts_with(bs.subrange(sv_end(pos, sv, 4), bs.len() as int), sv_part(sv, 4)),
        starts_with(bs.subrange(sv_end(pos, sv, 5), bs.len() as int), sv_part(sv, 5)),
        bs.subrange(pos, sv_end(pos, sv, 1)) == sv_part(sv, 0),
        bs.subrange(sv_end(pos, sv, 1), sv_end(pos, sv, 2)) == sv_part(sv, 1),
        bs.subrange(sv_end(pos, sv, 2), sv_end(pos, sv, 3)) == sv_part(sv, 2),
        bs.subrange(sv_end(pos, sv, 3), sv_end(pos, sv, 4)) == sv_part(sv, 3),
        bs.subrange(sv_end(pos, sv, 4), sv_end(pos, sv, 5)) == sv_part(sv, 4),
        bs.subrange(sv_end(pos, sv, 5), sv_end(pos, sv, 6)) == sv_part(sv, 5),
        sv_part(sv, 0) == rlp_string(be_min(crate::types::vote_type_code(sv.vote.vote_type) as nat)),
        sv_part(sv, 1) == rlp_string(be_min(sv.vote.height as nat)),
        sv_part(sv, 2) == rlp_string(be_min(sv.vote.round as nat)),
        sv_part(sv, 5) == rlp_list(rlp_uints_payload(sv.signature)),
        be_min(crate::types::vote_type_code(sv.vote.vote_type) as nat).len() <= 8,
        be_min(sv.vote.height as nat).len() <= 8,
        be_min(sv.vote.round as nat).len() <= 8,
{
    let p0 = sv_part(sv, 0);
    let p1 = sv_part(sv, 1);
    let p2 = sv_part(sv, 2);
    let p3 = sv_part(sv, 3);
    let p4 = sv_part(sv, 4);
    let p5 = sv_part(sv, 5);
    assert(rlp_signed_vote(sv) == p0 + p1 + p2 + p3 + p4 + p5);
    lemma_six_parts(bs, pos, p0, p1, p2, p3, p4, p5);
    lemma_be_min_u64(crate::types::vote_type_code(sv.vote.vote_type) as u64);
    lemma_be_min_u64(sv.vote.height);
    lemma_be_min_u64(sv.vote.round);
    assert(sv_end(pos, sv, 0) == pos);
    assert(sv_end(pos, sv, 1) == pos + p0.len());
    assert(sv_end(pos, sv, 2) == sv_end(pos, sv, 1) + p1.len());
    assert(sv_end(pos, sv, 3) == sv_end(pos, sv, 2) + p2.len());
    assert(sv_end(pos, sv, 4) == sv_end(pos, sv, 3) + p3.len());
    assert(sv_end(pos, sv, 5) == sv_end(pos, sv, 4) + p4.len());
    assert(sv_end(pos, sv, 6) == sv_end(pos, sv, 5) + p5.len());
}

/// Reads the six items of a signed vote from `pos`. When the bytes from
/// `pos` begin with the encoding of `sv`, the items end where its parts do.
fn read_six(b: &[u8], pos: usize, Ghost(canon): Ghost<Option<SignedVoteView>>) -> (res: Option<
    (usize, usize, usize, usize, usize, usize),
>)
    requires
        pos <= b@.len(),
        canon matches Some(sv) ==> signed_vote_fits(sv) && starts_with(
            b@.subrange(pos as int, b@.len() as int),
            rlp_signed_vote(sv),
        ),
    ensures
        match res {
            Some((e0, e1, e2, e3, e4, e5)) => {
                &&& pos < e0 < e1 < e2 < e3 < e4 < e5 <= b@.len()
                &&& items_at(b@, pos as int, 6) == Some(
                    (
                        seq![
                            b@.subrange(pos as int, e0 as int),
                            b@.subrange(e0 as int, e1 as int),
                            b@.subrange(e1 as int, e2 as int),
                            b@.subrange(e2 as int, e3 as int),
                            b@.subrange(e3 as int, e4 as int),
                            b@.subrange(e4 as int, e5 as int),
                        ],
                        e5 as int,
                    ),
                )
            },
            None => items_at(b@, pos as int, 6) is None,
        },
        canon matches Some(sv) ==> (res matches Some((e0, e1, e2, e3, e4, e5)) && e0 == sv_end(
            pos as int,
            sv,
            1,
        ) && e1 == sv_end(pos as int, sv, 2) && e2 == sv_end(pos as int, sv, 3) && e3 == sv_end(
            pos as int,
            sv,
            4,
        ) && e4 == sv_end(pos as int, sv, 5) && e5 == sv_end(pos as int, sv, 6)),
{
    let ghost bs = b@;
    proof {
        if let Some(sv) = canon {
            lemma_sv_layout(bs, pos as int, sv);
            assert(sv_end(pos as int, sv, 0) == pos);
            assert(starts_with(bs.subrange(pos as int, bs.len() as int), sv_part(sv, 0)));
            assert(starts_with(bs.subrange(sv_end(pos as int, sv, 1), bs.len() as int), sv_part(sv, 1)));
            assert(starts_with(bs.subrange(sv_end(pos as int, sv, 2), bs.len() as int), sv_part(sv, 2)));
            assert(starts_with(bs.subrange(sv_end(pos as int, sv, 3), bs.len() as int), sv_part(sv, 3)));
            assert(starts_with(bs.subrange(sv_end(pos as int, sv, 4), bs.len() as int), sv_part(sv, 4)));
            assert(starts_with(bs.subrange(sv_end(pos as int, sv, 5), bs.len() as int), sv_part(sv, 5)));
        }
    }
    assert(items_at(bs, pos as int, 0) == Some((Seq::<Seq<u8>>::empty(), pos as int)));
    let e0 = match read_item(b, pos) {
        Some((_, e)) => e,
        None => {
            assert(items_at(bs, pos as int, 1) is None);
            assert(items_at(bs, pos as int, 6) is None) by {
                reveal_with_fuel(items_at, 6);
            }
            return None;
        },
    };
    let ghost i1 = seq![bs.subrange(pos as int, e0 as int)];
    assert(items_at(bs, pos as int, 1) == Some((i1, e0 as int))) by {
        assert(Seq::<Seq<u8>>::empty().push(i1[0]) =~= i1);
    }
    assert(canon matches Some(sv) ==> e0 == sv_end(pos as int, sv, 1));
    let e1 = match read_item(b, e0) {
        Some((_, e)) => e,
        None => {
            assert(items_at(bs, pos as int, 2) is None);
            assert(items_at(bs, pos as int, 6) is None) by {
                reveal_with_fuel(items_at, 5);
            }
            return None;
        },
    };
    let ghost i2 = i1.push(bs.subrange(e0 as int, e1 as int));
    assert(items_at(bs, pos as int, 2) == Some((i2, e1 as int)));
    assert(canon matches Some(sv) ==> e1 == sv_end(pos as int, sv, 2));
    let e2 = match read_item(b, e1) {
        Some((_, e)) => e,
        None => {
            assert(items_at(bs, pos as int, 3) is None);
            assert(items_at(bs, pos as int, 6) is None) by {
                reveal_with_fuel(items_at, 4);
            }
            return None;
        },
    };
    let ghost i3 = i2.push(bs.subrange(e1 as int, e2 as int));
    assert(items_at(bs, pos as int, 3) == Some((i3, e2 as int)));
    assert(canon matches Some(sv) ==> e2 == sv_end(pos as int, sv, 3));
    let e3 = match read_item(b, e2) {
        Some((_, e)) => e,
        None => {
            assert(items_at(bs, pos as int, 4) is None);
            assert(items_at(bs, pos as int, 6) is None) by {
                reveal_with_fuel(items_at, 3);
            }
            return None;
        },
    };
    let ghost i4 = i3.push(bs.subrange(e2 as int, e3 as int));
    assert(items_at(bs, pos as int, 4) == Some((i4, e3 as int)));
    assert(canon matches Some(sv) ==> e3 == sv_end(pos as int, sv, 4));
    let e4 = match read_item(b, e3) {
        Some((_, e)) => e,
        None => {
            assert(items_at(bs, pos as int, 5) is None);
            assert(items_at(bs, pos as int, 6) is None);
            return None;
        },
    };
    let ghost i5 = i4.push(bs.subrange(e3 as int, e4 as int));
    assert(items_at(bs, pos as int, 5) == Some((i5, e4 as int)));
    assert(canon matches Some(sv) ==> e4 == sv_end(pos as int, sv, 5));
    let e5 = match read_item(b, e4) {
        Some((_, e)) => e,
        None => {
            assert(items_at(bs, pos as int, 6) is None);
            return None;
        },
    };
    let ghost i6 = i5.push(bs.subrange(e4 as int, e5 as int));
    assert(items_at(bs, pos as int, 6) == Some((i6, e5 as int)));
    assert(canon matches Some(sv) ==> e5 == sv_end(pos as int, sv, 6));
    assert(i6 =~= seq![
        bs.subrange(pos as int, e0 as int),
        bs.subrange(e0 as int, e1 as int),
        bs.subrange(e1 as int, e2 as int),
        bs.subrange(e2 as int, e3 as int),
        bs.subrange(e3 as int, e4 as int),
        bs.subrange(e4 as int, e5 as int),
    ]);
    Some((e0, e1, e2, e3, e4, e5))
}

/// Reads the signed vote whose items start at `pos` (see `signed_vote_at`).
/// When the bytes from `pos` begin with the encoding of `sv`, the vote read
/// is one with the same encoding.
fn decode_signed_vote_at(b: &[u8], pos: usize, Ghost(canon): Ghost<Option<SignedVoteView>>) -> (res:
    Option<(SignedVote, usize)>)
    requires
        pos <= b@.len(),
        canon matches Some(sv) ==> signed_vote_fits(sv) && starts_with(
            b@.subrange(pos as int, b@.len() as int),
            rlp_signed_vote(sv),
        ),
    ensures
        match res {
            Some((v, e)) => signed_vote_at(b@, pos as int) == Some((v@, e as int)) && pos < e
                <= b@.len(),
            None => signed_vote_at(b@, pos as int) is None,
        },
        canon matches Some(sv) ==> (res matches Some((v, e)) && v@ == sv && e == pos
            + rlp_signed_vote(sv).len()),
{
    let ghost bs = b@;
    let (e0, e1, e2, e3, e4, e5) = match read_six(b, pos, Ghost(canon)) {
        Some(ends) => ends,
        None => return None,
    };
    proof {
        if let Some(sv) = canon {
            lemma_sv_layout(bs, pos as int, sv);
            assert(bs.subrange(pos as int, e0 as int) == sv_part(sv, 0));
            assert(bs.subrange(e0 as int, e1 as int) == sv_part(sv, 1));
            assert(bs.subrange(e1 as int, e2 as int) == sv_part(sv, 2));
            assert(bs.subrange(e2 as int, e3 as int) == sv_part(sv, 3));
            assert(bs.subrange(e3 as int, e4 as int) == sv_part(sv, 4));
            assert(bs.subrange(e4 as int, e5 as int) == sv_part(sv, 5));
        }
    }
    let code = match rlp_decode_u8(slice_of(b, pos, e0)) {
        Some(c) => c,
        None => return None,
    };
    let height = match rlp_decode_u64(slice_of(b, e0, e1)) {
        Some(h) => h,
        None => return None,
    };
    let round = match rlp_decode_u64(slice_of(b, e1, e2)) {
        Some(r) => r,
        None => return None,
    };
    let proposal = match rlp_decode_bytes(slice_of(b, e2, e3)) {
        Some(p) => p,
        None => return None,
    };
    let voter = match rlp_decode_bytes(slice_of(b, e3, e4)) {
        Some(v) => v,
        None => return None,
    };
    let signature = match rlp_decode_byte_list(slice_of(b, e4, e5)) {
        Some(s) => s,
        None => return None,
    };
    let vote_type = if code == 0 {
        VoteType::Prevote
    } else if code == 1 {
        VoteType::Precommit
    } else {
        return None;
    };
    let res = SignedVote { vote: Vote { vote_type, height, round, proposal, voter }, signature };
    proof {
        if let Some(sv) = canon {
            assert(code == crate::types::vote_type_code(sv.vote.vote_type));
            assert(res@.vote =~= sv.vote);
            assert(res@ =~= sv);
        }
    }
    Some((res, e5))
}

/// Reads a signed vote that fills `b`: `DecodeErr` unless `b` holds one
/// (see `spec_decode_signed_vote`). The encoding of a signed vote whose
/// strings fit reads back as a signed vote with that same encoding.
pub fn decode_signed_vote(b: &[u8]) -> (res: Result<SignedVote, ConsensusError>)
    ensures
        match res {
            Ok(v) => spec_decode_signed_vote(b@) == Some(v@),
            Err(e) => e == ConsensusError::DecodeErr && spec_decode_signed_vote(b@) is None,
        },
        (exists|sv: SignedVoteView| signed_vote_fits(sv) && b@ == #[trigger] rlp_signed_vote(sv))
            ==> (res matches Ok(v) && signed_vote_fits(v@) && rlp_signed_vote(v@) == b@),
{
    let ghost canon: Option<SignedVoteView> = if exists|sv: SignedVoteView|
        signed_vote_fits(sv) && b@ == #[trigger] rlp_signed_vote(sv) {
        Some(choose|sv: SignedVoteView| signed_vote_fits(sv) && b@ == #[trigger] rlp_signed_vote(sv))
    } else {
        None
    };
    proof {
        assert(b@.subrange(0, b@.len() as int) =~= b@);
    }
    match decode_signed_vote_at(b, 0, Ghost(canon)) {
        Some((v, e)) => {
            if e == b.len() {
                Ok(v)
            } else {
                Err(ConsensusError::DecodeErr)
            }
        },
        None => Err(ConsensusError::DecodeErr),
    }
}

// ----------------------------------------------------------------------------
// Parts one after another
// ----------------------------------------------------------------------------
/// The parts, one after another.
pub open spec fn concat(parts: Seq<Seq<u8>>) -> Seq<u8>
    decreases parts.len(),
{
    if parts.len() == 0 {
        Seq::empty()
    } else {
        parts[0] + concat(parts.drop_first())
    }
}

/// Where the first `k` parts end, the first starting at `pos`.
pub open spec fn part_end(pos: int, parts: Seq<Seq<u8>>, k: nat) -> int
    decreases k,
{
    if k == 0 {
        pos
    } else {
        part_end(pos, parts, (k - 1) as nat) + parts[k - 1].len()
    }
}

/// Where the bytes from `pos` begin with parts one after another, each part
/// lies where the ones before it end.
proof fn lemma_parts(bs: Seq<u8>, pos: int, parts: Seq<Seq<u8>>)
    requires
        0 <= pos <= bs.len(),
        starts_with(bs.subrange(pos, bs.len() as int), concat(parts)),
    ensures
        part_end(pos, parts, parts.len()) == pos + concat(parts).len() <= bs.len(),
        forall|k: nat|
            k < parts.len() ==> starts_with(
                bs.subrange(part_end(pos, parts, k), bs.len() as int),
                #[trigger] parts[k as int],
            ) && bs.subrange(part_end(pos, parts, k), part_end(pos, parts, k + 1)) == parts[k as int],
    decreases parts.len(),
{
    if parts.len() > 0 {
        let rest = parts.drop_first();
        lemma_skip(bs, pos, parts[0], concat(rest));
        lemma_parts(bs, pos + parts[0].len(), rest);
        lemma_part_end_shift(pos, parts, parts.len());
        assert forall|k: nat| k < parts.len() implies starts_with(
            bs.subrange(part_end(pos, parts, k), bs.len() as int),
            #[trigger] parts[k as int],
        ) && bs.subrange(part_end(pos, parts, k), part_end(pos, parts, k + 1)) == parts[k as int] by {
            if k > 0 {
                lemma_part_end_shift(pos, parts, k);
                lemma_part_end_shift(pos, parts, k + 1);
                assert(rest[k - 1] == parts[k as int]);
            }
        }
    }
}

/// Where the parts after the first end, counted from the end of the first.
proof fn lemma_part_end_shift(pos: int, parts: Seq<Seq<u8>>, k: nat)
    requires
        1 <= k <= parts.len(),
    ensures
        part_end(pos, parts, k) == part_end(pos + parts[0].len(), parts.drop_first(), (k - 1) as nat),
    decreases k,
{
    let rest = parts.drop_first();
    let q = pos + parts[0].len();
    if k > 1 {
        lemma_part_end_shift(pos, parts, (k - 1) as nat);
        assert(rest[k - 2] == parts[k - 1]);
        assert(part_end(q, rest, (k - 1) as nat) == part_end(q, rest, (k - 2) as nat) + rest[k - 2].len());
    } else {
        assert(part_end(pos, parts, 0) == pos);
        assert(part_end(q, rest, 0) == q);
    }
}

/// The encodings of signed votes one after another begin with the first.
proof fn lemma_votes_payload_first(votes: Seq<SignedVoteView>)
    requires
        votes.len() > 0,
    ensures
        rlp_signed_votes_payload(votes) == rlp_signed_vote(votes[0]) + rlp_signed_votes_payload(
            votes.drop_first(),
        ),
    decreases votes.len(),
{
    if votes.len() == 1 {
        assert(votes.drop_last() =~= Seq::<SignedVoteView>::empty());
        assert(votes.drop_first() =~= Seq::<SignedVoteView>::empty());
        assert(rlp_signed_votes_payload(Seq::<SignedVoteView>::empty()) == Seq::<u8>::empty());
        assert(votes.last() == votes[0]);
        assert(rlp_signed_votes_payload(votes) == rlp_signed_votes_payload(votes.drop_last())
            + rlp_signed_vote(votes.last()));
        assert(rlp_signed_votes_payload(votes) =~= rlp_signed_vote(votes[0]) + Seq::<u8>::empty());
    } else {
        let d = votes.drop_last();
        lemma_votes_payload_first(d);
        assert(d.drop_first() =~= votes.drop_first().drop_last());
        assert(votes.drop_first().last() == votes.last());
        assert(rlp_signed_votes_payload(votes.drop_first()) == rlp_signed_votes_payload(
            votes.drop_first().drop_last(),
        ) + rlp_signed_vote(votes.drop_first().last()));
        assert(rlp_signed_votes_payload(votes) =~= rlp_signed_vote(votes[0])
            + rlp_signed_votes_payload(votes.drop_first()));
    }
}

// ----------------------------------------------------------------------------
// Signed proposals
// ----------------------------------------------------------------------------
/// The signed votes that fill the bytes from `pos` to `end`, one after
/// another.
pub open spec fn signed_votes_in(b: Seq<u8>, pos: int, end: int) -> Option<Seq<SignedVoteView>>
    decreases end - pos,
{
    if pos >= end {
        if pos == end {
            Some(Seq::empty())
        } else {
            None
        }
    } else {
        match signed_vote_at(b, pos) {
            Some((sv, e)) => if pos < e <= end {
                match signed_votes_in(b, e, end) {
                    Some(rest) => Some(seq![sv] + rest),
                    None => None,
                }
            } else {
                None
            },
            None => None,
        }
    }
}

/// The proof that a decoded proposal carries: the encoding holds none.
pub open spec fn empty_proof_view() -> ProofView {
    ProofView { block_hash: Seq::empty(), height: 0, round: 0, precommit_votes: Seq::empty() }
}

/// The first five items of a signed proposal: the height, the round, the
/// block hash, the fourth and fifth items as bytes, where the value of the
/// fifth starts, and where it ends.
pub open spec fn proposal_head(b: Seq<u8>) -> Option<(u64, u64, Seq<u8>, Seq<u8>, Seq<u8>, int, int)> {
    match items_at(b, 0, 5) {
        Some((it, p5)) => match (rlp_u64_of(it[0]), rlp_u64_of(it[1]), rlp_bytes_of(it[2])) {
            (Some(h), Some(r), Some(c)) => Some(
                (h, r, c, it[3], it[4], value_start(b, p5 - it[4].len()), p5),
            ),
            _ => None,
        },
        None => None,
    }
}

/// The signed proposal that `b` holds, with nothing after it: the height, the
/// round and the block hash; then, when more than two items follow, the lock
/// round and the list of lock votes; then the proposer and the signature.
/// The encoding holds no proof, so the proof is empty.
pub open spec fn spec_decode_signed_proposal(b: Seq<u8>) -> Option<SignedProposalView> {
    match proposal_head(b) {
        Some((h, r, c, i3, i4, v4, p5)) => if p5 == b.len() {
            match (rlp_bytes_of(i3), rlp_byte_list_of(i4)) {
                (Some(who), Some(sig)) => Some(
                    SignedProposalView {
                        proposal: ProposalView {
                            height: h,
                            round: r,
                            content: c,
                            proof: empty_proof_view(),
                            lock_round: None,
                            lock_votes: Seq::empty(),
                            proposer: who,
                        },
                        signature: sig,
                    },
                ),
                _ => None,
            }
        } else {
            match (rlp_u64_of(i3), signed_votes_in(b, v4, p5), items_at(b, p5, 2)) {
                (Some(lr), Some(votes), Some((it2, q))) => if q == b.len() {
                    match (rlp_bytes_of(it2[0]), rlp_byte_list_of(it2[1])) {
                        (Some(who), Some(sig)) => Some(
                            SignedProposalView {
                                proposal: ProposalView {
                                    height: h,
                                    round: r,
                                    content: c,
                                    proof: empty_proof_view(),
                                    lock_round: Some(lr),
                                    lock_votes: votes,
                                    proposer: who,
                                },
                                signature: sig,
                            },
                        ),
                        _ => None,
                    }
                } else {
                    None
                },
                _ => None,
            }
        },
        None => None,
    }
}

/// The byte strings and lists of a signed proposal are short enough for the
/// rlp crate to read back.
pub open spec fn signed_proposal_fits(sp: SignedProposalView) -> bool {
    &&& sp.proposal.content.len() < 0x1_0000_0000
    &&& sp.proposal.proposer.len() < 0x1_0000_0000
    &&& rlp_uints_payload(sp.signature).len() < 0x1_0000_0000
    &&& sp.proposal.lock_round is Some ==> {
        &&& rlp_signed_votes_payload(sp.proposal.lock_votes).len() < 0x1_0000_0000
        &&& forall|i: int|
            0 <= i < sp.proposal.lock_votes.len() ==> signed_vote_fits(
                #[trigger] sp.proposal.lock_votes[i],
            )
    }
}

/// The encoding of an item of the given shape: a list of the value when
/// the flag is set, else the byte string of the value.
pub open spec fn enc_part(x: (bool, Seq<u8>)) -> Seq<u8> {
    if x.0 {
        rlp_list(x.1)
    } else {
        rlp_string(x.1)
    }
}

/// The encodings of items of the given shapes.
pub open spec fn parts_of(sh: Seq<(bool, Seq<u8>)>) -> Seq<Seq<u8>> {
    sh.map_values(|x: (bool, Seq<u8>)| enc_part(x))
}

/// The shapes of the items of a signed proposal, in order.
pub open spec fn sp_shapes(sp: SignedProposalView) -> Seq<(bool, Seq<u8>)> {
    let p = sp.proposal;
    match p.lock_round {
        Some(lr) => seq![
            (false, be_min(p.height as nat)),
            (false, be_min(p.round as nat)),
            (false, p.content),
            (false, be_min(lr as nat)),
            (true, rlp_signed_votes_payload(p.lock_votes)),
            (false, p.proposer),
            (true, rlp_uints_payload(sp.signature)),
        ],
        None => seq![
            (false, be_min(p.height as nat)),
            (false, be_min(p.round as nat)),
            (false, p.content),
            (false, p.proposer),
            (true, rlp_uints_payload(sp.signature)),
        ],
    }
}

/// Parts with one more part after them.
proof fn lemma_concat_push(ps: Seq<Seq<u8>>, x: Seq<u8>)
    ensures
        concat(ps.push(x)) == concat(ps) + x,
    decreases ps.len(),
{
    if ps.len() == 0 {
        assert(ps.push(x).drop_first() =~= Seq::<Seq<u8>>::empty());
        assert(concat(Seq::<Seq<u8>>::empty()) == Seq::<u8>::empty());
        assert(ps.push(x)[0] == x);
        assert(concat(ps.push(x)) == x + concat(ps.push(x).drop_first()));
        assert(concat(ps.push(x)) =~= x + Seq::<u8>::empty());
    } else {
        assert(ps.push(x).drop_first() =~= ps.drop_first().push(x));
        lemma_concat_push(ps.drop_first(), x);
        assert(concat(ps.push(x)) =~= concat(ps) + x);
    }
}

/// A signed proposal's encoding is its items one after another, and the
/// values of the items of one whose strings fit are shorter than 2^32
/// bytes.
proof fn lemma_sp_parts(sp: SignedProposalView)
    ensures
        rlp_signed_proposal(sp) == concat(parts_of(sp_shapes(sp))),
        sp_shapes(sp).len() == if sp.proposal.lock_round is Some {
            7int
        } else {
            5int
        },
        sp_shapes(sp)[4].0,
        signed_proposal_fits(sp) ==> forall|j: int|
            0 <= j < sp_shapes(sp).len() ==> (#[trigger] sp_shapes(sp)[j]).1.len() < 0x1_0000_0000,
{
    let p = sp.proposal;
    let sh = sp_shapes(sp);
    let a = rlp_uint(p.height as nat);
    let b = rlp_uint(p.round as nat);
    let c = rlp_string(p.content);
    let w = rlp_string(p.proposer);
    let g = rlp_byte_list(sp.signature);
    let e = Seq::<Seq<u8>>::empty();
    lemma_be_min_u64(p.height);
    lemma_be_min_u64(p.round);
    assert(concat(e) == Seq::<u8>::empty());
    lemma_concat_push(e, a);
    lemma_concat_push(e.push(a), b);
    lemma_concat_push(e.push(a).push(b), c);
    match p.lock_round {
        Some(lr) => {
            lemma_be_min_u64(lr);
            let l = rlp_uint(lr as nat);
            let v = rlp_list(rlp_signed_votes_payload(p.lock_votes));
            lemma_concat_push(e.push(a).push(b).push(c), l);
            lemma_concat_push(e.push(a).push(b).push(c).push(l), v);
            lemma_concat_push(e.push(a).push(b).push(c).push(l).push(v), w);
            lemma_concat_push(e.push(a).push(b).push(c).push(l).push(v).push(w), g);
            assert(parts_of(sh) =~= e.push(a).push(b).push(c).push(l).push(v).push(w).push(g));
            assert(rlp_signed_proposal(sp) =~= Seq::<u8>::empty() + a + b + c + l + v + w + g);
        },
        None => {
            lemma_concat_push(e.push(a).push(b).push(c), w);
            lemma_concat_push(e.push(a).push(b).push(c).push(w), g);
            assert(parts_of(sh) =~= e.push(a).push(b).push(c).push(w).push(g));
            assert(rlp_signed_proposal(sp) =~= Seq::<u8>::empty() + a + b + c + w + g);
        },
    }
}

/// Where item `j` starts, given the ends of the items before it.
pub open spec fn start_of(pos: int, ends: Seq<(usize, usize)>, j: int) -> int {
    if j == 0 {
        pos
    } else {
        ends[j - 1].1 as int
    }
}

/// The items whose value starts and ends are `ends`, the first starting at
/// `pos`.
pub open spec fn ends_items(bs: Seq<u8>, pos: int, ends: Seq<(usize, usize)>) -> Seq<Seq<u8>> {
    Seq::new(ends.len(), |j: int| bs.subrange(start_of(pos, ends, j), ends[j].1 as int))
}

/// Whether `ends` hold, for each item read from `pos`, where its value starts
/// and where it ends.
pub open spec fn ends_ok(bs: Seq<u8>, pos: int, ends: Seq<(usize, usize)>) -> bool {
    forall|j: int|
        0 <= j < ends.len() ==> (#[trigger] ends[j]).0 == value_start(bs, start_of(pos, ends, j))
            && start_of(pos, ends, j) <= ends[j].0 <= ends[j].1 && start_of(pos, ends, j) < ends[j].1
            <= bs.len()
}

/// Whether the items read from `pos` end where items of the shapes `sh` one
/// after another do, a list's value being its whole value.
pub open spec fn ends_match(pos: int, ends: Seq<(usize, usize)>, sh: Seq<(bool, Seq<u8>)>) -> bool {
    forall|j: int|
        0 <= j < ends.len() ==> (#[trigger] ends[j]).1 == part_end(pos, parts_of(sh), (j + 1) as nat)
            && (sh[j].0 ==> ends[j].1 - ends[j].0 == sh[j].1.len())
}

/// Reads `k` items one after another from `pos`: for each, where its value
/// starts and where it ends. When the bytes from `pos` begin with items of
/// the shapes `sh`, the items read end where those do.
fn read_items(b: &[u8], pos: usize, k: usize, Ghost(shapes): Ghost<Option<Seq<(bool, Seq<u8>)>>>) -> (res:
    Option<Vec<(usize, usize)>>)
    requires
        pos <= b@.len(),
        shapes matches Some(sh) ==> sh.len() == k && starts_with(
            b@.subrange(pos as int, b@.len() as int),
            concat(parts_of(sh)),
        ) && forall|j: int| 0 <= j < k ==> (#[trigger] sh[j]).1.len() < 0x1_0000_0000,
    ensures
        match res {
            Some(ends) => {
                &&& ends@.len() == k
                &&& items_at(b@, pos as int, k as nat) == Some(
                    (ends_items(b@, pos as int, ends@), start_of(pos as int, ends@, k as int)),
                )
                &&& ends_ok(b@, pos as int, ends@)
            },
            None => items_at(b@, pos as int, k as nat) is None,
        },
        shapes matches Some(sh) ==> (res matches Some(ends) && ends_match(pos as int, ends@, sh)),
{
    let ghost bs = b@;
    let ghost ps: Seq<Seq<u8>> = match shapes {
        Some(sh) => parts_of(sh),
        None => Seq::empty(),
    };
    proof {
        if let Some(sh) = shapes {
            lemma_parts(bs, pos as int, ps);
        }
    }
    let mut ends: Vec<(usize, usize)> = Vec::new();
    let mut at = pos;
    let mut i: usize = 0;
    assert(items_at(bs, pos as int, 0) == Some((Seq::<Seq<u8>>::empty(), pos as int)));
    assert(ends_items(bs, pos as int, ends@) =~= Seq::<Seq<u8>>::empty());
    while i < k
        invariant
            bs == b@,
            pos <= at <= b@.len(),
            i <= k,
            ends@.len() == i,
            at == start_of(pos as int, ends@, i as int),
            items_at(bs, pos as int, i as nat) == Some((ends_items(bs, pos as int, ends@), at as int)),
            ends_ok(bs, pos as int, ends@),
            shapes matches Some(sh) ==> {
                &&& sh.len() == k
                &&& ps == parts_of(sh)
                &&& forall|j: int| 0 <= j < k ==> (#[trigger] sh[j]).1.len() < 0x1_0000_0000
                &&& forall|j: nat|
                    j < ps.len() ==> starts_with(
                        bs.subrange(part_end(pos as int, ps, j), bs.len() as int),
                        #[trigger] ps[j as int],
                    )
                &&& at == part_end(pos as int, ps, i as nat)
                &&& ends_match(pos as int, ends@, sh)
            },
        decreases k - i,
    {
        let ghost before = ends@;
        proof {
            if let Some(sh) = shapes {
                assert(ps[i as int] == enc_part(sh[i as int]));
                assert(starts_with(bs.subrange(at as int, bs.len() as int), ps[i as int]));
                assert(sh[i as int].1.len() < 0x1_0000_0000);
            }
        }
        let (v, e) = match read_item(b, at) {
            Some(r) => r,
            None => {
                proof {
                    lemma_items_at_none(bs, pos as int, (i + 1) as nat, k as nat);
                }
                return None;
            },
        };
        ends.push((v, e));
        proof {
            assert(ends_items(bs, pos as int, ends@) =~= ends_items(bs, pos as int, before).push(
                bs.subrange(at as int, e as int),
            ));
            assert forall|j: int| 0 <= j < ends@.len() implies (#[trigger] ends@[j]).0 == value_start(
                bs,
                start_of(pos as int, ends@, j),
            ) && start_of(pos as int, ends@, j) <= ends@[j].0 <= ends@[j].1 && start_of(
                pos as int,
                ends@,
                j,
            ) < ends@[j].1 <= bs.len() by {
                if j < i {
                    assert(ends@[j] == before[j]);
                    assert(start_of(pos as int, ends@, j) == start_of(pos as int, before, j));
                }
            }
            if let Some(sh) = shapes {
                assert(part_end(pos as int, ps, (i + 1) as nat) == at + ps[i as int].len());
                assert forall|j: int| 0 <= j < ends@.len() implies (#[trigger] ends@[j]).1 == part_end(
                    pos as int,
                    parts_of(sh),
                    (j + 1) as nat,
                ) && (sh[j].0 ==> ends@[j].1 - ends@[j].0 == sh[j].1.len()) by {
                    if j < i {
                        assert(ends@[j] == before[j]);
                    }
                }
            }
        }
        at = e;
        i = i + 1;
    }
    Some(ends)
}

/// Once reading the items fails, reading more fails too.
proof fn lemma_items_at_none(bs: Seq<u8>, pos: int, i: nat, k: nat)
    requires
        i <= k,
        items_at(bs, pos, i) is None,
    ensures
        items_at(bs, pos, k) is None,
    decreases k - i,
{
    if i < k {
        lemma_items_at_none(bs, pos, i + 1, k);
    }
}

/// A list read so far, followed by what the rest reads as.
pub open spec fn opt_prepend(a: Seq<SignedVoteView>, o: Option<Seq<SignedVoteView>>) -> Option<
    Seq<SignedVoteView>,
> {
    match o {
        Some(r) => Some(a + r),
        None => None,
    }
}

/// Bytes from `at` to `end` made of two parts: the first begins what
/// follows `at`, and the second lies right after it.
proof fn lemma_split_within(bs: Seq<u8>, at: int, end: int, x: Seq<u8>, y: Seq<u8>)
    requires
        0 <= at <= end <= bs.len(),
        bs.subrange(at, end) == x + y,
    ensures
        starts_with(bs.subrange(at, bs.len() as int), x),
        at + x.len() <= end,
        bs.subrange(at + x.len(), end) == y,
{
    assert(bs.subrange(at, bs.len() as int).subrange(0, x.len() as int) =~= (x + y).subrange(
        0,
        x.len() as int,
    ));
    assert((x + y).subrange(0, x.len() as int) =~= x);
    assert(bs.subrange(at + x.len(), end) =~= (x + y).subrange(x.len() as int, (x + y).len() as int));
    assert((x + y).subrange(x.len() as int, (x + y).len() as int) =~= y);
}

/// Reads the signed votes that fill the bytes from `pos` to `end` (see
/// `signed_votes_in`). When those bytes are the encodings of `canon`, one
/// after another, the votes read are `canon`.
fn decode_signed_votes_in(
    b: &[u8],
    pos: usize,
    end: usize,
    Ghost(canon): Ghost<Option<Seq<SignedVoteView>>>,
) -> (res: Option<Vec<SignedVote>>)
    requires
        pos <= end <= b@.len(),
        canon matches Some(vs) ==> b@.subrange(pos as int, end as int) == rlp_signed_votes_payload(vs)
            && forall|i: int| 0 <= i < vs.len() ==> signed_vote_fits(#[trigger] vs[i]),
    ensures
        match res {
            Some(v) => signed_votes_in(b@, pos as int, end as int) == Some(signed_votes_view(v@)),
            None => signed_votes_in(b@, pos as int, end as int) is None,
        },
        canon matches Some(vs) ==> (res matches Some(v) && signed_votes_view(v@) == vs),
{
    let ghost bs = b@;
    let mut votes: Vec<SignedVote> = Vec::new();
    let mut at = pos;
    let ghost mut rest: Seq<SignedVoteView> = match canon {
        Some(vs) => vs,
        None => Seq::empty(),
    };
    assert(signed_votes_view(votes@) =~= Seq::<SignedVoteView>::empty());
    assert(opt_prepend(Seq::empty(), signed_votes_in(bs, pos as int, end as int)) == signed_votes_in(
        bs,
        pos as int,
        end as int,
    )) by {
        if let Some(r) = signed_votes_in(bs, pos as int, end as int) {
            assert(Seq::<SignedVoteView>::empty() + r =~= r);
        }
    }
    while at < end
        invariant
            bs == b@,
            pos <= at <= end <= bs.len(),
            signed_votes_in(bs, pos as int, end as int) == opt_prepend(
                signed_votes_view(votes@),
                signed_votes_in(bs, at as int, end as int),
            ),
            canon matches Some(vs) ==> {
                &&& signed_votes_view(votes@) + rest == vs
                &&& bs.subrange(at as int, end as int) == rlp_signed_votes_payload(rest)
                &&& forall|i: int| 0 <= i < rest.len() ==> signed_vote_fits(#[trigger] rest[i])
            },
        decreases end - at,
    {
        let ghost next: Option<SignedVoteView> = if canon is Some {
            Some(rest[0])
        } else {
            None
        };
        proof {
            if canon is Some {
                if rest.len() == 0 {
                    assert(rlp_signed_votes_payload(rest) == Seq::<u8>::empty());
                    assert(bs.subrange(at as int, end as int).len() == end - at);
                }
                lemma_votes_payload_first(rest);
                lemma_split_within(
                    bs,
                    at as int,
                    end as int,
                    rlp_signed_vote(rest[0]),
                    rlp_signed_votes_payload(rest.drop_first()),
                );
                assert(signed_vote_fits(rest[0]));
            }
        }
        let (v, e) = match decode_signed_vote_at(b, at, Ghost(next)) {
            Some(r) => r,
            None => return None,
        };
        if e > end {
            return None;
        }
        let ghost before = signed_votes_view(votes@);
        votes.push(v);
        proof {
            assert(signed_votes_view(votes@) =~= before.push(v@));
            if let Some(r) = signed_votes_in(bs, e as int, end as int) {
                assert(before + (seq![v@] + r) =~= before.push(v@) + r);
            }
            if canon is Some {
                assert(before.push(v@) + rest.drop_first() =~= before + rest);
                assert forall|i: int| 0 <= i < rest.drop_first().len() implies signed_vote_fits(
                    #[trigger] rest.drop_first()[i],
                ) by {
                    assert(rest.drop_first()[i] == rest[i + 1]);
                }
                rest = rest.drop_first();
            }
        }
        at = e;
    }
    proof {
        assert(signed_votes_view(votes@) + Seq::<SignedVoteView>::empty() =~= signed_votes_view(votes@));
        if canon is Some {
            if rest.len() > 0 {
                lemma_votes_payload_first(rest);
                lemma_string_nonempty(be_min(crate::types::vote_type_code(rest[0].vote.vote_type) as nat));
            }
            assert(rest =~= Seq::<SignedVoteView>::empty());
        }
    }
    Some(votes)
}

/// Parts split in two, one after the other.
proof fn lemma_concat_append(a: Seq<Seq<u8>>, c: Seq<Seq<u8>>)
    ensures
        concat(a + c) == concat(a) + concat(c),
    decreases a.len(),
{
    if a.len() == 0 {
        assert(a + c =~= c);
        assert(concat(a) == Seq::<u8>::empty());
        assert(concat(a) + concat(c) =~= concat(c));
    } else {
        assert((a + c).drop_first() =~= a.drop_first() + c);
        assert((a + c)[0] == a[0]);
        lemma_concat_append(a.drop_first(), c);
        assert(concat(a + c) =~= concat(a) + concat(c));
    }
}

/// A list's encoding ends with its payload.
proof fn lemma_list_payload(p: Seq<u8>)
    ensures
        rlp_list(p).len() >= p.len() + 1,
        rlp_list(p).subrange(rlp_list(p).len() - p.len(), rlp_list(p).len() as int) == p,
{
    reveal(rlp_list);
    assert(rlp_list(p).subrange(rlp_list(p).len() - p.len(), rlp_list(p).len() as int) =~= p);
}

/// A string's encoding is at least one byte, and no shorter than the string.
proof fn lemma_string_nonempty(t: Seq<u8>)
    ensures
        rlp_string(t).len() >= 1,
        rlp_string(t).len() >= t.len(),
{
    reveal(rlp_string);
}

/// The proof that a decoded proposal carries.
fn empty_proof() -> (res: Proof)
    ensures
        res@ == empty_proof_view(),
{
    let res = Proof { block_hash: Vec::new(), height: 0, round: 0, precommit_votes: Vec::new() };
    assert(res@.block_hash =~= Seq::<u8>::empty());
    assert(res@.precommit_votes =~= Seq::<(Seq<u8>, Seq<u8>)>::empty());
    res
}

/// Whether `sp` is a signed proposal whose strings fit and that `b` is
/// the encoding of.
pub open spec fn encodes(b: Seq<u8>, sp: SignedProposalView) -> bool {
    signed_proposal_fits(sp) && b == rlp_signed_proposal(sp)
}

/// What is known of the first five items of the encoding of `sp` read from
/// `b`: the values, and where the items end.
pub open spec fn head_matches(
    b: Seq<u8>,
    sp: SignedProposalView,
    h: u64,
    r: u64,
    c: Seq<u8>,
    e2: int,
    e3: int,
    v4: int,
    e4: int,
) -> bool {
    let ps = parts_of(sp_shapes(sp));
    &&& h == sp.proposal.height && r == sp.proposal.round && c == sp.proposal.content
    &&& e2 == part_end(0, ps, 3) && e3 == part_end(0, ps, 4) && e4 == part_end(0, ps, 5)
    &&& b.subrange(e2, e3) == ps[3] && b.subrange(e3, e4) == ps[4]
    &&& e4 - v4 == sp_shapes(sp)[4].1.len()
}

/// The encoding of a signed proposal begins with its first five items.
proof fn lemma_head_start(bs: Seq<u8>, sp: SignedProposalView)
    requires
        encodes(bs, sp),
    ensures
        starts_with(bs.subrange(0, bs.len() as int), concat(parts_of(sp_shapes(sp).subrange(0, 5)))),
        forall|j: int|
            0 <= j < 5 ==> (#[trigger] sp_shapes(sp).subrange(0, 5)[j]).1.len() < 0x1_0000_0000,
{
    let sh = sp_shapes(sp);
    let ps = parts_of(sh);
    lemma_sp_parts(sp);
    assert(ps =~= parts_of(sh.subrange(0, 5)) + ps.subrange(5, ps.len() as int));
    lemma_concat_append(parts_of(sh.subrange(0, 5)), ps.subrange(5, ps.len() as int));
    assert(bs.subrange(0, bs.len() as int) =~= bs);
    lemma_skip(bs, 0, concat(parts_of(sh.subrange(0, 5))), concat(ps.subrange(5, ps.len() as int)));
    assert forall|j: int| 0 <= j < 5 implies (#[trigger] sh.subrange(0, 5)[j]).1.len() < 0x1_0000_0000 by {
        assert(sh.subrange(0, 5)[j] == sh[j]);
    }
}

/// The first five items read from the encoding of a signed proposal are its
/// first five parts.
proof fn lemma_head_ends(bs: Seq<u8>, sp: SignedProposalView, ends: Seq<(usize, usize)>)
    requires
        encodes(bs, sp),
        ends.len() == 5,
        ends_match(0, ends, sp_shapes(sp).subrange(0, 5)),
    ensures
        ({
            let ps = parts_of(sp_shapes(sp));
            &&& ends[2].1 == part_end(0, ps, 3) && ends[3].1 == part_end(0, ps, 4) && ends[4].1
                == part_end(0, ps, 5)
            &&& bs.subrange(0, ends[0].1 as int) == rlp_uint(sp.proposal.height as nat)
            &&& bs.subrange(ends[0].1 as int, ends[1].1 as int) == rlp_uint(sp.proposal.round as nat)
            &&& bs.subrange(ends[1].1 as int, ends[2].1 as int) == rlp_string(sp.proposal.content)
            &&& bs.subrange(ends[2].1 as int, ends[3].1 as int) == ps[3]
            &&& bs.subrange(ends[3].1 as int, ends[4].1 as int) == ps[4]
            &&& ends[4].1 - ends[4].0 == sp_shapes(sp)[4].1.len()
        }),
{
    let sh = sp_shapes(sp);
    let ps = parts_of(sh);
    let f = parts_of(sh.subrange(0, 5));
    lemma_sp_parts(sp);
    assert(bs.subrange(0, bs.len() as int) =~= bs);
    lemma_parts(bs, 0, ps);
    assert(f =~= ps.subrange(0, 5));
    lemma_part_end_prefix(0, ps, 5, 1);
    lemma_part_end_prefix(0, ps, 5, 2);
    lemma_part_end_prefix(0, ps, 5, 3);
    lemma_part_end_prefix(0, ps, 5, 4);
    lemma_part_end_prefix(0, ps, 5, 5);
    assert(ends[0].1 == part_end(0, f, 1));
    assert(ends[1].1 == part_end(0, f, 2));
    assert(ends[2].1 == part_end(0, f, 3));
    assert(ends[3].1 == part_end(0, f, 4));
    assert(ends[4].1 == part_end(0, f, 5));
    assert(sh.subrange(0, 5)[4] == sh[4]);
    assert(part_end(0, ps, 0) == 0);
    assert(ps[0] == rlp_uint(sp.proposal.height as nat));
    assert(ps[1] == rlp_uint(sp.proposal.round as nat));
    assert(ps[2] == rlp_string(sp.proposal.content));
}

/// Reads the first five items of a signed proposal (see `proposal_head`):
/// the height, the round, the block hash, and where the third, fourth and
/// fifth items end and the fifth's value starts. When `b` is the encoding of
/// `sp`, they are its values and the ends of its items.
fn decode_head(b: &[u8], Ghost(canon): Ghost<Option<SignedProposalView>>) -> (res: Option<
    (u64, u64, Vec<u8>, usize, usize, usize, usize),
>)
    requires
        canon matches Some(sp) ==> encodes(b@, sp),
    ensures
        match res {
            Some((h, r, c, e2, e3, v4, e4)) => {
                &&& e2 <= e3 <= v4 <= e4 <= b@.len()
                &&& proposal_head(b@) == Some(
                    (
                        h,
                        r,
                        c@,
                        b@.subrange(e2 as int, e3 as int),
                        b@.subrange(e3 as int, e4 as int),
                        v4 as int,
                        e4 as int,
                    ),
                )
                &&& canon matches Some(sp) ==> head_matches(
                    b@,
                    sp,
                    h,
                    r,
                    c@,
                    e2 as int,
                    e3 as int,
                    v4 as int,
                    e4 as int,
                )
            },
            None => proposal_head(b@) is None && canon is None,
        },
{
    let ghost bs = b@;
    let ghost first: Option<Seq<(bool, Seq<u8>)>> = match canon {
        Some(sp) => Some(sp_shapes(sp).subrange(0, 5)),
        None => None,
    };
    proof {
        if let Some(sp) = canon {
            lemma_head_start(bs, sp);
        }
    }
    let ends = match read_items(b, 0, 5, Ghost(first)) {
        Some(e) => e,
        None => return None,
    };
    let (_, e0) = ends[0];
    let (_, e1) = ends[1];
    let (_, e2) = ends[2];
    let (_, e3) = ends[3];
    let (v4, e4) = ends[4];
    proof {
        assert(ends@[0].0 <= e0 <= bs.len());
        assert(ends@[1].0 <= e1 <= bs.len());
        assert(ends@[2].0 <= e2 <= bs.len());
        assert(ends@[3].0 <= e3 <= bs.len());
        assert(ends@[4].0 <= e4 <= bs.len());
        assert(start_of(0, ends@, 4) == e3);
        assert(start_of(0, ends@, 5) == e4);
        let it = ends_items(bs, 0, ends@);
        assert(it[0] == bs.subrange(0, e0 as int));
        assert(it[1] == bs.subrange(e0 as int, e1 as int));
        assert(it[2] == bs.subrange(e1 as int, e2 as int));
        assert(it[3] == bs.subrange(e2 as int, e3 as int));
        assert(it[4] == bs.subrange(e3 as int, e4 as int));
        if let Some(sp) = canon {
            lemma_head_ends(bs, sp, ends@);
        }
    }
    let height = match rlp_decode_u64(slice_of(b, 0, e0)) {
        Some(h) => h,
        None => return None,
    };
    let round = match rlp_decode_u64(slice_of(b, e0, e1)) {
        Some(r) => r,
        None => return None,
    };
    let content = match rlp_decode_bytes(slice_of(b, e1, e2)) {
        Some(c) => c,
        None => return None,
    };
    proof {
        assert(value_start(bs, e4 - (e4 - e3)) == v4);
    }
    Some((height, round, content, e2, e3, v4, e4))
}

/// Reads a signed proposal that fills `b`: `DecodeErr` unless `b` holds one
/// (see `spec_decode_signed_proposal`). The encoding of a signed proposal
/// whose strings fit reads back as a signed proposal with that same
/// encoding; the encoding holds no proof, so the proof read is empty.
pub fn decode_signed_proposal(b: &[u8]) -> (res: Result<SignedProposal, ConsensusError>)
    ensures
        match res {
            Ok(v) => spec_decode_signed_proposal(b@) == Some(v@),
            Err(e) => e == ConsensusError::DecodeErr && spec_decode_signed_proposal(b@) is None,
        },
        (exists|sp: SignedProposalView| #[trigger] encodes(b@, sp)) ==> (res matches Ok(v)
            && rlp_signed_proposal(v@) == b@ && v@.proposal.proof == empty_proof_view()),
{
    let ghost bs = b@;
    let ghost canon: Option<SignedProposalView> = if exists|sp: SignedProposalView|
        #[trigger] encodes(b@, sp) {
        Some(choose|sp: SignedProposalView| #[trigger] encodes(b@, sp))
    } else {
        None
    };
    let (height, round, content, e2, e3, v4, e4) = match decode_head(b, Ghost(canon)) {
        Some(h) => h,
        None => return Err(ConsensusError::DecodeErr),
    };
    if e4 == b.len() {
        proof {
            if let Some(sp) = canon {
                if sp.proposal.lock_round is Some {
                    lemma_end_after_head(bs, sp);
                }
            }
        }
        let proposer = match rlp_decode_bytes(slice_of(b, e2, e3)) {
            Some(p) => p,
            None => return Err(ConsensusError::DecodeErr),
        };
        let signature = match rlp_decode_byte_list(slice_of(b, e3, e4)) {
            Some(s) => s,
            None => return Err(ConsensusError::DecodeErr),
        };
        let res = SignedProposal {
            proposal: Proposal {
                height,
                round,
                content,
                proof: empty_proof(),
                lock_round: None,
                lock_votes: Vec::new(),
                proposer,
            },
            signature,
        };
        proof {
            assert(res@.proposal.lock_votes =~= Seq::<SignedVoteView>::empty());
            if let Some(sp) = canon {
                assert(rlp_signed_proposal(res@) =~= rlp_signed_proposal(sp));
            }
        }
        Ok(res)
    } else {
        proof {
            if let Some(sp) = canon {
                if sp.proposal.lock_round is None {
                    lemma_end_after_head(bs, sp);
                }
            }
        }
        decode_locked_tail(b, height, round, content, e2, e3, v4, e4, Ghost(canon))
    }
}

/// The first five items of the encoding of a signed proposal end the
/// encoding exactly when it is not locked.
proof fn lemma_end_after_head(bs: Seq<u8>, sp: SignedProposalView)
    requires
        encodes(bs, sp),
    ensures
        (part_end(0, parts_of(sp_shapes(sp)), 5) == bs.len()) <==> sp.proposal.lock_round is None,
{
    let ps = parts_of(sp_shapes(sp));
    lemma_sp_parts(sp);
    assert(bs.subrange(0, bs.len() as int) =~= bs);
    lemma_parts(bs, 0, ps);
    if sp.proposal.lock_round is Some {
        lemma_string_nonempty(sp.proposal.proposer);
        assert(part_end(0, ps, 6) == part_end(0, ps, 5) + ps[5].len());
    }
}

/// Reads the rest of a locked signed proposal, whose first five items end
/// at `e4`: the lock round, the lock votes, then the proposer and the
/// signature, which must end `b`.
fn decode_locked_tail(
    b: &[u8],
    height: u64,
    round: u64,
    content: Vec<u8>,
    e2: usize,
    e3: usize,
    v4: usize,
    e4: usize,
    Ghost(canon): Ghost<Option<SignedProposalView>>,
) -> (res: Result<SignedProposal, ConsensusError>)
    requires
        e2 <= e3 <= v4 <= e4 < b@.len(),
        proposal_head(b@) == Some(
            (
                height,
                round,
                content@,
                b@.subrange(e2 as int, e3 as int),
                b@.subrange(e3 as int, e4 as int),
                v4 as int,
                e4 as int,
            ),
        ),
        canon matches Some(sp) ==> encodes(b@, sp) && sp.proposal.lock_round is Some && head_matches(
            b@,
            sp,
            height,
            round,
            content@,
            e2 as int,
            e3 as int,
            v4 as int,
            e4 as int,
        ),
    ensures
        match res {
            Ok(v) => spec_decode_signed_proposal(b@) == Some(v@),
            Err(e) => e == ConsensusError::DecodeErr && spec_decode_signed_proposal(b@) is None,
        },
        canon matches Some(sp) ==> (res matches Ok(v) && rlp_signed_proposal(v@) == b@
            && v@.proposal.proof == empty_proof_view()),
{
    let ghost bs = b@;
    let ghost lock: Option<Seq<SignedVoteView>> = match canon {
        Some(sp) => Some(sp.proposal.lock_votes),
        None => None,
    };
    let ghost last: Option<Seq<(bool, Seq<u8>)>> = match canon {
        Some(sp) => Some(sp_shapes(sp).subrange(5, 7)),
        None => None,
    };
    proof {
        if let Some(sp) = canon {
            lemma_locked_tail(bs, sp, v4 as int);
        }
    }
    let lock_round = match rlp_decode_u64(slice_of(b, e2, e3)) {
        Some(l) => l,
        None => return Err(ConsensusError::DecodeErr),
    };
    let lock_votes = match decode_signed_votes_in(b, v4, e4, Ghost(lock)) {
        Some(v) => v,
        None => return Err(ConsensusError::DecodeErr),
    };
    let tail = match read_items(b, e4, 2, Ghost(last)) {
        Some(t) => t,
        None => return Err(ConsensusError::DecodeErr),
    };
    let (_, e5) = tail[0];
    let (_, e6) = tail[1];
    proof {
        assert(tail@[0].0 <= e5 <= bs.len());
        assert(tail@[1].0 <= e6 <= bs.len());
        assert(start_of(e4 as int, tail@, 1) == e5);
        assert(start_of(e4 as int, tail@, 2) == e6);
        assert(ends_items(bs, e4 as int, tail@)[0] == bs.subrange(e4 as int, e5 as int));
        assert(ends_items(bs, e4 as int, tail@)[1] == bs.subrange(e5 as int, e6 as int));
        if let Some(sp) = canon {
            lemma_tail_ends(bs, sp, e4 as int, e5 as int, e6 as int);
        }
    }
    if e6 != b.len() {
        return Err(ConsensusError::DecodeErr);
    }
    let proposer = match rlp_decode_bytes(slice_of(b, e4, e5)) {
        Some(p) => p,
        None => return Err(ConsensusError::DecodeErr),
    };
    let signature = match rlp_decode_byte_list(slice_of(b, e5, e6)) {
        Some(s) => s,
        None => return Err(ConsensusError::DecodeErr),
    };
    let res = SignedProposal {
        proposal: Proposal {
            height,
            round,
            content,
            proof: empty_proof(),
            lock_round: Some(lock_round),
            lock_votes,
            proposer,
        },
        signature,
    };
    proof {
        if let Some(sp) = canon {
            assert(rlp_signed_proposal(res@) =~= rlp_signed_proposal(sp));
        }
    }
    Ok(res)
}

/// Seven parts one after another: the value of a list that is the fifth
/// part lies at the end of that part.
proof fn lemma_fifth_payload(bs: Seq<u8>, ps: Seq<Seq<u8>>, pl: Seq<u8>, v4: int)
    requires
        bs == concat(ps),
        ps.len() == 7,
        ps[4] == rlp_list(pl),
        part_end(0, ps, 5) - v4 == pl.len(),
    ensures
        bs.subrange(v4, part_end(0, ps, 5)) == pl,
{
    assert(bs.subrange(0, bs.len() as int) =~= bs);
    lemma_parts(bs, 0, ps);
    lemma_list_payload(pl);
    let e3 = part_end(0, ps, 4);
    let e4 = part_end(0, ps, 5);
    assert(bs.subrange(e3, e4) == ps[4]);
    assert(bs.subrange(v4, e4) =~= rlp_list(pl).subrange(rlp_list(pl).len() - pl.len(), rlp_list(pl).len() as int));
}

/// Seven parts one after another: what follows the fifth is the sixth and
/// the seventh.
proof fn lemma_last_two(bs: Seq<u8>, ps: Seq<Seq<u8>>)
    requires
        bs == concat(ps),
        ps.len() == 7,
    ensures
        bs.subrange(part_end(0, ps, 5), bs.len() as int) == ps[5] + ps[6],
        part_end(0, ps, 6) == part_end(0, ps, 5) + ps[5].len(),
        part_end(0, ps, 7) == bs.len(),
{
    assert(bs.subrange(0, bs.len() as int) =~= bs);
    lemma_parts(bs, 0, ps);
    let e4 = part_end(0, ps, 5);
    assert(part_end(0, ps, 6) == e4 + ps[5].len());
    assert(part_end(0, ps, 7) == e4 + ps[5].len() + ps[6].len());
    assert(bs.subrange(e4, bs.len() as int) =~= bs.subrange(e4, e4 + ps[5].len()) + bs.subrange(
        e4 + ps[5].len(),
        bs.len() as int,
    ));
    assert(bs.subrange(e4, bs.len() as int) =~= ps[5] + ps[6]);
}

/// In the encoding of a locked signed proposal, the value of the fifth item
/// is the lock votes' encodings, and the proposer and the signature follow
/// the fifth item and end the encoding.
proof fn lemma_locked_tail(bs: Seq<u8>, sp: SignedProposalView, v4: int)
    requires
        encodes(bs, sp),
        sp.proposal.lock_round is Some,
        part_end(0, parts_of(sp_shapes(sp)), 5) - v4 == sp_shapes(sp)[4].1.len(),
    ensures
        bs.subrange(v4, part_end(0, parts_of(sp_shapes(sp)), 5)) == rlp_signed_votes_payload(
            sp.proposal.lock_votes,
        ),
        starts_with(
            bs.subrange(part_end(0, parts_of(sp_shapes(sp)), 5), bs.len() as int),
            concat(parts_of(sp_shapes(sp).subrange(5, 7))),
        ),
        forall|j: int|
            0 <= j < 2 ==> (#[trigger] sp_shapes(sp).subrange(5, 7)[j]).1.len() < 0x1_0000_0000,
{
    let sh = sp_shapes(sp);
    let ps = parts_of(sh);
    lemma_sp_parts(sp);
    let pl = rlp_signed_votes_payload(sp.proposal.lock_votes);
    assert(ps[4] == rlp_list(pl));
    lemma_fifth_payload(bs, ps, pl, v4);
    lemma_last_two(bs, ps);
    let l = parts_of(sh.subrange(5, 7));
    assert(l =~= seq![ps[5], ps[6]]);
    assert(concat(l) =~= ps[5] + ps[6]) by {
        reveal_with_fuel(concat, 3);
    }
    let e4 = part_end(0, ps, 5);
    assert(bs.subrange(e4, bs.len() as int).subrange(0, (ps[5] + ps[6]).len() as int) =~= ps[5] + ps[6]);
    assert forall|j: int| 0 <= j < 2 implies (#[trigger] sh.subrange(5, 7)[j]).1.len() < 0x1_0000_0000 by {
        assert(sh.subrange(5, 7)[j] == sh[5 + j]);
    }
}

/// In the encoding of a locked signed proposal, the last two items end where
/// its parts do: the proposer, then the signature, at the end.
proof fn lemma_tail_ends(bs: Seq<u8>, sp: SignedProposalView, e4: int, e5: int, e6: int)
    requires
        encodes(bs, sp),
        sp.proposal.lock_round is Some,
        e4 == part_end(0, parts_of(sp_shapes(sp)), 5),
        e5 == part_end(e4, parts_of(sp_shapes(sp).subrange(5, 7)), 1),
        e6 == part_end(e4, parts_of(sp_shapes(sp).subrange(5, 7)), 2),
    ensures
        e6 == bs.len(),
        bs.subrange(e4, e5) == rlp_string(sp.proposal.proposer),
        bs.subrange(e5, e6) == rlp_byte_list(sp.signature),
{
    let sh = sp_shapes(sp);
    let ps = parts_of(sh);
    lemma_sp_parts(sp);
    assert(bs.subrange(0, bs.len() as int) =~= bs);
    lemma_parts(bs, 0, ps);
    let l = parts_of(sh.subrange(5, 7));
    assert(l[0] == ps[5]);
    assert(l[1] == ps[6]);
    assert(part_end(e4, l, 0) == e4);
    assert(part_end(0, ps, 6) == e4 + ps[5].len());
    assert(part_end(0, ps, 7) == e4 + ps[5].len() + ps[6].len());
}

/// The ends of the first parts do not depend on the parts after them.
proof fn lemma_part_end_prefix(pos: int, ps: Seq<Seq<u8>>, n: nat, k: nat)
    requires
        k <= n <= ps.len(),
    ensures
        part_end(pos, ps.subrange(0, n as int), k) == part_end(pos, ps, k),
    decreases k,
{
    if k > 0 {
        lemma_part_end_prefix(pos, ps, n, (k - 1) as nat);
        assert(ps.subrange(0, n as int)[k - 1] == ps[k - 1]);
    }
}

} // verus!
