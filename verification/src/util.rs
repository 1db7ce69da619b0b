use crate::error::ConsensusError;
use crate::rlp_codec::rlp_vote;
use crate::types::{
    Address, Node, NodeView, Proof, ProofView, Vote, VoteType, VoteView, addresses_view, node_addresses,
    nodes_view,
};
use vstd::prelude::*;

verus! {

/// The eight big-endian bytes of `x`.
pub open spec fn be_u64(x: u64) -> Seq<u8> {
    seq![
        (x >> 56u64) as u8,
        (x >> 48u64) as u8,
        (x >> 40u64) as u8,
        (x >> 32u64) as u8,
        (x >> 24u64) as u8,
        (x >> 16u64) as u8,
        (x >> 8u64) as u8,
        x as u8,
    ]
}

/// The number whose big-endian bytes are the first eight of `s`.
pub open spec fn u64_from_be(s: Seq<u8>) -> u64
    recommends
        s.len() >= 8,
{
    ((s[0] as u64) << 56u64) | ((s[1] as u64) << 48u64) | ((s[2] as u64) << 40u64) | ((
    s[3] as u64) << 32u64) | ((s[4] as u64) << 24u64) | ((s[5] as u64) << 16u64) | ((
    s[6] as u64) << 8u64) | (s[7] as u64)
}

/// Length-prefixed concatenation: the length of `first` as eight big-endian
/// bytes, then `first`, then `second`.
pub open spec fn spec_combine(first: Seq<u8>, second: Seq<u8>) -> Seq<u8> {
    be_u64(first.len() as u64) + first + second
}

/// A block frame: the height as eight big-endian bytes, then the block hash
/// and the block combined.
pub open spec fn spec_encode_block(height: u64, block: Seq<u8>, block_hash: Seq<u8>) -> Seq<u8> {
    be_u64(height) + spec_combine(block_hash, block)
}

/// The length that the first eight bytes of a combined frame announce.
pub open spec fn announced_len(encode: Seq<u8>) -> int {
    u64_from_be(encode.subrange(0, 8)) as int
}

/// Whether `encode` holds a complete combined frame.
pub open spec fn extract_ok(encode: Seq<u8>) -> bool {
    encode.len() >= 8 && encode.len() - 8 >= announced_len(encode)
}

/// The two parts of a complete combined frame.
pub open spec fn spec_extract(encode: Seq<u8>) -> (Seq<u8>, Seq<u8>) {
    let n = announced_len(encode);
    (encode.subrange(8, 8 + n), encode.subrange(8 + n, encode.len() as int))
}

/// Reading back eight big-endian bytes gives the number.
pub proof fn lemma_u64_be_roundtrip(x: u64)
    ensures
        u64_from_be(be_u64(x)) == x,
        be_u64(x).len() == 8,
{
    let b0 = (x >> 56u64) as u8;
    let b1 = (x >> 48u64) as u8;
    let b2 = (x >> 40u64) as u8;
    let b3 = (x >> 32u64) as u8;
    let b4 = (x >> 24u64) as u8;
    let b5 = (x >> 16u64) as u8;
    let b6 = (x >> 8u64) as u8;
    let b7 = x as u8;
    assert(((b0 as u64) << 56u64) | ((b1 as u64) << 48u64) | ((b2 as u64) << 40u64) | ((
    b3 as u64) << 32u64) | ((b4 as u64) << 24u64) | ((b5 as u64) << 16u64) | ((b6 as u64)
        << 8u64) | (b7 as u64) == x) by (bit_vector)
        requires
            b0 == (x >> 56u64) as u8,
            b1 == (x >> 48u64) as u8,
            b2 == (x >> 40u64) as u8,
            b3 == (x >> 32u64) as u8,
            b4 == (x >> 24u64) as u8,
            b5 == (x >> 16u64) as u8,
            b6 == (x >> 8u64) as u8,
            b7 == x as u8,
    ;
}

fn u64_to_be(x: u64) -> (res: Vec<u8>)
    ensures
        res@ == be_u64(x),
{
    let mut res: Vec<u8> = Vec::with_capacity(8);
    res.push((x >> 56u64) as u8);
    res.push((x >> 48u64) as u8);
    res.push((x >> 40u64) as u8);
    res.push((x >> 32u64) as u8);
    res.push((x >> 24u64) as u8);
    res.push((x >> 16u64) as u8);
    res.push((x >> 8u64) as u8);
    res.push(x as u8);
    assert(res@ =~= be_u64(x));
    res
}

fn u64_of_be(s: &[u8]) -> (res: u64)
    requires
        s@.len() >= 8,
    ensures
        res == u64_from_be(s@),
{
    ((s[0] as u64) << 56u64) | ((s[1] as u64) << 48u64) | ((s[2] as u64) << 40u64) | ((
    s[3] as u64) << 32u64) | ((s[4] as u64) << 24u64) | ((s[5] as u64) << 16u64) | ((
    s[6] as u64) << 8u64) | (s[7] as u64)
}

pub(crate) fn append_bytes(dst: &mut Vec<u8>, src: &[u8])
    ensures
        final(dst)@ == old(dst)@ + src@,
{
    let mut i: usize = 0;
    while i < src.len()
        invariant
            i <= src@.len(),
            dst@ == old(dst)@ + src@.subrange(0, i as int),
        decreases src@.len() - i,
    {
        dst.push(src[i]);
        i = i + 1;
        assert(dst@ =~= old(dst)@ + src@.subrange(0, i as int));
    }
    assert(src@.subrange(0, src@.len() as int) =~= src@);
}

/// Frames two byte strings into one: the length of `first` as eight
/// big-endian bytes, then `first`, then `second`.
pub fn combine(first: &[u8], second: &[u8]) -> (encode: Vec<u8>)
    ensures
        encode@ == spec_combine(first@, second@),
{
    let first_len = first.len() as u64;
    let mut encode = u64_to_be(first_len);
    append_bytes(&mut encode, first);
    append_bytes(&mut encode, second);
    encode
}

/// Frames a block: the height as eight big-endian bytes, then the block hash
/// and the block combined.
pub fn encode_block(height: u64, block: &[u8], block_hash: &[u8]) -> (encode: Vec<u8>)
    ensures
        encode@ == spec_encode_block(height, block@, block_hash@),
{
    let mut encode = u64_to_be(height);
    let combined = combine(block_hash, block);
    append_bytes(&mut encode, combined.as_slice());
    assert(encode@ =~= spec_encode_block(height, block@, block_hash@));
    encode
}

/// Splits a combined frame into its two parts. Fails with `DecodeErr` when the
/// frame is shorter than its eight length bytes, or than the length they
/// announce.
pub fn extract(encode: &[u8]) -> (res: Result<(&[u8], &[u8]), ConsensusError>)
    ensures
        extract_ok(encode@) ==> (res matches Ok((one, two)) && (one@, two@) == spec_extract(
            encode@,
        )),
        !extract_ok(encode@) ==> res == Err::<(&[u8], &[u8]), ConsensusError>(
            ConsensusError::DecodeErr,
        ),
{
    let encode_len = encode.len();
    if encode_len < 8 {
        return Err(ConsensusError::DecodeErr);
    }
    let first_len = u64_of_be(encode);
    assert(encode@.subrange(0, 8) =~= seq![
        encode@[0],
        encode@[1],
        encode@[2],
        encode@[3],
        encode@[4],
        encode@[5],
        encode@[6],
        encode@[7],
    ]);
    assert(first_len == announced_len(encode@));
    if ((encode_len - 8) as u64) < first_len {
        return Err(ConsensusError::DecodeErr);
    }
    let cut = first_len as usize + 8;
    let (combined, two) = encode.split_at(cut);
    let (_, one) = combined.split_at(8);
    assert(one@ =~= spec_extract(encode@).0);
    assert(two@ =~= spec_extract(encode@).1);
    Ok((one, two))
}

/// Reads a block frame back into its height, block and block hash. Fails
/// with `DecodeErr` when the combined part is not a complete frame.
pub fn decode_block(encode: &[u8]) -> (res: Result<(u64, Vec<u8>, Vec<u8>), ConsensusError>)
    requires
        encode@.len() >= 8,
    ensures
        ({
            let rest = encode@.subrange(8, encode@.len() as int);
            &&& extract_ok(rest) ==> (res matches Ok((height, block, block_hash)) && height
                == u64_from_be(encode@) && block@ == spec_extract(rest).1 && block_hash@
                == spec_extract(rest).0)
            &&& !extract_ok(rest) ==> res == Err::<(u64, Vec<u8>, Vec<u8>), ConsensusError>(
                ConsensusError::DecodeErr,
            )
        }),
{
    let (h, combined) = encode.split_at(8);
    let (block_hash, block) = extract(combined)?;
    let height = u64_of_be(h);
    let mut block_vec: Vec<u8> = Vec::new();
    append_bytes(&mut block_vec, block);
    let mut hash_vec: Vec<u8> = Vec::new();
    append_bytes(&mut hash_vec, block_hash);
    assert(block_vec@ =~= block@);
    assert(hash_vec@ =~= block_hash@);
    Ok((height, block_vec, hash_vec))
}

/// Splits the frame of a signed proposal with its block into the encoded
/// signed proposal, the height of the block frame, the encoded block and the
/// block hash: `DecodeErr` when the outer frame or the combined part of the
/// block frame is incomplete.
pub fn decode_signed_proposal_frame(encode: &[u8]) -> (res: Result<
    (Vec<u8>, u64, Vec<u8>, Vec<u8>),
    ConsensusError,
>)
    requires
        extract_ok(encode@) ==> spec_extract(encode@).1.len() >= 8,
    ensures
        !extract_ok(encode@) ==> res == Err::<(Vec<u8>, u64, Vec<u8>, Vec<u8>), ConsensusError>(
            ConsensusError::DecodeErr,
        ),
        extract_ok(encode@) ==> ({
            let (sp, frame) = spec_extract(encode@);
            let rest = frame.subrange(8, frame.len() as int);
            &&& extract_ok(rest) ==> (res matches Ok((sp2, h, block, hash)) && sp2@ == sp && h
                == u64_from_be(frame) && block@ == spec_extract(rest).1 && hash@
                == spec_extract(rest).0)
            &&& !extract_ok(rest) ==> res == Err::<
                (Vec<u8>, u64, Vec<u8>, Vec<u8>),
                ConsensusError,
            >(ConsensusError::DecodeErr)
        }),
{
    let (sp, block) = extract(encode)?;
    let (height, b, hash) = decode_block(block)?;
    let mut sp_vec: Vec<u8> = Vec::new();
    append_bytes(&mut sp_vec, sp);
    assert(sp_vec@ =~= sp@);
    Ok((sp_vec, height, b, hash))
}

/// What `combine` frames, `extract` gives back.
pub proof fn lemma_extract_combine(first: Seq<u8>, second: Seq<u8>)
    requires
        first.len() <= u64::MAX,
    ensures
        extract_ok(spec_combine(first, second)),
        spec_extract(spec_combine(first, second)) == (first, second),
{
    let e = spec_combine(first, second);
    lemma_u64_be_roundtrip(first.len() as u64);
    assert(e.subrange(0, 8) =~= be_u64(first.len() as u64));
    assert(e.subrange(8, 8 + first.len() as int) =~= first);
    assert(e.subrange(8 + first.len() as int, e.len() as int) =~= second);
}

/// What `encode_block` frames, `decode_block` gives back: the height, the
/// block and the block hash.
pub proof fn lemma_decode_encode_block(height: u64, block: Seq<u8>, block_hash: Seq<u8>)
    requires
        block_hash.len() <= u64::MAX,
    ensures
        ({
            let e = spec_encode_block(height, block, block_hash);
            let rest = e.subrange(8, e.len() as int);
            &&& e.len() >= 8
            &&& u64_from_be(e) == height
            &&& extract_ok(rest)
            &&& spec_extract(rest) == (block_hash, block)
        }),
{
    let e = spec_encode_block(height, block, block_hash);
    lemma_u64_be_roundtrip(height);
    assert(e.subrange(8, e.len() as int) =~= spec_combine(block_hash, block));
    lemma_extract_combine(block_hash, block);
    let b = be_u64(height);
    assert(e[0] == b[0] && e[1] == b[1] && e[2] == b[2] && e[3] == b[3] && e[4] == b[4] && e[5]
        == b[5] && e[6] == b[6] && e[7] == b[7]);
}

/// Whether two byte strings are equal.
pub fn bytes_eq(a: &[u8], b: &[u8]) -> (res: bool)
    ensures
        res == (a@ == b@),
{
    if a.len() != b.len() {
        return false;
    }
    let mut i: usize = 0;
    while i < a.len()
        invariant
            a@.len() == b@.len(),
            i <= a@.len(),
            forall|k: int| 0 <= k < i ==> a@[k] == b@[k],
        decreases a@.len() - i,
    {
        if a[i] != b[i] {
            return false;
        }
        i = i + 1;
    }
    assert(a@ =~= b@);
    true
}

/// Whether `addr` is one of `list`.
pub fn contains_address(list: &[Address], addr: &[u8]) -> (res: bool)
    ensures
        res == addresses_view(list@).contains(addr@),
{
    let mut i: usize = 0;
    while i < list.len()
        invariant
            i <= list@.len(),
            forall|k: int| 0 <= k < i ==> list@[k]@ != addr@,
        decreases list@.len() - i,
    {
        if bytes_eq(list[i].as_slice(), addr) {
            assert(addresses_view(list@)[i as int] == addr@);
            return true;
        }
        i = i + 1;
    }
    assert(!addresses_view(list@).contains(addr@)) by {
        if addresses_view(list@).contains(addr@) {
            let k = choose|k: int| 0 <= k < list@.len() && addresses_view(list@)[k] == addr@;
            assert(list@[k]@ == addr@);
        }
    }
    false
}

/// The addresses of a list of nodes, in order.
pub fn into_addr_set(node_set: &[Node]) -> (set: Vec<Address>)
    ensures
        addresses_view(set@) == node_addresses(nodes_view(node_set@)),
{
    let mut set: Vec<Address> = Vec::with_capacity(node_set.len());
    let mut i: usize = 0;
    while i < node_set.len()
        invariant
            i <= node_set@.len(),
            set@.len() == i,
            forall|k: int| 0 <= k < i ==> #[trigger] set@[k]@ == node_set@[k].address@,
        decreases node_set@.len() - i,
    {
        set.push(crate::types::copy_bytes(&node_set[i].address));
        i = i + 1;
    }
    assert(addresses_view(set@) =~= node_addresses(nodes_view(node_set@)));
    set
}

/// The sum of the vote weights of the nodes.
pub open spec fn total_weight(nodes: Seq<NodeView>) -> nat
    decreases nodes.len(),
{
    if nodes.len() == 0 {
        0
    } else {
        total_weight(nodes.drop_last()) + nodes.last().vote_weight as nat
    }
}

/// The sum of the vote weights of the nodes whose address is among `addrs`.
pub open spec fn votes_weight(nodes: Seq<NodeView>, addrs: Seq<Seq<u8>>) -> nat
    decreases nodes.len(),
{
    if nodes.len() == 0 {
        0
    } else {
        votes_weight(nodes.drop_last(), addrs) + if addrs.contains(nodes.last().address) {
            nodes.last().vote_weight as nat
        } else {
            0
        }
    }
}

/// The total weight of a prefix is at most that of the whole list.
pub proof fn lemma_total_weight_prefix(nodes: Seq<NodeView>, i: int)
    requires
        0 <= i <= nodes.len(),
    ensures
        total_weight(nodes.subrange(0, i)) <= total_weight(nodes),
    decreases nodes.len() - i,
{
    if i < nodes.len() {
        lemma_total_weight_prefix(nodes, i + 1);
        assert(nodes.subrange(0, i + 1).drop_last() =~= nodes.subrange(0, i));
    } else {
        assert(nodes.subrange(0, i) =~= nodes);
    }
}

/// The weight of any set of voters is at most the total weight.
pub proof fn lemma_votes_weight_le_total(nodes: Seq<NodeView>, addrs: Seq<Seq<u8>>)
    ensures
        votes_weight(nodes, addrs) <= total_weight(nodes),
    decreases nodes.len(),
{
    if nodes.len() > 0 {
        lemma_votes_weight_le_total(nodes.drop_last(), addrs);
    }
}

/// When every authority votes, the votes weigh the total weight.
pub proof fn lemma_votes_weight_all(nodes: Seq<NodeView>, addrs: Seq<Seq<u8>>)
    requires
        forall|i: int| 0 <= i < nodes.len() ==> addrs.contains(#[trigger] nodes[i].address),
    ensures
        votes_weight(nodes, addrs) == total_weight(nodes),
    decreases nodes.len(),
{
    if nodes.len() > 0 {
        let d = nodes.drop_last();
        assert forall|i: int| 0 <= i < d.len() implies addrs.contains(#[trigger] d[i].address) by {
            assert(d[i] == nodes[i]);
        }
        lemma_votes_weight_all(d, addrs);
        assert(addrs.contains(nodes[nodes.len() - 1].address));
    }
}

/// When nobody votes, the votes weigh nothing.
pub proof fn lemma_votes_weight_none(nodes: Seq<NodeView>)
    ensures
        votes_weight(nodes, Seq::empty()) == 0,
    decreases nodes.len(),
{
    if nodes.len() > 0 {
        lemma_votes_weight_none(nodes.drop_last());
    }
}

/// The sum of the vote weights of the authorities.
pub fn get_total_weight(authorities: &[Node]) -> (weight: u64)
    requires
        total_weight(nodes_view(authorities@)) <= u64::MAX,
    ensures
        weight == total_weight(nodes_view(authorities@)),
{
    let ghost all = nodes_view(authorities@);
    let mut weight: u64 = 0;
    let mut i: usize = 0;
    while i < authorities.len()
        invariant
            i <= authorities@.len(),
            all == nodes_view(authorities@),
            all.len() == authorities@.len(),
            total_weight(all) <= u64::MAX,
            weight == total_weight(all.subrange(0, i as int)),
        decreases authorities@.len() - i,
    {
        proof {
            lemma_total_weight_prefix(all, i + 1);
            assert(all.subrange(0, i + 1).drop_last() =~= all.subrange(0, i as int));
        }
        weight = weight + authorities[i].vote_weight as u64;
        i = i + 1;
    }
    assert(all.subrange(0, all.len() as int) =~= all);
    weight
}

/// The sum of the vote weights of the authorities whose address is among
/// `vote_addresses`.
pub fn get_votes_weight(authorities: &[Node], vote_addresses: &[Address]) -> (weight: u64)
    requires
        total_weight(nodes_view(authorities@)) <= u64::MAX,
    ensures
        weight == votes_weight(nodes_view(authorities@), addresses_view(vote_addresses@)),
{
    let ghost all = nodes_view(authorities@);
    let ghost addrs = addresses_view(vote_addresses@);
    let mut weight: u64 = 0;
    let mut i: usize = 0;
    while i < authorities.len()
        invariant
            i <= authorities@.len(),
            all == nodes_view(authorities@),
            addrs == addresses_view(vote_addresses@),
            all.len() == authorities@.len(),
            total_weight(all) <= u64::MAX,
            weight == votes_weight(all.subrange(0, i as int), addrs),
        decreases authorities@.len() - i,
    {
        proof {
            lemma_total_weight_prefix(all, i + 1);
            lemma_votes_weight_le_total(all.subrange(0, i + 1), addrs);
            assert(all.subrange(0, i + 1).drop_last() =~= all.subrange(0, i as int));
        }
        if contains_address(vote_addresses, authorities[i].address.as_slice()) {
            weight = weight + authorities[i].vote_weight as u64;
        }
        i = i + 1;
    }
    assert(all.subrange(0, all.len() as int) =~= all);
    weight
}

/// The precommit vote that a proof's signature by `sender` covers.
pub open spec fn proof_vote(proof: ProofView, sender: Seq<u8>) -> VoteView {
    VoteView {
        vote_type: VoteType::Precommit,
        height: proof.height,
        round: proof.round,
        proposal: proof.block_hash,
        voter: sender,
    }
}

/// The checks of a proof that need no signature: it is for the block below
/// `height`, its voters weigh more than two thirds of the authority, and
/// each of them is an authority.
pub open spec fn proof_frame_ok(proof: ProofView, height: u64, authority: Seq<NodeView>) -> bool {
    let voters = crate::types::proof_voters(proof);
    &&& height == proof.height + 1
    &&& votes_weight(authority, voters) * 3 > total_weight(authority) * 2
    &&& forall|i: int|
        0 <= i < voters.len() ==> node_addresses(authority).contains(#[trigger] voters[i])
}

/// Hashing `msg` with `crypt_hash` and recovering the signer of `sig` with
/// `verify_signature` can give a result whose agreement with `sender` is
/// `good`.
pub open spec fn recovery_outcome<H: Fn(&[u8]) -> Vec<u8>, V: Fn(&[u8], &[u8]) -> Option<Address>>(
    crypt_hash: H,
    verify_signature: V,
    msg: Seq<u8>,
    sig: Seq<u8>,
    sender: Seq<u8>,
    good: bool,
) -> bool {
    exists|m: &[u8], h: Vec<u8>, s: &[u8], hh: &[u8], r: Option<Address>|
        #![trigger call_ensures(crypt_hash, (m,), h), call_ensures(verify_signature, (s, hh), r)]
        m@ == msg && call_ensures(crypt_hash, (m,), h) && s@ == sig && hh@ == h@
            && call_ensures(verify_signature, (s, hh), r) && good == (r matches Some(a) && a@
            == sender)
}

/// Checks a proof of the block below `height` against the authority of
/// that block: height 0 needs no proof; otherwise the proof must be of the
/// height below, its voters must weigh more than two thirds of the
/// authority, each voter must be an authority, and each signature must
/// recover its voter from the hash of the precommit vote it covers.
pub fn check_proof(
    proof: &Proof,
    height: u64,
    authority: &[Node],
    crypt_hash: impl Fn(&[u8]) -> Vec<u8>,
    verify_signature: impl Fn(&[u8], &[u8]) -> Option<Address>,
) -> (res: bool)
    requires
        forall|m: &[u8]| call_requires(crypt_hash, (m,)),
        forall|s: &[u8], h: &[u8]| call_requires(verify_signature, (s, h)),
        height != 0 && height == proof.height + 1 ==> total_weight(nodes_view(authority@)) * 3
            <= u64::MAX,
    ensures
        res ==> height == 0 || (proof_frame_ok(proof@, height, nodes_view(authority@)) && forall|
            i: int,
        |
            0 <= i < proof@.precommit_votes.len() ==> recovery_outcome(
                crypt_hash,
                verify_signature,
                rlp_vote(proof_vote(proof@, #[trigger] proof@.precommit_votes[i].0)),
                proof@.precommit_votes[i].1,
                proof@.precommit_votes[i].0,
                true,
            )),
        !res ==> height != 0 && (!proof_frame_ok(proof@, height, nodes_view(authority@)) || exists|
            i: int,
        |
            0 <= i < proof@.precommit_votes.len() && recovery_outcome(
                crypt_hash,
                verify_signature,
                rlp_vote(proof_vote(proof@, #[trigger] proof@.precommit_votes[i].0)),
                proof@.precommit_votes[i].1,
                proof@.precommit_votes[i].0,
                false,
            )),
{
    if height == 0 {
        return true;
    }
    if height - 1 != proof.height {
        return false;
    }
    let ghost auth = nodes_view(authority@);
    let ghost pv = proof@;
    let mut vote_addresses: Vec<Address> = Vec::with_capacity(proof.precommit_votes.len());
    let mut i: usize = 0;
    while i < proof.precommit_votes.len()
        invariant
            i <= proof.precommit_votes@.len(),
            pv == proof@,
            vote_addresses@.len() == i,
            forall|k: int| 0 <= k < i ==> #[trigger] vote_addresses@[k]@ == pv.precommit_votes[k].0,
        decreases proof.precommit_votes@.len() - i,
    {
        vote_addresses.push(crate::types::copy_bytes(&proof.precommit_votes[i].0));
        i = i + 1;
    }
    assert(addresses_view(vote_addresses@) =~= crate::types::proof_voters(pv));
    proof {
        lemma_votes_weight_le_total(auth, crate::types::proof_voters(pv));
    }
    if get_votes_weight(authority, vote_addresses.as_slice()) * 3 <= get_total_weight(authority)
        * 2 {
        return false;
    }
    let addr_set = into_addr_set(authority);
    let mut j: usize = 0;
    while j < proof.precommit_votes.len()
        invariant
            j <= proof.precommit_votes@.len(),
            pv == proof@,
            auth == nodes_view(authority@),
            addresses_view(addr_set@) == node_addresses(auth),
            height == proof.height + 1,
            votes_weight(auth, crate::types::proof_voters(pv)) * 3 > total_weight(auth) * 2,
            forall|m: &[u8]| call_requires(crypt_hash, (m,)),
            forall|s: &[u8], h: &[u8]| call_requires(verify_signature, (s, h)),
            forall|k: int|
                0 <= k < j ==> node_addresses(auth).contains(
                    #[trigger] crate::types::proof_voters(pv)[k],
                ),
            forall|k: int|
                0 <= k < j ==> recovery_outcome(
                    crypt_hash,
                    verify_signature,
                    rlp_vote(proof_vote(pv, #[trigger] pv.precommit_votes[k].0)),
                    pv.precommit_votes[k].1,
                    pv.precommit_votes[k].0,
                    true,
                ),
        decreases proof.precommit_votes@.len() - j,
    {
        let sender = &proof.precommit_votes[j].0;
        let sig = &proof.precommit_votes[j].1;
        assert(crate::types::proof_voters(pv)[j as int] == pv.precommit_votes[j as int].0);
        if contains_address(addr_set.as_slice(), sender.as_slice()) {
            let msg = Vote {
                vote_type: VoteType::Precommit,
                height: proof.height,
                round: proof.round,
                proposal: crate::types::copy_bytes(&proof.block_hash),
                voter: crate::types::copy_bytes(sender),
            };
            let bytes = msg.rlp_bytes();
            let hash = crypt_hash(bytes.as_slice());
            let recovered = verify_signature(sig.as_slice(), hash.as_slice());
            let good = match &recovered {
                Some(a) => bytes_eq(a.as_slice(), sender.as_slice()),
                None => false,
            };
            if !good {
                assert(recovery_outcome(
                    crypt_hash,
                    verify_signature,
                    rlp_vote(proof_vote(pv, pv.precommit_votes[j as int].0)),
                    pv.precommit_votes[j as int].1,
                    pv.precommit_votes[j as int].0,
                    false,
                ));
                return false;
            }
            assert(recovery_outcome(
                crypt_hash,
                verify_signature,
                rlp_vote(proof_vote(pv, pv.precommit_votes[j as int].0)),
                pv.precommit_votes[j as int].1,
                pv.precommit_votes[j as int].0,
                true,
            ));
        } else {
            return false;
        }
        j = j + 1;
    }
    true
}

} // verus!
