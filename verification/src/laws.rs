//! Laws of the proof, lock, commit and proposal checks, stated over what
//! the operations take and give.
use crate::collection::vs_get;
use crate::consensus::{
    ConsensusView, built_proposal, commit_post, key_get, keys_distinct, lemma_key_or_insert_distinct,
    lemma_last_index, last_index, lock_check, lock_votes_fold, proof_verifies, proof_votes_fold,
    signed_vote_check, vote_post,
};
use crate::core_types::{BftVoteView, bft_votes_view};
use crate::util::{proof_frame_ok, total_weight, votes_weight};
use crate::core_types::{BftCommit, BftProposalView, BftVote};
use crate::types::proof_voters;
use crate::error::ConsensusError;
use crate::rlp_codec::rlp_vote;
use crate::types::{
    Commit, NodeView, ProofView, SignedProposalView, SignedVote, SignedVoteView, VoteType, VoteView,
    authorities_at, node_addresses,
};
use crate::util::proof_vote;
use crate::{ConsensusSupport, Content};
use vstd::prelude::*;

verus! {

/// Each signature of a proof covers the precommit of its voter for the
/// proof's block at the proof's height and round.
pub proof fn law_proof_signature_covers_precommit(proof: ProofView, voter: Seq<u8>)
    ensures
        proof_vote(proof, voter).vote_type == VoteType::Precommit,
        proof_vote(proof, voter).height == proof.height,
        proof_vote(proof, voter).round == proof.round,
        proof_vote(proof, voter).proposal == proof.block_hash,
        proof_vote(proof, voter).voter == voter,
{
}

/// The checks of a proof that need no signature: a proof passes them
/// exactly when it is of the height below, its voters weigh more than two
/// thirds of the authority's weight, and each voter is an authority. A proof
/// signed by every authority of a positive total weight for the block below
/// passes them; a proof with a voter outside the authority or of another
/// height does not.
pub proof fn law_proof_frame(proof: ProofView, height: u64, authority: Seq<NodeView>)
    ensures
        proof_frame_ok(proof, height, authority) <==> {
            &&& height == proof.height + 1
            &&& votes_weight(authority, proof_voters(proof)) * 3 > total_weight(authority) * 2
            &&& forall|i: int|
                0 <= i < proof.precommit_votes.len() ==> node_addresses(authority).contains(
                    (#[trigger] proof.precommit_votes[i]).0,
                )
        },
        height == proof.height + 1 && total_weight(authority) > 0 && proof_voters(proof)
            =~= node_addresses(authority) ==> proof_frame_ok(proof, height, authority),
        height != proof.height + 1 ==> !proof_frame_ok(proof, height, authority),
        (exists|i: int|
            0 <= i < proof.precommit_votes.len() && !node_addresses(authority).contains(
                (#[trigger] proof.precommit_votes[i]).0,
            )) ==> !proof_frame_ok(proof, height, authority),
{
    let voters = proof_voters(proof);
    assert forall|i: int| 0 <= i < proof.precommit_votes.len() implies voters[i] == (#[trigger] proof.precommit_votes[i]).0 by {}
    if height == proof.height + 1 && total_weight(authority) > 0 && voters =~= node_addresses(authority) {
        assert forall|i: int| 0 <= i < authority.len() implies voters.contains(#[trigger] authority[i].address) by {
            assert(node_addresses(authority)[i] == authority[i].address);
        }
        crate::util::lemma_votes_weight_all(authority, voters);
    }
}

/// What a signature check of a proof entry found: it passed when the
/// signer recovered from the hash of the message is the entry's voter, and
/// failed when nobody or someone else was recovered.
pub proof fn law_recovery_outcome<H: Fn(&[u8]) -> Vec<u8>, V: Fn(&[u8], &[u8]) -> Option<crate::types::Address>>(
    crypt_hash: H,
    verify_signature: V,
    msg: Seq<u8>,
    sig: Seq<u8>,
    sender: Seq<u8>,
    good: bool,
)
    requires
        crate::util::recovery_outcome(crypt_hash, verify_signature, msg, sig, sender, good),
    ensures
        exists|m: &[u8], h: Vec<u8>, s: &[u8], hh: &[u8], r: Option<crate::types::Address>|
            #![trigger call_ensures(crypt_hash, (m,), h), call_ensures(verify_signature, (s, hh), r)]
            {
                &&& m@ == msg
                &&& call_ensures(crypt_hash, (m,), h)
                &&& s@ == sig
                &&& hh@ == h@
                &&& call_ensures(verify_signature, (s, hh), r)
                &&& good == (r is Some && r->Some_0@ == sender)
            },
{
}

/// A precommit that this node signs (see `handle_vote`) is the vote that a
/// proof entry of its voter for the same height, round and block is checked
/// against: the signature it gets is one a proof can carry.
pub proof fn law_signed_precommit_fits_proof<F: Content, T: ConsensusSupport<F>>(
    support: T,
    s: ConsensusView<F>,
    s2: ConsensusView<F>,
    vote: BftVote,
    sv: SignedVote,
    proof: ProofView,
)
    requires
        vote_post(support, s, s2, vote, Ok::<SignedVote, ConsensusError>(sv)),
        vote.vote_type == VoteType::Precommit,
        proof.height == vote.height,
        proof.round == vote.round,
        proof.block_hash == vote.proposal@,
    ensures
        rlp_vote(proof_vote(proof, vote.voter@)) == rlp_vote(sv.vote@),
{
}

/// A proof of the block at height 0 always checks out. A proof of a block
/// at another height checks out exactly when it is of that height, no voter occurs twice, it holds more than two thirds as
/// many signatures as there are authorities, every voter is an authority, and
/// no signature recovers, from the hash of the encoding of its voter's
/// precommit for the proof's block, height and round, an address other than
/// the voter's.
pub proof fn law_proof_verifies<F: Content, T: ConsensusSupport<F>>(
    support: T,
    proof: ProofView,
    h: u64,
    authority: Seq<NodeView>,
)
    ensures
        h == 0 ==> proof_verifies(support, proof, h, authority),
        h != 0 ==> (proof_verifies(support, proof, h, authority) <==> {
            &&& h == proof.height
            &&& forall|i: int, j: int|
                0 <= i < j < proof.precommit_votes.len() ==> #[trigger] proof.precommit_votes[i].0
                    != #[trigger] proof.precommit_votes[j].0
            &&& 2 * authority.len() < 3 * proof.precommit_votes.len()
            &&& forall|i: int|
                0 <= i < proof.precommit_votes.len() ==> node_addresses(authority).contains(
                    (#[trigger] proof.precommit_votes[i]).0,
                )
            &&& forall|i: int|
                0 <= i < proof.precommit_votes.len() ==> match support.recovered(
                    (#[trigger] proof.precommit_votes[i]).1,
                    support.hash_of(
                        rlp_vote(
                            VoteView {
                                vote_type: VoteType::Precommit,
                                height: proof.height,
                                round: proof.round,
                                proposal: proof.block_hash,
                                voter: proof.precommit_votes[i].0,
                            },
                        ),
                    ),
                ) {
                    Some(a) => a == proof.precommit_votes[i].0,
                    None => true,
                }
        }),
{
    let pv = proof.precommit_votes;
    let pc = |v: Seq<u8>|
        VoteView {
            vote_type: VoteType::Precommit,
            height: proof.height,
            round: proof.round,
            proposal: proof.block_hash,
            voter: v,
        };
    assert forall|i: int| 0 <= i < pv.len() implies proof_vote(proof, (#[trigger] pv[i]).0) == pc(
        pv[i].0,
    ) by {}
    if h != 0 && proof_verifies(support, proof, h, authority) {
        assert forall|i: int| 0 <= i < pv.len() implies node_addresses(authority).contains(
            (#[trigger] pv[i]).0,
        ) && match support.recovered(pv[i].1, support.hash_of(rlp_vote(pc(pv[i].0)))) {
            Some(a) => a == pv[i].0,
            None => true,
        } by {
            assert(crate::consensus::proof_vote_ok(support, proof, authority, pv[i]));
        }
    }
    if h == proof.height && forall|i: int|
        0 <= i < pv.len() ==> node_addresses(authority).contains((#[trigger] pv[i]).0) && match support.recovered(
            pv[i].1,
            support.hash_of(rlp_vote(pc(pv[i].0))),
        ) {
            Some(a) => a == pv[i].0,
            None => true,
        } {
        assert forall|i: int| 0 <= i < pv.len() implies #[trigger] crate::consensus::proof_vote_ok(
            support,
            proof,
            authority,
            pv[i],
        ) by {}
    }
}

/// A proof of a height other than 0 that carries a voter outside the
/// authority does not check out.
pub proof fn law_proof_refuses_outsiders<F: Content, T: ConsensusSupport<F>>(
    support: T,
    proof: ProofView,
    h: u64,
    authority: Seq<NodeView>,
    i: int,
)
    requires
        h != 0,
        0 <= i < proof.precommit_votes.len(),
        !node_addresses(authority).contains(proof.precommit_votes[i].0),
    ensures
        !proof_verifies(support, proof, h, authority),
{
    law_proof_verifies(support, proof, h, authority);
}

/// A lock vote of a height not below the one before the current height that
/// is for another block than the proposed one fails with `BlockVerifyDiff`;
/// a lock vote passes only when it is for the proposed block, at such a
/// height, from an authority of default weights of the height, with a
/// signature that recovers its voter from the hash of its encoding, and it
/// then gives that voter.
pub proof fn law_lock_vote_check<F: Content, T: ConsensusSupport<F>>(
    s: ConsensusView<F>,
    support: T,
    height: u64,
    hash: Seq<u8>,
    sv: SignedVoteView,
)
    ensures
        height >= s.height - 1 && sv.vote.proposal != hash ==> signed_vote_check(
            s,
            support,
            height,
            hash,
            sv,
        ) == Err::<Seq<u8>, ConsensusError>(ConsensusError::BlockVerifyDiff),
        signed_vote_check(s, support, height, hash, sv) is Ok ==> {
            &&& signed_vote_check(s, support, height, hash, sv) == Ok::<Seq<u8>, ConsensusError>(
                sv.vote.voter,
            )
            &&& height >= s.height - 1
            &&& sv.vote.proposal == hash
            &&& authorities_at(s.authority, height).contains(
                NodeView { address: sv.vote.voter, proposal_weight: 1, vote_weight: 1 },
            )
            &&& support.recovered(sv.signature, support.hash_of(rlp_vote(sv.vote))) == Some(
                sv.vote.voter,
            )
        },
{
}

/// When the lock votes check out one after another, every one of them is
/// for the proposed block, and the voters given are theirs, each once.
pub proof fn law_lock_votes_for_the_block<F: Content, T: ConsensusSupport<F>>(
    s: ConsensusView<F>,
    support: T,
    height: u64,
    lock_round: u64,
    hash: Seq<u8>,
    votes: Seq<SignedVoteView>,
)
    ensures
        lock_votes_fold(s, support, height, lock_round, hash, votes).1 matches Ok(senders) ==> {
            &&& senders.len() == votes.len()
            &&& forall|i: int| 0 <= i < votes.len() ==> (#[trigger] votes[i]).vote.proposal == hash
            &&& forall|i: int| 0 <= i < votes.len() ==> senders[i] == (#[trigger] votes[i]).vote.voter
            &&& senders.no_duplicates()
            &&& forall|i: int|
                0 <= i < votes.len() ==> support.recovered(
                    (#[trigger] votes[i]).signature,
                    support.hash_of(rlp_vote(votes[i].vote)),
                ) == Some(votes[i].vote.voter)
        },
    decreases votes.len(),
{
    if votes.len() > 0 {
        let init = votes.drop_last();
        law_lock_votes_for_the_block(s, support, height, lock_round, hash, init);
        let (s1, r) = lock_votes_fold(s, support, height, lock_round, hash, init);
        law_lock_vote_check(s1, support, height, hash, votes.last());
        if let Ok(senders) = lock_votes_fold(s, support, height, lock_round, hash, votes).1 {
            let prev = r->Ok_0;
            assert(senders == prev.push(votes.last().vote.voter));
            assert forall|i: int| 0 <= i < votes.len() implies (#[trigger] votes[i]).vote.proposal
                == hash && senders[i] == votes[i].vote.voter && support.recovered(
                votes[i].signature,
                support.hash_of(rlp_vote(votes[i].vote)),
            ) == Some(votes[i].vote.voter) by {
                if i < votes.len() - 1 {
                    assert(init[i] == votes[i]);
                }
            }
        }
    }
}

/// A locked proposal passes the lock check only when every lock vote is for
/// the proposed block with a signature that recovers its voter, no voter
/// locks twice, and the lock voters are more than two thirds of the
/// authorities of its height, all of them authorities; a lock vote for
/// another block fails it.
pub proof fn law_lock_check_needs_the_block<F: Content, T: ConsensusSupport<F>>(
    s: ConsensusView<F>,
    support: T,
    sp: SignedProposalView,
    hash: Seq<u8>,
)
    requires
        sp.proposal.lock_round is Some,
    ensures
        lock_check(s, support, sp, hash).1 is Ok ==> {
            let votes = sp.proposal.lock_votes;
            let auths = authorities_at(s.authority, sp.proposal.height);
            &&& forall|i: int| 0 <= i < votes.len() ==> (#[trigger] votes[i]).vote.proposal == hash
            &&& votes.len() * 3 > auths.len() * 2
            &&& forall|i: int|
                0 <= i < votes.len() ==> node_addresses(auths).contains((#[trigger] votes[i]).vote.voter)
            &&& forall|i: int, j: int|
                0 <= i < j < votes.len() ==> (#[trigger] votes[i]).vote.voter != (#[trigger] votes[j]).vote.voter
            &&& forall|i: int|
                0 <= i < votes.len() ==> support.recovered(
                    (#[trigger] votes[i]).signature,
                    support.hash_of(rlp_vote(votes[i].vote)),
                ) == Some(votes[i].vote.voter)
        },
        (exists|i: int|
            0 <= i < sp.proposal.lock_votes.len() && (#[trigger] sp.proposal.lock_votes[i]).vote.proposal
                != hash) ==> lock_check(s, support, sp, hash).1 is Err,
{
    let lr = sp.proposal.lock_round.unwrap();
    let votes = sp.proposal.lock_votes;
    law_lock_votes_for_the_block(s, support, sp.proposal.height, lr, hash, votes);
    if lock_check(s, support, sp, hash).1 is Ok {
        let senders = lock_votes_fold(s, support, sp.proposal.height, lr, hash, votes).1->Ok_0;
        let auths = authorities_at(s.authority, sp.proposal.height);
        assert forall|i: int| 0 <= i < votes.len() implies node_addresses(auths).contains(
            (#[trigger] votes[i]).vote.voter,
        ) by {
            assert(senders[i] == votes[i].vote.voter);
        }
        assert forall|i: int, j: int| 0 <= i < j < votes.len() implies (#[trigger] votes[i]).vote.voter
            != (#[trigger] votes[j]).vote.voter by {
            assert(senders[i] == votes[i].vote.voter);
            assert(senders[j] == votes[j].vote.voter);
        }
    }
}

/// Whether `voter` has an entry in `pv`.
pub open spec fn has_entry(pv: Seq<(Seq<u8>, Seq<u8>)>, voter: Seq<u8>) -> bool {
    exists|k: int| 0 <= k < pv.len() && #[trigger] pv[k].0 == voter
}

/// Whether each voter of `votes` has an entry in `pv`.
pub open spec fn voters_covered(pv: Seq<(Seq<u8>, Seq<u8>)>, votes: Seq<BftVoteView>) -> bool {
    forall|i: int| 0 <= i < votes.len() ==> has_entry(pv, (#[trigger] votes[i]).voter)
}

/// Whether each entry of `pv` is a voter of `votes` with the signature of
/// the signed vote that `set` holds under that vote.
pub open spec fn entries_sourced(
    set: Seq<(BftVoteView, SignedVoteView)>,
    pv: Seq<(Seq<u8>, Seq<u8>)>,
    votes: Seq<BftVoteView>,
) -> bool {
    forall|k: int|
        0 <= k < pv.len() ==> exists|i: int|
            0 <= i < votes.len() && (#[trigger] votes[i]).voter == (#[trigger] pv[k]).0 && vs_get(
                set,
                votes[i],
            ) is Some && vs_get(set, votes[i])->Some_0.signature == pv[k].1
}

proof fn lemma_covered_step(acc: Seq<(Seq<u8>, Seq<u8>)>, init: Seq<BftVoteView>, last: BftVoteView, sig: Seq<u8>)
    requires
        voters_covered(acc, init),
    ensures
        voters_covered(crate::consensus::key_or_insert(acc, last.voter, sig), init.push(last)),
{
    let pv = crate::consensus::key_or_insert(acc, last.voter, sig);
    let votes = init.push(last);
    lemma_last_index(acc, last.voter);
    assert forall|i: int| 0 <= i < votes.len() implies has_entry(pv, (#[trigger] votes[i]).voter) by {
        if i < init.len() {
            assert(votes[i] == init[i]);
            assert(has_entry(acc, init[i].voter));
            let k = choose|k: int| 0 <= k < acc.len() && #[trigger] acc[k].0 == init[i].voter;
            assert(pv[k] == acc[k]);
        } else if key_get(acc, last.voter) is Some {
            let k = last_index(acc, last.voter);
            assert(pv[k] == acc[k]);
        } else {
            assert(pv[acc.len() as int].0 == last.voter);
        }
    }
    assert(voters_covered(pv, votes));
}

proof fn lemma_sourced_step(
    set: Seq<(BftVoteView, SignedVoteView)>,
    acc: Seq<(Seq<u8>, Seq<u8>)>,
    init: Seq<BftVoteView>,
    last: BftVoteView,
    sv: SignedVoteView,
)
    requires
        entries_sourced(set, acc, init),
        vs_get(set, last) == Some(sv),
    ensures
        entries_sourced(set, crate::consensus::key_or_insert(acc, last.voter, sv.signature), init.push(last)),
{
    let pv = crate::consensus::key_or_insert(acc, last.voter, sv.signature);
    let votes = init.push(last);
    assert forall|k: int| 0 <= k < pv.len() implies exists|i: int|
        0 <= i < votes.len() && (#[trigger] votes[i]).voter == (#[trigger] pv[k]).0 && vs_get(
            set,
            votes[i],
        ) is Some && vs_get(set, votes[i])->Some_0.signature == pv[k].1 by {
        if k < acc.len() {
            assert(pv[k] == acc[k]);
            let i = choose|i: int|
                0 <= i < init.len() && (#[trigger] init[i]).voter == (#[trigger] acc[k]).0 && vs_get(
                    set,
                    init[i],
                ) is Some && vs_get(set, init[i])->Some_0.signature == acc[k].1;
            assert(votes[i] == init[i]);
        } else {
            assert(votes[init.len() as int] == last);
        }
    }
}

/// The signatures a proof is built from: when every vote of the BFT core is
/// found in the vote set, each voter of those votes occurs in the proof
/// once, and each entry of the proof is a voter of one of those votes with
/// the signature of the signed vote found under it; when one is missing,
/// there is no proof.
pub proof fn law_proof_votes_from_set(set: Seq<(BftVoteView, SignedVoteView)>, votes: Seq<BftVoteView>)
    ensures
        proof_votes_fold(set, votes) is None <==> exists|i: int|
            0 <= i < votes.len() && vs_get(set, #[trigger] votes[i]) is None,
        proof_votes_fold(set, votes) matches Some(pv) ==> {
            &&& keys_distinct(pv)
            &&& voters_covered(pv, votes)
            &&& entries_sourced(set, pv, votes)
        },
    decreases votes.len(),
{
    if votes.len() > 0 {
        let init = votes.drop_last();
        let last = votes.last();
        law_proof_votes_from_set(set, init);
        assert(votes =~= init.push(last));
        if let Some(acc) = proof_votes_fold(set, init) {
            if let Some(sv) = vs_get(set, last) {
                lemma_key_or_insert_distinct(acc, last.voter, sv.signature);
                lemma_covered_step(acc, init, last, sv.signature);
                lemma_sourced_step(set, acc, init, last, sv);
                assert forall|i: int| 0 <= i < votes.len() implies vs_get(set, #[trigger] votes[i]) is Some by {
                    if i < init.len() {
                        assert(votes[i] == init[i]);
                    }
                }
            } else {
                assert(vs_get(set, votes[votes.len() - 1]) is None);
            }
        } else {
            let i = choose|i: int| 0 <= i < init.len() && vs_get(set, #[trigger] init[i]) is None;
            assert(votes[i] == init[i]);
        }
    }
}

/// A commit made of a BFT commit carries the BFT commit's height, and a
/// proof of the committed block at the commit's height and round, which is
/// also kept.
pub proof fn law_commit_proof<F: Content>(
    s: ConsensusView<F>,
    s2: ConsensusView<F>,
    commit: BftCommit,
    c: Commit<F>,
)
    requires
        commit_post(s, s2, commit, Ok::<Commit<F>, ConsensusError>(c)),
    ensures
        c.height == commit.height,
        c.proof@.height == commit.height,
        c.proof@.round == commit.round,
        c.proof@.block_hash == commit.proposal@,
        s2.proof == Some(c.proof@),
        c.address@ == commit.address@,
        ({
            let set = crate::collection::vc_get_vote_set(
                s.votes,
                commit.height,
                commit.round,
                VoteType::Precommit,
            ).1;
            let lv = bft_votes_view(commit.lock_votes@);
            let pv = c.proof@.precommit_votes;
            &&& set is Some
            &&& keys_distinct(pv)
            &&& voters_covered(pv, lv)
            &&& entries_sourced(set->Some_0, pv, lv)
        }),
{
    let set = crate::collection::vc_get_vote_set(s.votes, commit.height, commit.round, VoteType::Precommit).1;
    law_proof_votes_from_set(set->Some_0, bft_votes_view(commit.lock_votes@));
}

/// A proposal this node signs carries, above height 1, the proof it keeps,
/// and at height 1 the empty proof of its own block at height 0; the rest
/// is the BFT core's proposal with the lock votes found.
pub proof fn law_built_proposal<F>(s: ConsensusView<F>, p: BftProposalView, lv: Seq<SignedVoteView>)
    ensures
        s.height != 1 && s.proof is Some ==> built_proposal(s, p, lv).proof == s.proof.unwrap(),
        s.height == 1 ==> built_proposal(s, p, lv).proof == (ProofView {
            block_hash: p.content,
            height: 0,
            round: 0,
            precommit_votes: Seq::empty(),
        }),
        built_proposal(s, p, lv).height == p.height,
        built_proposal(s, p, lv).round == p.round,
        built_proposal(s, p, lv).content == p.content,
        built_proposal(s, p, lv).lock_round == p.lock_round,
        built_proposal(s, p, lv).lock_votes == lv,
        built_proposal(s, p, lv).proposer == p.proposer,
{
}

} // verus!
