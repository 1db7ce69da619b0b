use crate::collection::CACHE_NUMBER;
use crate::consensus::{
    Action, ActionView, Consensus, ConsensusView, Result, actions_view, after_signed_vote, answers_all, cache_push,
    commit_post, frame_has_height, key_or_insert, lemma_key_or_insert_distinct, proposal_frame_parts, proposal_is_signed,
    proposal_post, proposal_signed, service_inv, lemma_cache_push_fits, signed_proposal_actions, signed_proposal_step,
    signed_vote_verdict, spec_goto_new_height, vote_is_signed, vote_post, vote_signer,
};
use crate::core_types::{BftCommit, BftProposal, BftVote, CoreInput};
use crate::error::ConsensusError;
use crate::types::{
    AsyncMsg, ConsensusOutput, Feed, SignedProposalView, SignedVote, Status, VerifyResp, copy_bytes,
    node_addresses, nodes_view, spec_update_authority, vote_to_bft,
};
use crate::{ConsensusSupport, Content};
use vstd::prelude::*;

verus! {

/// The tag of a logged signed proposal frame.
pub const LOG_TYPE_SIGNED_PROPOSAL: u8 = 1;

/// The tag of a logged signed vote from another node.
pub const LOG_TYPE_RAW_BYTES: u8 = 2;

/// The tag of a logged rich status.
pub const LOG_TYPE_RICH_STATUS: u8 = 3;

/// The tag of a logged block of a height.
pub const LOG_TYPE_BLOCK_TXS: u8 = 4;

/// The tag of a logged outcome of a block check.
pub const LOG_TYPE_VERIFY_BLOCK_PESP: u8 = 5;

/// The tag of a logged proposal of the BFT core.
pub const LOG_TYPE_PROPOSAL: u8 = 6;

/// The tag of a logged vote of the BFT core.
pub const LOG_TYPE_VOTE: u8 = 7;

/// The tag of a logged commit of the BFT core.
pub const LOG_TYPE_COMMIT: u8 = 8;

/// An entry of the write-ahead log: a message that the service took, by
/// kind.
#[derive(Clone, Debug)]
pub enum WalEntry<F> {
    /// The frame of a signed proposal with its block.
    SignedProposal(Vec<u8>),
    /// A signed vote from another node.
    SignedVote(SignedVote),
    /// A rich status.
    RichStatus(Status),
    /// The block of a height.
    BlockTxs(Feed<F>),
    /// The outcome of a block check.
    VerifyResp(VerifyResp),
    /// A proposal of the BFT core.
    Proposal(BftProposal),
    /// A vote of the BFT core.
    Vote(BftVote),
    /// A commit of the BFT core.
    Commit(BftCommit),
}

/// The tag under which an entry is logged.
pub open spec fn log_type_of<F>(e: WalEntry<F>) -> u8 {
    match e {
        WalEntry::SignedProposal(_) => LOG_TYPE_SIGNED_PROPOSAL,
        WalEntry::SignedVote(_) => LOG_TYPE_RAW_BYTES,
        WalEntry::RichStatus(_) => LOG_TYPE_RICH_STATUS,
        WalEntry::BlockTxs(_) => LOG_TYPE_BLOCK_TXS,
        WalEntry::VerifyResp(_) => LOG_TYPE_VERIFY_BLOCK_PESP,
        WalEntry::Proposal(_) => LOG_TYPE_PROPOSAL,
        WalEntry::Vote(_) => LOG_TYPE_VOTE,
        WalEntry::Commit(_) => LOG_TYPE_COMMIT,
    }
}

impl<F> WalEntry<F> {
    /// The tag under which the entry is logged.
    pub fn log_type(&self) -> (res: u8)
        ensures
            res == log_type_of(*self),
    {
        match self {
            WalEntry::SignedProposal(_) => LOG_TYPE_SIGNED_PROPOSAL,
            WalEntry::SignedVote(_) => LOG_TYPE_RAW_BYTES,
            WalEntry::RichStatus(_) => LOG_TYPE_RICH_STATUS,
            WalEntry::BlockTxs(_) => LOG_TYPE_BLOCK_TXS,
            WalEntry::VerifyResp(_) => LOG_TYPE_VERIFY_BLOCK_PESP,
            WalEntry::Proposal(_) => LOG_TYPE_PROPOSAL,
            WalEntry::Vote(_) => LOG_TYPE_VOTE,
            WalEntry::Commit(_) => LOG_TYPE_COMMIT,
        }
    }
}

/// Whether a logged signed proposal can be replayed at `height`: its height
/// and round add up within a `u64`, and a height of 0 only when its
/// signature does not recover its proposer. (Replaying any other one
/// overflows or fails.)
pub open spec fn replayable<F: Content, T: ConsensusSupport<F>>(
    support: T,
    height: u64,
    sp: SignedProposalView,
) -> bool {
    &&& sp.proposal.height + sp.proposal.round <= u64::MAX
    &&& proposal_signed(support, sp) ==> height >= 1
}

/// What replaying a logged signed proposal frame `b` leaves and gives.
/// `None`, with nothing changed, when the frame does not read, its block
/// bytes are no block's encoding, or the proposal cannot be replayed (see
/// `replayable`). Otherwise the block is kept, the proposal is cached when
/// its height is in the near future, and it is handled (see
/// `signed_proposal_step`): `Some(Ok(()))` when that succeeds, `None` when
/// it fails.
pub open spec fn replay_proposal_post<F: Content, T: ConsensusSupport<F>>(
    s: ConsensusView<F>,
    s2: ConsensusView<F>,
    support: T,
    b: Seq<u8>,
    res: Option<Result<()>>,
    out: Seq<Action<F>>,
    out2: Seq<Action<F>>,
) -> bool {
    let unchanged = res is None && s2 == s && out2 == out;
    if !frame_has_height(b) {
        unchanged
    } else {
        match proposal_frame_parts(b) {
            None => unchanged,
            Some((sp, blk, hash)) => if !replayable(support, s.height, sp) {
                unchanged
            } else {
                (unchanged && forall|v: F| !F::decodes_to(blk, v)) || exists|block: F, kept: F|
                    #![trigger cloned(block, kept)]
                    F::decodes_to(blk, block) && cloned(block, kept) && {
                        let h = sp.proposal.height;
                        let s1 = ConsensusView {
                            block_origin_cache: key_or_insert(s.block_origin_cache, hash, kept),
                            ..s
                        };
                        let s1c = if h > s.height && h - s.height < CACHE_NUMBER {
                            ConsensusView {
                                proposal_cache: cache_push(s1.proposal_cache, h, (sp, block, b)),
                                ..s1
                            }
                        } else {
                            s1
                        };
                        let (s3, r, pushed) = signed_proposal_step(s1c, support, sp);
                        &&& s2 == s3
                        &&& res == if r is Ok {
                            Some(Ok::<(), ConsensusError>(()))
                        } else {
                            None::<Result<()>>
                        }
                        &&& answers_all(
                            support,
                            actions_view(out2),
                            actions_view(out) + signed_proposal_actions(s1c, sp, b, pushed, r),
                        )
                    }
            },
        }
    }
}

/// What replaying an entry of the write-ahead log leaves and gives: the
/// entry goes to the handler of its kind, as it did when it was logged, and
/// what the handler gives goes where it went then. `None` marks an entry at
/// which replay stops: a signed proposal that does not replay (see
/// `replay_proposal_post`), a signed vote at height 0 whose signature
/// recovers an address or a rich status of the last height (both overflow),
/// and a proposal, vote or commit of the BFT core whose sending or
/// committing failed. A proposal of the BFT core is sent as the frame that
/// handling it gives, a vote as the encoding of the signed vote, and a
/// commit is the one that handling the commit gives. Otherwise the handler's result is given: a signed vote
/// is received (see `after_signed_vote`); a rich status moves to its height
/// (an older one is `ObsoleteMsg`) and its status goes to the BFT core; a
/// block and a block check are taken as the service takes them from itself;
/// a proposal of the BFT core is signed and framed (see `proposal_post`), a
/// vote signed (see `vote_post`), a commit made (see `commit_post`).
pub open spec fn replay_post<F: Content, T: ConsensusSupport<F>>(
    s: ConsensusView<F>,
    s2: ConsensusView<F>,
    support: T,
    entry: WalEntry<F>,
    res: Option<Result<()>>,
    out: Seq<Action<F>>,
    out2: Seq<Action<F>>,
) -> bool {
    let unchanged = res is None && s2 == s && out2 == out;
    match entry {
        WalEntry::SignedProposal(b) => replay_proposal_post(s, s2, support, b@, res, out, out2),
        WalEntry::SignedVote(sv) => if s.height == 0 && vote_signer(support, sv@) is Some {
            unchanged
        } else {
            &&& s2 == after_signed_vote(s, support, sv@)
            &&& match signed_vote_verdict(s, support, sv@) {
                Some(e) => res == Some(Err::<(), ConsensusError>(e)) && out2 == out,
                None => res == Some(Ok::<(), ConsensusError>(())) && actions_view(out2)
                    == actions_view(out).push(ActionView::Vote(vote_to_bft(sv@.vote))),
            }
        },
        WalEntry::RichStatus(st) => if st.height == u64::MAX {
            unchanged
        } else if st.height < s.height {
            res == Some(Err::<(), ConsensusError>(ConsensusError::ObsoleteMsg)) && s2 == s && out2
                == out
        } else {
            let list = nodes_view(st.authority_list@);
            &&& res == Some(Ok::<(), ConsensusError>(()))
            &&& s2 == spec_goto_new_height(
                ConsensusView { authority: spec_update_authority(s.authority, s.height, list), ..s },
                st.height,
            )
            &&& actions_view(out2) == actions_view(out).push(
                ActionView::Status(st.height, st.interval, node_addresses(list)),
            )
        },
        WalEntry::BlockTxs(f) => res == Some(Ok::<(), ConsensusError>(())) && exists|h: Seq<u8>|
            #![trigger key_or_insert(s.block_origin_cache, h, f.content)]
            {
                &&& f.content.hashes_to(h)
                &&& actions_view(out2) == actions_view(out).push(ActionView::Feed(f.height, h))
                &&& s2 == (ConsensusView {
                    block_origin_cache: key_or_insert(s.block_origin_cache, h, f.content),
                    ..s
                })
            },
        WalEntry::VerifyResp(vr) => {
            &&& res == Some(Ok::<(), ConsensusError>(()))
            &&& actions_view(out2) == actions_view(out).push(
                ActionView::VerifyResp(vr.is_pass, vr.proposal@),
            )
            &&& s2 == (ConsensusView {
                verified_block: key_or_insert(s.verified_block, vr.proposal@, vr.is_pass),
                ..s
            })
        },
        WalEntry::Proposal(p) => exists|r: Result<Vec<u8>>|
            #![trigger proposal_post(support, s, s2, out, out2, p, r)]
            proposal_post(support, s, s2, out, out2, p, r) && match r {
                Err(e) => res == Some(Err::<(), ConsensusError>(e)),
                Ok(bytes) => replay_sent(res) && support.transmits(
                    crate::types::OutputView::SignedProposal(bytes@),
                    res is Some,
                ),
            },
        WalEntry::Vote(v) => out2 == out && exists|r: Result<SignedVote>|
            #![trigger vote_post(support, s, s2, v, r)]
            vote_post(support, s, s2, v, r) && match r {
                Err(e) => res == Some(Err::<(), ConsensusError>(e)),
                Ok(sv) => replay_sent(res) && support.transmits(
                    crate::types::OutputView::SignedVote(crate::rlp_codec::rlp_signed_vote(sv@)),
                    res is Some,
                ),
            },
        WalEntry::Commit(c) => out2 == out && exists|r: Result<crate::types::Commit<F>>|
            #![trigger commit_post(s, s2, c, r)]
            commit_post(s, s2, c, r) && match r {
                Err(e) => res == Some(Err::<(), ConsensusError>(e)),
                Ok(cm) => replay_sent(res) && support.commits(cm, res is Some),
            },
    }
}

/// What replaying an entry gives once its message is sent or its commit
/// made: `Some(Ok(()))` when that succeeds, `None` when it fails.
pub open spec fn replay_sent(res: Option<Result<()>>) -> bool {
    res == Some(Ok::<(), ConsensusError>(())) || res is None
}

/// Whether the service logs an entry before it handles it, at state `s`:
/// a signed proposal frame that reads, with a block, when it is cached for
/// a near future height or its signature recovers its proposer and it is
/// not obsolete; a signed vote whose signature recovers its voter, of the
/// current height or one of the near future; a rich status that is not
/// obsolete; every block and block check; a proposal of the BFT core for
/// the current height; a vote or commit of the BFT core that is not
/// obsolete.
pub open spec fn logged_at<F: Content, T: ConsensusSupport<F>>(
    s: ConsensusView<F>,
    support: T,
    entry: WalEntry<F>,
) -> bool {
    match entry {
        WalEntry::SignedProposal(b) => frame_has_height(b@) && match proposal_frame_parts(b@) {
            Some((sp, blk, _)) => (exists|v: F| #[trigger] F::decodes_to(blk, v)) && {
                let h = sp.proposal.height;
                (h > s.height && h - s.height < CACHE_NUMBER) || (proposal_signed(support, sp) && !(h
                    < s.height - 1))
            },
            None => false,
        },
        WalEntry::SignedVote(sv) => vote_signer(support, sv@) == Some(sv@.vote.voter) && sv.vote.height
            >= s.height && sv.vote.height - s.height < CACHE_NUMBER,
        WalEntry::RichStatus(st) => st.height >= s.height,
        WalEntry::BlockTxs(_) => true,
        WalEntry::VerifyResp(_) => true,
        WalEntry::Proposal(p) => p.height == s.height,
        WalEntry::Vote(v) => v.height >= s.height,
        WalEntry::Commit(c) => c.height >= s.height,
    }
}

/// Replaying an entry of the write-ahead log keeps the invariant of the
/// service.
pub proof fn lemma_replay_keeps_inv<F: Content, T: ConsensusSupport<F>>(
    s: ConsensusView<F>,
    s2: ConsensusView<F>,
    support: T,
    entry: WalEntry<F>,
    res: Option<Result<()>>,
    out: Seq<Action<F>>,
    out2: Seq<Action<F>>,
)
    requires
        service_inv(s),
        replay_post(s, s2, support, entry, res, out, out2),
    ensures
        service_inv(s2),
{
    match entry {
        WalEntry::SignedProposal(b) => {
            if frame_has_height(b@) {
                if let Some((sp, blk, hash)) = proposal_frame_parts(b@) {
                    if replayable(support, s.height, sp) && s2 != s {
                        let (block, kept) = choose|block: F, kept: F|
                            #![trigger cloned(block, kept)]
                            F::decodes_to(blk, block) && cloned(block, kept) && {
                                let h = sp.proposal.height;
                                let s1 = ConsensusView {
                                    block_origin_cache: key_or_insert(s.block_origin_cache, hash, kept),
                                    ..s
                                };
                                let s1c = if h > s.height && h - s.height < CACHE_NUMBER {
                                    ConsensusView {
                                        proposal_cache: cache_push(s1.proposal_cache, h, (sp, block, b@)),
                                        ..s1
                                    }
                                } else {
                                    s1
                                };
                                let (s3, r, pushed) = signed_proposal_step(s1c, support, sp);
                                &&& s2 == s3
                                &&& res == if r is Ok {
                                    Some(Ok::<(), ConsensusError>(()))
                                } else {
                                    None::<Result<()>>
                                }
                                &&& answers_all(
                                    support,
                                    actions_view(out2),
                                    actions_view(out) + signed_proposal_actions(s1c, sp, b@, pushed, r),
                                )
                            };
                        let h = sp.proposal.height;
                        let s1 = ConsensusView {
                            block_origin_cache: key_or_insert(s.block_origin_cache, hash, kept),
                            ..s
                        };
                        let s1c = if h > s.height && h - s.height < CACHE_NUMBER {
                            lemma_cache_push_fits(s1, h, (sp, block, b@));
                            ConsensusView {
                                proposal_cache: cache_push(s1.proposal_cache, h, (sp, block, b@)),
                                ..s1
                            }
                        } else {
                            s1
                        };
                        lemma_key_or_insert_distinct(s.block_origin_cache, hash, kept);
                        crate::collection::lemma_signed_proposal_step_keyed(s1c, support, sp);
                        crate::consensus::lemma_signed_proposal_step_frame(s1c, support, sp);
                    }
                }
            }
        },
        WalEntry::SignedVote(sv) => {
            crate::consensus::lemma_after_signed_vote_frame(s, support, sv@);
            crate::collection::lemma_after_signed_vote_keyed(s, support, sv@);
        },
        WalEntry::Proposal(p) => {
            let r = choose|r: Result<Vec<u8>>| #[trigger]
                proposal_post(support, s, s2, out, out2, p, r) && match r {
                    Err(e) => res == Some(Err::<(), ConsensusError>(e)),
                    Ok(bytes) => replay_sent(res) && support.transmits(
                        crate::types::OutputView::SignedProposal(bytes@),
                        res is Some,
                    ),
                };
            crate::collection::lemma_proposal_post_keyed(support, s, s2, out, out2, p, r);
        },
        WalEntry::Vote(v) => {
            let r = choose|r: Result<SignedVote>| #[trigger]
                vote_post(support, s, s2, v, r) && match r {
                    Err(e) => res == Some(Err::<(), ConsensusError>(e)),
                    Ok(sv) => replay_sent(res) && support.transmits(
                        crate::types::OutputView::SignedVote(crate::rlp_codec::rlp_signed_vote(sv@)),
                        res is Some,
                    ),
                };
            crate::collection::lemma_vote_post_keyed(support, s, s2, v, r);
        },
        WalEntry::Commit(c) => {
            let r = choose|r: Result<crate::types::Commit<F>>| #[trigger]
                commit_post(s, s2, c, r) && match r {
                    Err(e) => res == Some(Err::<(), ConsensusError>(e)),
                    Ok(cm) => replay_sent(res) && support.commits(cm, res is Some),
                };
            crate::collection::lemma_commit_post_keyed(s, s2, c, r);
        },
        WalEntry::BlockTxs(f) => {
            let h = choose|h: Seq<u8>|
                #![trigger key_or_insert(s.block_origin_cache, h, f.content)]
                {
                    &&& f.content.hashes_to(h)
                    &&& actions_view(out2) == actions_view(out).push(ActionView::Feed(f.height, h))
                    &&& s2 == (ConsensusView {
                        block_origin_cache: key_or_insert(s.block_origin_cache, h, f.content),
                        ..s
                    })
                };
            lemma_key_or_insert_distinct(s.block_origin_cache, h, f.content);
        },
        WalEntry::VerifyResp(vr) => {
            lemma_key_or_insert_distinct(s.verified_block, vr.proposal@, vr.is_pass);
        },
        WalEntry::RichStatus(_) => {},
    }
}

impl<F: Content> Consensus<F> {
    /// Whether the service logs `entry` before it handles it (see
    /// `logged_at`).
    pub fn logs_entry<T: ConsensusSupport<F>>(&self, support: &T, entry: &WalEntry<F>) -> (res: bool)
        ensures
            res == logged_at(self@, *support, *entry),
    {
        match entry {
            WalEntry::SignedProposal(bytes) => {
                match crate::util::extract(bytes.as_slice()) {
                    Ok((_, block)) => {
                        if block.len() < 8 {
                            return false;
                        }
                    },
                    Err(_) => {
                        return false;
                    },
                }
                let (spb, _, blk, _) = match crate::util::decode_signed_proposal_frame(bytes.as_slice()) {
                    Ok(parts) => parts,
                    Err(_) => {
                        return false;
                    },
                };
                let sp = match crate::rlp_decode::decode_signed_proposal(spb.as_slice()) {
                    Ok(sp) => sp,
                    Err(_) => {
                        return false;
                    },
                };
                let ghost parts = proposal_frame_parts(bytes@);
                assert(parts == Some((sp@, blk@, parts.unwrap().2)));
                match F::decode(blk.as_slice()) {
                    Ok(v) => {
                        assert(F::decodes_to(parts.unwrap().1, v));
                    },
                    Err(_) => {
                        return false;
                    },
                }
                let h = sp.proposal.height;
                if h > self.height && h - self.height < CACHE_NUMBER as u64 {
                    return true;
                }
                proposal_is_signed(support, &sp) && !(self.height >= 1 && h < self.height - 1)
            },
            WalEntry::SignedVote(sv) => {
                let h = sv.vote.height;
                if h < self.height || h - self.height >= CACHE_NUMBER as u64 {
                    return false;
                }
                let bytes = sv.rlp_bytes();
                let hash = support.hash(bytes.as_slice());
                match support.verify_signature(sv.signature.as_slice(), hash.as_slice()) {
                    Ok(a) => crate::util::bytes_eq(a.as_slice(), sv.vote.voter.as_slice()),
                    Err(_) => false,
                }
            },
            WalEntry::RichStatus(st) => st.height >= self.height,
            WalEntry::BlockTxs(_) => true,
            WalEntry::VerifyResp(_) => true,
            WalEntry::Proposal(p) => p.height == self.height,
            WalEntry::Vote(v) => v.height >= self.height,
            WalEntry::Commit(c) => c.height >= self.height,
        }
    }

    /// Replays a logged signed proposal frame (see `replay_proposal_post`).
    pub fn replay_signed_proposal<T: ConsensusSupport<F>>(
        &mut self,
        support: &T,
        bytes: Vec<u8>,
        out: &mut Vec<Action<F>>,
    ) -> (res: Option<Result<()>>)
        ensures
            replay_proposal_post(old(self)@, final(self)@, *support, bytes@, res, old(out)@, final(out)@),
    {
        match crate::util::extract(bytes.as_slice()) {
            Ok((_, block)) => {
                if block.len() < 8 {
                    return None;
                }
            },
            Err(_) => {
                return None;
            },
        }
        let (spb, _, blk, hash) = match crate::util::decode_signed_proposal_frame(bytes.as_slice()) {
            Ok(parts) => parts,
            Err(_) => {
                return None;
            },
        };
        let sp = match crate::rlp_decode::decode_signed_proposal(spb.as_slice()) {
            Ok(sp) => sp,
            Err(_) => {
                return None;
            },
        };
        let h = sp.proposal.height;
        if h > u64::MAX - sp.proposal.round {
            return None;
        }
        if self.height == 0 && proposal_is_signed(support, &sp) {
            return None;
        }
        let block = match F::decode(blk.as_slice()) {
            Ok(b) => b,
            Err(_) => {
                return None;
            },
        };
        let ghost block_v = block;
        let Ghost(kept) = self.keep_block(&hash, &block);
        if h > self.height && h - self.height < CACHE_NUMBER as u64 {
            self.cache_proposal(sp.copy(), block, copy_bytes(&bytes));
        }
        let ghost s1c = self@;
        let ghost step = signed_proposal_step(s1c, *support, sp@);
        assert(cloned(block_v, kept));
        let handled = self.deliver_signed_proposal(support, sp, bytes.as_slice(), out);
        match handled {
            Ok(()) => Some(Ok(())),
            Err(_) => None,
        }
    }

    /// Replays an entry of the write-ahead log (see `replay_post`); the
    /// invariant of the service (see `service_inv`) is kept.
    pub fn replay_wal_entry<T: ConsensusSupport<F>>(
        &mut self,
        support: &T,
        entry: WalEntry<F>,
        out: &mut Vec<Action<F>>,
    ) -> (res: Option<Result<()>>)
        ensures
            replay_post(old(self)@, final(self)@, *support, entry, res, old(out)@, final(out)@),
            service_inv(old(self)@) ==> service_inv(final(self)@),
    {
        let ghost s0 = self@;
        let ghost o0 = out@;
        let ghost e = entry;
        let res = self.replay_entry(support, entry, out);
        proof {
            if service_inv(s0) {
                lemma_replay_keeps_inv(s0, self@, *support, e, res, o0, out@);
            }
        }
        res
    }

    /// Replays an entry of the write-ahead log (see `replay_post`).
    fn replay_entry<T: ConsensusSupport<F>>(
        &mut self,
        support: &T,
        entry: WalEntry<F>,
        out: &mut Vec<Action<F>>,
    ) -> (res: Option<Result<()>>)
        ensures
            replay_post(old(self)@, final(self)@, *support, entry, res, old(out)@, final(out)@),
    {
        match entry {
            WalEntry::SignedProposal(bytes) => self.replay_signed_proposal(support, bytes, out),
            WalEntry::SignedVote(sv) => {
                if self.height == 0 && vote_is_signed(support, &sv) {
                    return None;
                }
                Some(self.receive_signed_vote(support, sv, out))
            },
            WalEntry::RichStatus(st) => {
                if st.height == u64::MAX {
                    return None;
                }
                let ghost list = nodes_view(st.authority_list@);
                match self.handle_rich_status(st) {
                    Ok(status) => {
                        let ghost before = out@;
                        out.push(Action::Core(CoreInput::Status(status)));
                        assert(actions_view(out@) =~= actions_view(before).push(
                            ActionView::Status(
                                status.height,
                                status.interval,
                                crate::types::addresses_view(status.authority_list@),
                            ),
                        ));
                        Some(Ok(()))
                    },
                    Err(e) => Some(Err(e)),
                }
            },
            WalEntry::BlockTxs(f) => Some(self.async_process(AsyncMsg::Feed(f), out)),
            WalEntry::VerifyResp(vr) => Some(self.async_process(AsyncMsg::VerifyResp(vr), out)),
            WalEntry::Proposal(p) => match self.handle_proposal(support, p, out) {
                Ok(bytes) => {
                    if support.transmit(ConsensusOutput::SignedProposal(bytes)).is_ok() {
                        Some(Ok(()))
                    } else {
                        None
                    }
                },
                Err(e) => Some(Err(e)),
            },
            WalEntry::Vote(v) => match self.handle_vote(support, v) {
                Ok(sv) => {
                    let bytes = sv.rlp_bytes();
                    if support.transmit(ConsensusOutput::SignedVote(bytes)).is_ok() {
                        Some(Ok(()))
                    } else {
                        None
                    }
                },
                Err(e) => Some(Err(e)),
            },
            WalEntry::Commit(c) => match self.handle_commit(c) {
                Ok(commit) => {
                    if support.commit(commit).is_ok() {
                        Some(Ok(()))
                    } else {
                        None
                    }
                },
                Err(e) => Some(Err(e)),
            },
        }
    }
}

} // verus!
