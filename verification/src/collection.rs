use crate::core_types::{BftVote, BftVoteView};
use crate::lru::{
    lemma_lru_all_insert, lemma_lru_all_remove, lemma_lru_all_touch, lru_all, lru_get, lru_insert,
    lru_remove, lru_touch,
};
use crate::types::{SignedProposal, SignedProposalView, SignedVote, SignedVoteView, VoteType};
use lru_cache::LruCache;
use vstd::prelude::*;

verus! {

/// How many heights, and how many rounds of a height, the caches hold.
pub const CACHE_NUMBER: usize = 16;

// ----------------------------------------------------------------------------
// Vote sets
// ----------------------------------------------------------------------------
/// The signed votes of one height, round and vote type, each under the vote
/// of the BFT core that it stands for.
#[derive(Clone, Debug)]
pub struct VoteSet {
    /// The pairs of a vote and its signed vote; each vote once.
    pub vote_pair: Vec<(BftVote, SignedVote)>,
}

impl View for VoteSet {
    type V = Seq<(BftVoteView, SignedVoteView)>;

    open spec fn view(&self) -> Seq<(BftVoteView, SignedVoteView)> {
        self.vote_pair@.map_values(|p: (BftVote, SignedVote)| (p.0@, p.1@))
    }
}

/// The signed vote that a vote set holds under `k`.
pub open spec fn vs_get(s: Seq<(BftVoteView, SignedVoteView)>, k: BftVoteView) -> Option<
    SignedVoteView,
>
    decreases s.len(),
{
    if s.len() == 0 {
        None
    } else if s.last().0 == k {
        Some(s.last().1)
    } else {
        vs_get(s.drop_last(), k)
    }
}

/// A vote set after adding `v` under `k`, and whether it was added: a vote
/// that is there already keeps its first signed vote.
pub open spec fn vs_add(
    s: Seq<(BftVoteView, SignedVoteView)>,
    k: BftVoteView,
    v: SignedVoteView,
) -> (Seq<(BftVoteView, SignedVoteView)>, bool) {
    if vs_get(s, k) is Some {
        (s, false)
    } else {
        (s.push((k, v)), true)
    }
}

/// No vote occurs twice in a vote set.
pub open spec fn vs_distinct(s: Seq<(BftVoteView, SignedVoteView)>) -> bool {
    forall|i: int, j: int| 0 <= i < j < s.len() ==> #[trigger] s[i].0 != #[trigger] s[j].0
}

/// A vote found in a vote set is the vote of one of its entries, and a vote
/// not found is in none.
pub proof fn lemma_vs_get_mem(s: Seq<(BftVoteView, SignedVoteView)>, k: BftVoteView)
    ensures
        vs_get(s, k) is None ==> forall|i: int| 0 <= i < s.len() ==> s[i].0 != k,
    decreases s.len(),
{
    if s.len() > 0 && s.last().0 != k {
        lemma_vs_get_mem(s.drop_last(), k);
        assert forall|i: int| 0 <= i < s.len() - 1 implies s[i] == s.drop_last()[i] by {}
    }
}

/// Adding to a vote set keeps each vote in it once.
pub proof fn lemma_vs_add_distinct(
    s: Seq<(BftVoteView, SignedVoteView)>,
    k: BftVoteView,
    v: SignedVoteView,
)
    requires
        vs_distinct(s),
    ensures
        vs_distinct(vs_add(s, k, v).0),
{
    lemma_vs_get_mem(s, k);
    let t = vs_add(s, k, v).0;
    if vs_get(s, k) is None {
        assert forall|i: int, j: int| 0 <= i < j < t.len() implies #[trigger] t[i].0
            != #[trigger] t[j].0 by {
            if j == s.len() {
                assert(t[i] == s[i]);
            } else {
                assert(t[i] == s[i] && t[j] == s[j]);
            }
        }
    }
}

impl VoteSet {
    /// An empty vote set.
    pub fn new() -> (res: Self)
        ensures
            res@ == Seq::<(BftVoteView, SignedVoteView)>::empty(),
    {
        let res = VoteSet { vote_pair: Vec::new() };
        assert(res@ =~= Seq::<(BftVoteView, SignedVoteView)>::empty());
        res
    }

    /// The signed vote held under `vote`.
    pub fn get(&self, vote: &BftVote) -> (res: Option<SignedVote>)
        ensures
            match res {
                Some(v) => vs_get(self@, vote@) == Some(v@),
                None => vs_get(self@, vote@) is None,
            },
    {
        let ghost sv = self@;
        let mut i: usize = self.vote_pair.len();
        assert(sv.subrange(0, i as int) =~= sv);
        while i > 0
            invariant
                i <= self.vote_pair@.len(),
                sv == self@,
                sv.len() == self.vote_pair@.len(),
                vs_get(sv, vote@) == vs_get(sv.subrange(0, i as int), vote@),
            decreases i,
        {
            assert(sv.subrange(0, i as int).drop_last() =~= sv.subrange(0, i - 1));
            assert(sv.subrange(0, i as int).last() == sv[i - 1]);
            if self.vote_pair[i - 1].0.same(vote) {
                return Some(self.vote_pair[i - 1].1.copy());
            }
            i = i - 1;
        }
        None
    }

    /// Adds `signed_vote` under `bft_vote` unless the vote is there already;
    /// says whether it was added.
    pub fn add(&mut self, bft_vote: &BftVote, signed_vote: &SignedVote) -> (added: bool)
        ensures
            (final(self)@, added) == vs_add(old(self)@, bft_vote@, signed_vote@),
    {
        let found = self.get(bft_vote);
        if found.is_some() {
            false
        } else {
            self.vote_pair.push((bft_vote.copy(), signed_vote.copy()));
            assert(self@ =~= old(self)@.push((bft_vote@, signed_vote@)));
            true
        }
    }

    /// A copy of the vote set.
    pub fn copy(&self) -> (res: VoteSet)
        ensures
            res@ == self@,
    {
        let mut pairs: Vec<(BftVote, SignedVote)> = Vec::with_capacity(self.vote_pair.len());
        let mut i: usize = 0;
        while i < self.vote_pair.len()
            invariant
                i <= self.vote_pair@.len(),
                pairs@.len() == i,
                forall|k: int|
                    0 <= k < i ==> #[trigger] pairs@[k].0@ == self.vote_pair@[k].0@
                        && pairs@[k].1@ == self.vote_pair@[k].1@,
            decreases self.vote_pair@.len() - i,
        {
            let a = self.vote_pair[i].0.copy();
            let b = self.vote_pair[i].1.copy();
            pairs.push((a, b));
            i = i + 1;
        }
        let res = VoteSet { vote_pair: pairs };
        assert(res@ =~= self@);
        res
    }
}

/// The view of an optional vote set.
pub open spec fn opt_vote_set_view(o: Option<VoteSet>) -> Option<
    Seq<(BftVoteView, SignedVoteView)>,
> {
    match o {
        Some(s) => Some(s@),
        None => None,
    }
}

// ----------------------------------------------------------------------------
// Vote type -> vote set
// ----------------------------------------------------------------------------
/// The vote sets of one height and round, by vote type.
#[derive(Clone, Debug)]
pub struct StepCollector {
    /// The prevote set, once a prevote came.
    pub prevotes: Option<VoteSet>,
    /// The precommit set, once a precommit came.
    pub precommits: Option<VoteSet>,
}

/// The mathematical value of a `StepCollector`.
pub struct StepCollectorView {
    pub prevotes: Option<Seq<(BftVoteView, SignedVoteView)>>,
    pub precommits: Option<Seq<(BftVoteView, SignedVoteView)>>,
}

impl View for StepCollector {
    type V = StepCollectorView;

    open spec fn view(&self) -> StepCollectorView {
        StepCollectorView {
            prevotes: opt_vote_set_view(self.prevotes),
            precommits: opt_vote_set_view(self.precommits),
        }
    }
}

/// The vote set of a vote type.
pub open spec fn step_get(s: StepCollectorView, t: VoteType) -> Option<
    Seq<(BftVoteView, SignedVoteView)>,
> {
    match t {
        VoteType::Prevote => s.prevotes,
        VoteType::Precommit => s.precommits,
    }
}

/// The step collector with no vote sets.
pub open spec fn step_empty() -> StepCollectorView {
    StepCollectorView { prevotes: None, precommits: None }
}

/// A step collector after adding `v` under `k` to the set of type `t` (made
/// empty first when there is none), and whether it was added.
pub open spec fn step_add(s: StepCollectorView, t: VoteType, k: BftVoteView, v: SignedVoteView) -> (
    StepCollectorView,
    bool,
) {
    let set = match step_get(s, t) {
        Some(x) => x,
        None => Seq::empty(),
    };
    let (set2, added) = vs_add(set, k, v);
    let s2 = match t {
        VoteType::Prevote => StepCollectorView { prevotes: Some(set2), ..s },
        VoteType::Precommit => StepCollectorView { precommits: Some(set2), ..s },
    };
    (s2, added)
}

impl StepCollector {
    /// A step collector with no vote sets.
    pub fn new() -> (res: Self)
        ensures
            res@ == step_empty(),
    {
        StepCollector { prevotes: None, precommits: None }
    }

    /// Adds `signed_vote` under `bft_vote` to the set of `vote_type`; says
    /// whether it was added.
    pub fn add(&mut self, vote_type: VoteType, bft_vote: &BftVote, signed_vote: &SignedVote) -> (added:
        bool)
        ensures
            (final(self)@, added) == step_add(old(self)@, vote_type, bft_vote@, signed_vote@),
    {
        match vote_type {
            VoteType::Prevote => {
                let mut set = match self.prevotes.take() {
                    Some(s) => s,
                    None => VoteSet::new(),
                };
                let added = set.add(bft_vote, signed_vote);
                self.prevotes = Some(set);
                added
            },
            VoteType::Precommit => {
                let mut set = match self.precommits.take() {
                    Some(s) => s,
                    None => VoteSet::new(),
                };
                let added = set.add(bft_vote, signed_vote);
                self.precommits = Some(set);
                added
            },
        }
    }

    /// A copy of the vote set of `vote_type`, if there is one.
    pub fn get_vote_set(&self, vote_type: VoteType) -> (res: Option<VoteSet>)
        ensures
            opt_vote_set_view(res) == step_get(self@, vote_type),
    {
        match vote_type {
            VoteType::Prevote => match &self.prevotes {
                Some(s) => Some(s.copy()),
                None => None,
            },
            VoteType::Precommit => match &self.precommits {
                Some(s) => Some(s.copy()),
                None => None,
            },
        }
    }
}

// ----------------------------------------------------------------------------
// The LRU caches
// ----------------------------------------------------------------------------
/// The entries of an LRU cache of step collectors by round, from least to
/// most recently used.
pub uninterp spec fn step_cache_entries(c: LruCache<u64, StepCollector>) -> Seq<
    (u64, StepCollectorView),
>;

/// The capacity that an LRU cache of step collectors was made with.
pub uninterp spec fn step_cache_capacity(c: LruCache<u64, StepCollector>) -> nat;

/// `LruCache::new` for step collectors.
///
/// Claims an empty cache with the given capacity.
#[verifier::external_body]
fn step_cache_new(cap: usize) -> (c: LruCache<u64, StepCollector>)
    ensures
        step_cache_entries(c) == Seq::<(u64, StepCollectorView)>::empty(),
        step_cache_capacity(c) == cap,
{
    LruCache::new(cap)
}

/// `LruCache::contains_key` for step collectors.
///
/// Claims that it says whether the key has an entry, and, as `get_mut` does
/// inside it, moves that entry to the most recent end.
#[verifier::external_body]
fn step_cache_contains(c: &mut LruCache<u64, StepCollector>, k: u64) -> (res: bool)
    ensures
        res == lru_get(step_cache_entries(*old(c)), k) is Some,
        step_cache_entries(*final(c)) == lru_touch(step_cache_entries(*old(c)), k),
        step_cache_capacity(*final(c)) == step_cache_capacity(*old(c)),
{
    c.contains_key(&k)
}

/// `LruCache::remove` for step collectors.
///
/// Claims that it takes out and returns the entry of the key, if any, and
/// leaves the order of the others.
#[verifier::external_body]
fn step_cache_remove(c: &mut LruCache<u64, StepCollector>, k: u64) -> (res: Option<StepCollector>)
    ensures
        match res {
            Some(v) => lru_get(step_cache_entries(*old(c)), k) == Some(v@),
            None => lru_get(step_cache_entries(*old(c)), k) is None,
        },
        step_cache_entries(*final(c)) == lru_remove(step_cache_entries(*old(c)), k),
        step_cache_capacity(*final(c)) == step_cache_capacity(*old(c)),
{
    c.remove(&k)
}

/// `LruCache::insert` for step collectors.
///
/// Claims that the entry of the key goes to the most recent end with the new
/// value, and that the least recently used entry leaves when the cache holds
/// more than its capacity.
#[verifier::external_body]
fn step_cache_insert(c: &mut LruCache<u64, StepCollector>, k: u64, v: StepCollector)
    ensures
        step_cache_entries(*final(c)) == lru_insert(
            step_cache_entries(*old(c)),
            k,
            v@,
            step_cache_capacity(*old(c)),
        ),
        step_cache_capacity(*final(c)) == step_cache_capacity(*old(c)),
{
    c.insert(k, v);
}

// ----------------------------------------------------------------------------
// Round -> step collector
// ----------------------------------------------------------------------------
/// The step collectors of one height, by round.
#[derive(Debug)]
pub struct RoundCollector {
    /// The step collectors by round; the least recently used round leaves
    /// first.
    pub round_votes: LruCache<u64, StepCollector>,
}

/// The mathematical value of a `RoundCollector`.
pub struct RoundCollectorView {
    pub entries: Seq<(u64, StepCollectorView)>,
    pub capacity: nat,
}

impl View for RoundCollector {
    type V = RoundCollectorView;

    open spec fn view(&self) -> RoundCollectorView {
        RoundCollectorView {
            entries: step_cache_entries(self.round_votes),
            capacity: step_cache_capacity(self.round_votes),
        }
    }
}

/// A round collector after adding `v` under `k` to the set of round `round`
/// and type `t`, and whether it was added. A new round starts from an empty
/// step collector and counts as added.
pub open spec fn rc_add(
    rc: RoundCollectorView,
    round: u64,
    t: VoteType,
    k: BftVoteView,
    v: SignedVoteView,
) -> (RoundCollectorView, bool) {
    let touched = lru_touch(rc.entries, round);
    match lru_get(rc.entries, round) {
        Some(sc) => {
            let (sc2, added) = step_add(sc, t, k, v);
            (
                RoundCollectorView {
                    entries: lru_insert(lru_remove(touched, round), round, sc2, rc.capacity),
                    capacity: rc.capacity,
                },
                added,
            )
        },
        None => {
            let (sc2, _) = step_add(step_empty(), t, k, v);
            (
                RoundCollectorView {
                    entries: lru_insert(touched, round, sc2, rc.capacity),
                    capacity: rc.capacity,
                },
                true,
            )
        },
    }
}

/// A round collector after reading the set of round `round` and type `t`,
/// and the set read.
pub open spec fn rc_get_vote_set(rc: RoundCollectorView, round: u64, t: VoteType) -> (
    RoundCollectorView,
    Option<Seq<(BftVoteView, SignedVoteView)>>,
) {
    let touched = lru_touch(rc.entries, round);
    match lru_get(rc.entries, round) {
        Some(sc) => (
            RoundCollectorView {
                entries: lru_insert(lru_remove(touched, round), round, sc, rc.capacity),
                capacity: rc.capacity,
            },
            step_get(sc, t),
        ),
        None => (RoundCollectorView { entries: touched, capacity: rc.capacity }, None),
    }
}

impl RoundCollector {
    /// An empty round collector that holds `CACHE_NUMBER` rounds.
    pub fn new() -> (res: Self)
        ensures
            res@ == (RoundCollectorView { entries: Seq::empty(), capacity: CACHE_NUMBER as nat }),
    {
        RoundCollector { round_votes: step_cache_new(CACHE_NUMBER) }
    }

    /// Adds `signed_vote` under `bft_vote` to the set of `round` and
    /// `vote_type`; says whether it was added.
    pub fn add(
        &mut self,
        round: u64,
        vote_type: VoteType,
        bft_vote: &BftVote,
        signed_vote: &SignedVote,
    ) -> (added: bool)
        ensures
            (final(self)@, added) == rc_add(old(self)@, round, vote_type, bft_vote@, signed_vote@),
    {
        proof {
            crate::lru::lemma_lru_touch_get(self@.entries, round, round);
        }
        if step_cache_contains(&mut self.round_votes, round) {
            let mut step_votes = step_cache_remove(&mut self.round_votes, round).unwrap();
            let added = step_votes.add(vote_type, bft_vote, signed_vote);
            step_cache_insert(&mut self.round_votes, round, step_votes);
            added
        } else {
            let mut step_votes = StepCollector::new();
            step_votes.add(vote_type, bft_vote, signed_vote);
            step_cache_insert(&mut self.round_votes, round, step_votes);
            true
        }
    }

    /// A copy of the set of `round` and `vote_type`, if there is one.
    pub fn get_vote_set(&mut self, round: u64, vote_type: VoteType) -> (res: Option<VoteSet>)
        ensures
            (final(self)@, opt_vote_set_view(res)) == rc_get_vote_set(old(self)@, round, vote_type),
    {
        proof {
            crate::lru::lemma_lru_touch_get(self@.entries, round, round);
        }
        if step_cache_contains(&mut self.round_votes, round) {
            let step_votes = step_cache_remove(&mut self.round_votes, round).unwrap();
            let res = step_votes.get_vote_set(vote_type);
            step_cache_insert(&mut self.round_votes, round, step_votes);
            res
        } else {
            None
        }
    }
}

// ----------------------------------------------------------------------------
// Height -> round collector
// ----------------------------------------------------------------------------
/// The signed votes, by height, round and vote type.
#[derive(Debug)]
pub struct VoteCollector {
    /// The round collectors by height; the least recently used height leaves
    /// first.
    pub votes: LruCache<u64, RoundCollector>,
}

/// The mathematical value of a `VoteCollector`.
pub struct VoteCollectorView {
    pub entries: Seq<(u64, RoundCollectorView)>,
    pub capacity: nat,
}

impl View for VoteCollector {
    type V = VoteCollectorView;

    open spec fn view(&self) -> VoteCollectorView {
        VoteCollectorView {
            entries: round_cache_entries(self.votes),
            capacity: round_cache_capacity(self.votes),
        }
    }
}

/// The round collector with no rounds that holds `CACHE_NUMBER` rounds.
pub open spec fn rc_empty() -> RoundCollectorView {
    RoundCollectorView { entries: Seq::empty(), capacity: CACHE_NUMBER as nat }
}

/// A vote collector after adding `v` under `k` to the set of `height`,
/// `round` and type `t`, and whether it was added. A new height starts from
/// an empty round collector and counts as added.
pub open spec fn vc_add(
    vc: VoteCollectorView,
    height: u64,
    round: u64,
    t: VoteType,
    k: BftVoteView,
    v: SignedVoteView,
) -> (VoteCollectorView, bool) {
    let touched = lru_touch(vc.entries, height);
    match lru_get(vc.entries, height) {
        Some(rc) => {
            let (rc2, added) = rc_add(rc, round, t, k, v);
            (
                VoteCollectorView {
                    entries: lru_insert(lru_remove(touched, height), height, rc2, vc.capacity),
                    capacity: vc.capacity,
                },
                added,
            )
        },
        None => {
            let (rc2, _) = rc_add(rc_empty(), round, t, k, v);
            (
                VoteCollectorView {
                    entries: lru_insert(touched, height, rc2, vc.capacity),
                    capacity: vc.capacity,
                },
                true,
            )
        },
    }
}

/// A vote collector after reading the set of `height`, `round` and type
/// `t`, and the set read.
pub open spec fn vc_get_vote_set(vc: VoteCollectorView, height: u64, round: u64, t: VoteType) -> (
    VoteCollectorView,
    Option<Seq<(BftVoteView, SignedVoteView)>>,
) {
    let touched = lru_touch(vc.entries, height);
    match lru_get(vc.entries, height) {
        Some(rc) => {
            let (rc2, res) = rc_get_vote_set(rc, round, t);
            (
                VoteCollectorView {
                    entries: lru_insert(lru_remove(touched, height), height, rc2, vc.capacity),
                    capacity: vc.capacity,
                },
                res,
            )
        },
        None => (VoteCollectorView { entries: touched, capacity: vc.capacity }, None),
    }
}

impl VoteCollector {
    /// An empty vote collector that holds `CACHE_NUMBER` heights.
    pub fn new() -> (res: Self)
        ensures
            res@ == (VoteCollectorView { entries: Seq::empty(), capacity: CACHE_NUMBER as nat }),
    {
        VoteCollector { votes: round_cache_new(CACHE_NUMBER) }
    }

    /// Adds `signed_vote` under `bft_vote` to the set of `height`, `round`
    /// and `vote_type`; says whether it was added.
    pub fn add(
        &mut self,
        height: u64,
        round: u64,
        vote_type: VoteType,
        bft_vote: &BftVote,
        signed_vote: &SignedVote,
    ) -> (added: bool)
        ensures
            (final(self)@, added) == vc_add(
                old(self)@,
                height,
                round,
                vote_type,
                bft_vote@,
                signed_vote@,
            ),
    {
        proof {
            crate::lru::lemma_lru_touch_get(self@.entries, height, height);
        }
        if round_cache_contains(&mut self.votes, height) {
            let mut round_votes = round_cache_remove(&mut self.votes, height).unwrap();
            let added = round_votes.add(round, vote_type, bft_vote, signed_vote);
            round_cache_insert(&mut self.votes, height, round_votes);
            added
        } else {
            let mut round_votes = RoundCollector::new();
            round_votes.add(round, vote_type, bft_vote, signed_vote);
            round_cache_insert(&mut self.votes, height, round_votes);
            true
        }
    }

    /// A copy of the set of `height`, `round` and `vote_type`, if there is
    /// one.
    pub fn get_vote_set(&mut self, height: u64, round: u64, vote_type: VoteType) -> (res: Option<
        VoteSet,
    >)
        ensures
            (final(self)@, opt_vote_set_view(res)) == vc_get_vote_set(
                old(self)@,
                height,
                round,
                vote_type,
            ),
    {
        proof {
            crate::lru::lemma_lru_touch_get(self@.entries, height, height);
        }
        if round_cache_contains(&mut self.votes, height) {
            let mut round_votes = round_cache_remove(&mut self.votes, height).unwrap();
            let res = round_votes.get_vote_set(round, vote_type);
            round_cache_insert(&mut self.votes, height, round_votes);
            res
        } else {
            None
        }
    }
}

// ----------------------------------------------------------------------------
// Proposals
// ----------------------------------------------------------------------------
/// The signed proposals of one height, by round.
#[derive(Debug)]
pub struct ProposalRoundCollector {
    /// The signed proposals by round; the least recently used round leaves
    /// first.
    pub round_proposals: LruCache<u64, SignedProposal>,
}

/// The mathematical value of a `ProposalRoundCollector`.
pub struct ProposalRoundCollectorView {
    pub entries: Seq<(u64, SignedProposalView)>,
    pub capacity: nat,
}

impl View for ProposalRoundCollector {
    type V = ProposalRoundCollectorView;

    open spec fn view(&self) -> ProposalRoundCollectorView {
        ProposalRoundCollectorView {
            entries: proposal_cache_entries(self.round_proposals),
            capacity: proposal_cache_capacity(self.round_proposals),
        }
    }
}

/// A proposal round collector after adding `p` for `round`, and whether it
/// was added: the first proposal of a round stays.
pub open spec fn prc_add(prc: ProposalRoundCollectorView, round: u64, p: SignedProposalView) -> (
    ProposalRoundCollectorView,
    bool,
) {
    if lru_get(prc.entries, round) is Some {
        (
            ProposalRoundCollectorView {
                entries: lru_touch(prc.entries, round),
                capacity: prc.capacity,
            },
            false,
        )
    } else {
        (
            ProposalRoundCollectorView {
                entries: lru_insert(prc.entries, round, p, prc.capacity),
                capacity: prc.capacity,
            },
            true,
        )
    }
}

impl ProposalRoundCollector {
    /// An empty proposal round collector that holds `CACHE_NUMBER` rounds.
    pub fn new() -> (res: Self)
        ensures
            res@ == (ProposalRoundCollectorView {
                entries: Seq::empty(),
                capacity: CACHE_NUMBER as nat,
            }),
    {
        ProposalRoundCollector { round_proposals: proposal_cache_new(CACHE_NUMBER) }
    }

    /// Adds a copy of `proposal` for `round` unless the round has one; says
    /// whether it was added.
    pub fn add(&mut self, round: u64, proposal: &SignedProposal) -> (added: bool)
        ensures
            (final(self)@, added) == prc_add(old(self)@, round, proposal@),
    {
        if proposal_cache_contains(&mut self.round_proposals, round) {
            false
        } else {
            proposal_cache_insert(&mut self.round_proposals, round, proposal.copy());
            true
        }
    }
}

/// The signed proposals, by height and round.
#[derive(Debug)]
pub struct ProposalCollector {
    /// The proposal round collectors by height; the least recently used
    /// height leaves first.
    pub proposals: LruCache<u64, ProposalRoundCollector>,
}

/// The mathematical value of a `ProposalCollector`.
pub struct ProposalCollectorView {
    pub entries: Seq<(u64, ProposalRoundCollectorView)>,
    pub capacity: nat,
}

impl View for ProposalCollector {
    type V = ProposalCollectorView;

    open spec fn view(&self) -> ProposalCollectorView {
        ProposalCollectorView {
            entries: height_proposal_cache_entries(self.proposals),
            capacity: height_proposal_cache_capacity(self.proposals),
        }
    }
}

/// The proposal round collector with no rounds that holds `CACHE_NUMBER`
/// rounds.
pub open spec fn prc_empty() -> ProposalRoundCollectorView {
    ProposalRoundCollectorView { entries: Seq::empty(), capacity: CACHE_NUMBER as nat }
}

/// A proposal collector after adding `p` for `height` and `round`, and
/// whether it was added. A new height counts as added.
pub open spec fn pc_add(pc: ProposalCollectorView, height: u64, round: u64, p: SignedProposalView) -> (
    ProposalCollectorView,
    bool,
) {
    let touched = lru_touch(pc.entries, height);
    match lru_get(pc.entries, height) {
        Some(prc) => {
            let (prc2, added) = prc_add(prc, round, p);
            (
                ProposalCollectorView {
                    entries: lru_insert(lru_remove(touched, height), height, prc2, pc.capacity),
                    capacity: pc.capacity,
                },
                added,
            )
        },
        None => {
            let (prc2, _) = prc_add(prc_empty(), round, p);
            (
                ProposalCollectorView {
                    entries: lru_insert(touched, height, prc2, pc.capacity),
                    capacity: pc.capacity,
                },
                true,
            )
        },
    }
}

impl ProposalCollector {
    /// An empty proposal collector that holds `CACHE_NUMBER` heights.
    pub fn new() -> (res: Self)
        ensures
            res@ == (ProposalCollectorView { entries: Seq::empty(), capacity: CACHE_NUMBER as nat }),
    {
        ProposalCollector { proposals: height_proposal_cache_new(CACHE_NUMBER) }
    }

    /// Adds a copy of `proposal` for `height` and `round` unless the round has
    /// one; says whether it was added.
    pub fn add(&mut self, height: u64, round: u64, proposal: &SignedProposal) -> (added: bool)
        ensures
            (final(self)@, added) == pc_add(old(self)@, height, round, proposal@),
    {
        proof {
            crate::lru::lemma_lru_touch_get(self@.entries, height, height);
        }
        if height_proposal_cache_contains(&mut self.proposals, height) {
            let mut round_proposals = height_proposal_cache_remove(&mut self.proposals, height).unwrap();
            let added = round_proposals.add(round, proposal);
            height_proposal_cache_insert(&mut self.proposals, height, round_proposals);
            added
        } else {
            let mut round_proposals = ProposalRoundCollector::new();
            round_proposals.add(round, proposal);
            height_proposal_cache_insert(&mut self.proposals, height, round_proposals);
            true
        }
    }
}

/// The entries of an LRU cache of round collectors by height, from least to most recently used.
pub uninterp spec fn round_cache_entries(c: LruCache<u64, RoundCollector>) -> Seq<(u64, RoundCollectorView)>;

/// The capacity that an LRU cache of round collectors by height was made with.
pub uninterp spec fn round_cache_capacity(c: LruCache<u64, RoundCollector>) -> nat;

/// `LruCache::new` for round collectors by height.
///
/// Claims an empty cache with the given capacity.
#[verifier::external_body]
fn round_cache_new(cap: usize) -> (c: LruCache<u64, RoundCollector>)
    ensures
        round_cache_entries(c) == Seq::<(u64, RoundCollectorView)>::empty(),
        round_cache_capacity(c) == cap,
{
    LruCache::new(cap)
}

/// `LruCache::contains_key` for round collectors by height.
///
/// Claims that it says whether the key has an entry, and, as `get_mut` does
/// inside it, moves that entry to the most recent end.
#[verifier::external_body]
fn round_cache_contains(c: &mut LruCache<u64, RoundCollector>, k: u64) -> (res: bool)
    ensures
        res == lru_get(round_cache_entries(*old(c)), k) is Some,
        round_cache_entries(*final(c)) == lru_touch(round_cache_entries(*old(c)), k),
        round_cache_capacity(*final(c)) == round_cache_capacity(*old(c)),
{
    c.contains_key(&k)
}

/// `LruCache::remove` for round collectors by height.
///
/// Claims that it takes out and returns the entry of the key, if any, and
/// leaves the order of the others.
#[verifier::external_body]
fn round_cache_remove(c: &mut LruCache<u64, RoundCollector>, k: u64) -> (res: Option<RoundCollector>)
    ensures
        match res {
            Some(v) => lru_get(round_cache_entries(*old(c)), k) == Some(v@),
            None => lru_get(round_cache_entries(*old(c)), k) is None,
        },
        round_cache_entries(*final(c)) == lru_remove(round_cache_entries(*old(c)), k),
        round_cache_capacity(*final(c)) == round_cache_capacity(*old(c)),
{
    c.remove(&k)
}

/// `LruCache::insert` for round collectors by height.
///
/// Claims that the entry of the key goes to the most recent end with the new
/// value, and that the least recently used entry leaves when the cache holds
/// more than its capacity.
#[verifier::external_body]
fn round_cache_insert(c: &mut LruCache<u64, RoundCollector>, k: u64, v: RoundCollector)
    ensures
        round_cache_entries(*final(c)) == lru_insert(
            round_cache_entries(*old(c)),
            k,
            v@,
            round_cache_capacity(*old(c)),
        ),
        round_cache_capacity(*final(c)) == round_cache_capacity(*old(c)),
{
    c.insert(k, v);
}

/// The entries of an LRU cache of signed proposals by round, from least to most recently used.
pub uninterp spec fn proposal_cache_entries(c: LruCache<u64, SignedProposal>) -> Seq<(u64, SignedProposalView)>;

/// The capacity that an LRU cache of signed proposals by round was made with.
pub uninterp spec fn proposal_cache_capacity(c: LruCache<u64, SignedProposal>) -> nat;

/// `LruCache::new` for signed proposals by round.
///
/// Claims an empty cache with the given capacity.
#[verifier::external_body]
fn proposal_cache_new(cap: usize) -> (c: LruCache<u64, SignedProposal>)
    ensures
        proposal_cache_entries(c) == Seq::<(u64, SignedProposalView)>::empty(),
        proposal_cache_capacity(c) == cap,
{
    LruCache::new(cap)
}

/// `LruCache::contains_key` for signed proposals by round.
///
/// Claims that it says whether the key has an entry, and, as `get_mut` does
/// inside it, moves that entry to the most recent end.
#[verifier::external_body]
fn proposal_cache_contains(c: &mut LruCache<u64, SignedProposal>, k: u64) -> (res: bool)
    ensures
        res == lru_get(proposal_cache_entries(*old(c)), k) is Some,
        proposal_cache_entries(*final(c)) == lru_touch(proposal_cache_entries(*old(c)), k),
        proposal_cache_capacity(*final(c)) == proposal_cache_capacity(*old(c)),
{
    c.contains_key(&k)
}

/// `LruCache::remove` for signed proposals by round.
///
/// Claims that it takes out and returns the entry of the key, if any, and
/// leaves the order of the others.
#[verifier::external_body]
fn proposal_cache_remove(c: &mut LruCache<u64, SignedProposal>, k: u64) -> (res: Option<SignedProposal>)
    ensures
        match res {
            Some(v) => lru_get(proposal_cache_entries(*old(c)), k) == Some(v@),
            None => lru_get(proposal_cache_entries(*old(c)), k) is None,
        },
        proposal_cache_entries(*final(c)) == lru_remove(proposal_cache_entries(*old(c)), k),
        proposal_cache_capacity(*final(c)) == proposal_cache_capacity(*old(c)),
{
    c.remove(&k)
}

/// `LruCache::insert` for signed proposals by round.
///
/// Claims that the entry of the key goes to the most recent end with the new
/// value, and that the least recently used entry leaves when the cache holds
/// more than its capacity.
#[verifier::external_body]
fn proposal_cache_insert(c: &mut LruCache<u64, SignedProposal>, k: u64, v: SignedProposal)
    ensures
        proposal_cache_entries(*final(c)) == lru_insert(
            proposal_cache_entries(*old(c)),
            k,
            v@,
            proposal_cache_capacity(*old(c)),
        ),
        proposal_cache_capacity(*final(c)) == proposal_cache_capacity(*old(c)),
{
    c.insert(k, v);
}

/// The entries of an LRU cache of proposal round collectors by height, from least to most recently used.
pub uninterp spec fn height_proposal_cache_entries(c: LruCache<u64, ProposalRoundCollector>) -> Seq<(u64, ProposalRoundCollectorView)>;

/// The capacity that an LRU cache of proposal round collectors by height was made with.
pub uninterp spec fn height_proposal_cache_capacity(c: LruCache<u64, ProposalRoundCollector>) -> nat;

/// `LruCache::new` for proposal round collectors by height.
///
/// Claims an empty cache with the given capacity.
#[verifier::external_body]
fn height_proposal_cache_new(cap: usize) -> (c: LruCache<u64, ProposalRoundCollector>)
    ensures
        height_proposal_cache_entries(c) == Seq::<(u64, ProposalRoundCollectorView)>::empty(),
        height_proposal_cache_capacity(c) == cap,
{
    LruCache::new(cap)
}

/// `LruCache::contains_key` for proposal round collectors by height.
///
/// Claims that it says whether the key has an entry, and, as `get_mut` does
/// inside it, moves that entry to the most recent end.
#[verifier::external_body]
fn height_proposal_cache_contains(c: &mut LruCache<u64, ProposalRoundCollector>, k: u64) -> (res: bool)
    ensures
        res == lru_get(height_proposal_cache_entries(*old(c)), k) is Some,
        height_proposal_cache_entries(*final(c)) == lru_touch(height_proposal_cache_entries(*old(c)), k),
        height_proposal_cache_capacity(*final(c)) == height_proposal_cache_capacity(*old(c)),
{
    c.contains_key(&k)
}

/// `LruCache::remove` for proposal round collectors by height.
///
/// Claims that it takes out and returns the entry of the key, if any, and
/// leaves the order of the others.
#[verifier::external_body]
fn height_proposal_cache_remove(c: &mut LruCache<u64, ProposalRoundCollector>, k: u64) -> (res: Option<ProposalRoundCollector>)
    ensures
        match res {
            Some(v) => lru_get(height_proposal_cache_entries(*old(c)), k) == Some(v@),
            None => lru_get(height_proposal_cache_entries(*old(c)), k) is None,
        },
        height_proposal_cache_entries(*final(c)) == lru_remove(height_proposal_cache_entries(*old(c)), k),
        height_proposal_cache_capacity(*final(c)) == height_proposal_cache_capacity(*old(c)),
{
    c.remove(&k)
}

/// `LruCache::insert` for proposal round collectors by height.
///
/// Claims that the entry of the key goes to the most recent end with the new
/// value, and that the least recently used entry leaves when the cache holds
/// more than its capacity.
#[verifier::external_body]
fn height_proposal_cache_insert(c: &mut LruCache<u64, ProposalRoundCollector>, k: u64, v: ProposalRoundCollector)
    ensures
        height_proposal_cache_entries(*final(c)) == lru_insert(
            height_proposal_cache_entries(*old(c)),
            k,
            v@,
            height_proposal_cache_capacity(*old(c)),
        ),
        height_proposal_cache_capacity(*final(c)) == height_proposal_cache_capacity(*old(c)),
{
    c.insert(k, v);
}

// ----------------------------------------------------------------------------
// Reading back what was added
// ----------------------------------------------------------------------------
/// After adding a vote to a vote set, the vote is there, with the added
/// signed vote when it was added.
pub proof fn lemma_vs_add_get(
    set: Seq<(BftVoteView, SignedVoteView)>,
    k: BftVoteView,
    v: SignedVoteView,
)
    ensures
        vs_get(vs_add(set, k, v).0, k) is Some,
        vs_add(set, k, v).1 ==> vs_get(vs_add(set, k, v).0, k) == Some(v),
{
    if vs_get(set, k) is None {
        assert(set.push((k, v)).last() == (k, v));
        assert(set.push((k, v)).drop_last() =~= set);
    }
}

/// A round collector's cache can hold an entry and holds no more entries
/// than its capacity.
pub open spec fn rc_wf(rc: RoundCollectorView) -> bool {
    rc.capacity >= 1 && rc.entries.len() <= rc.capacity
}

/// Every cache in a vote collector can hold an entry and holds no more
/// entries than its capacity.
pub open spec fn vc_wf(vc: VoteCollectorView) -> bool {
    &&& vc.capacity >= 1
    &&& vc.entries.len() <= vc.capacity
    &&& forall|i: int| 0 <= i < vc.entries.len() ==> rc_wf((#[trigger] vc.entries[i]).1)
}

/// What the vote collector adds it gives back: after a signed vote is added
/// under a vote of a height, round and type, the set of that height, round
/// and type holds the vote, with the added signed vote when it was added.
pub proof fn lemma_vote_collector_add_get(
    vc: VoteCollectorView,
    height: u64,
    round: u64,
    t: VoteType,
    k: BftVoteView,
    v: SignedVoteView,
)
    requires
        vc_wf(vc),
    ensures
        ({
            let (vc2, added) = vc_add(vc, height, round, t, k, v);
            let set = vc_get_vote_set(vc2, height, round, t).1;
            &&& (set matches Some(s) && vs_get(s, k) is Some)
            &&& (added ==> (set matches Some(s) && vs_get(s, k) == Some(v)))
        }),
{
    let touched = lru_touch(vc.entries, height);
    let rc = match lru_get(vc.entries, height) {
        Some(rc) => {
            crate::lru::lemma_lru_get_mem(vc.entries, height);
            rc
        },
        None => rc_empty(),
    };
    assert(rc.capacity >= 1);
    let (rc2, added) = rc_add(rc, round, t, k, v);
    let base = match lru_get(vc.entries, height) {
        Some(_) => lru_remove(touched, height),
        None => touched,
    };
    crate::lru::lemma_lru_insert_get(base, height, rc2, vc.capacity);
    let vc2 = vc_add(vc, height, round, t, k, v).0;
    assert(vc2.entries == lru_insert(base, height, rc2, vc.capacity));
    assert(lru_get(vc2.entries, height) == Some(rc2));
    // inside the round collector
    let rtouched = lru_touch(rc.entries, round);
    let sc = match lru_get(rc.entries, round) {
        Some(sc) => sc,
        None => step_empty(),
    };
    let (sc2, added2) = step_add(sc, t, k, v);
    let rbase = match lru_get(rc.entries, round) {
        Some(_) => lru_remove(rtouched, round),
        None => rtouched,
    };
    crate::lru::lemma_lru_insert_get(rbase, round, sc2, rc.capacity);
    assert(rc2.entries == lru_insert(rbase, round, sc2, rc.capacity));
    assert(lru_get(rc2.entries, round) == Some(sc2));
    let set0 = match step_get(sc, t) {
        Some(x) => x,
        None => Seq::empty(),
    };
    lemma_vs_add_get(set0, k, v);
    assert(step_get(sc2, t) == Some(vs_add(set0, k, v).0));
}

/// A vote collector reports a signed vote as added exactly when the set of
/// its height, round and type did not hold its vote yet.
pub proof fn lemma_vote_collector_add_reports_new(
    vc: VoteCollectorView,
    height: u64,
    round: u64,
    t: VoteType,
    k: BftVoteView,
    v: SignedVoteView,
)
    ensures
        vc_add(vc, height, round, t, k, v).1 <==> !(vc_get_vote_set(vc, height, round, t).1 matches Some(
            s,
        ) && vs_get(s, k) is Some),
{
}

/// Adding the same vote twice: the second add reports nothing added, and the
/// set keeps the signed vote of the first.
pub proof fn lemma_vote_collector_add_twice(
    vc: VoteCollectorView,
    height: u64,
    round: u64,
    t: VoteType,
    k: BftVoteView,
    v: SignedVoteView,
    w: SignedVoteView,
)
    requires
        vc_wf(vc),
    ensures
        ({
            let vc2 = vc_add(vc, height, round, t, k, v).0;
            let (vc3, added) = vc_add(vc2, height, round, t, k, w);
            &&& !added
            &&& vc_get_vote_set(vc3, height, round, t).1 matches Some(s) && vs_get(s, k)
                == vs_get(vc_get_vote_set(vc2, height, round, t).1.unwrap(), k)
        }),
{
    lemma_vote_collector_add_get(vc, height, round, t, k, v);
    let vc2 = vc_add(vc, height, round, t, k, v).0;
    lemma_vote_collector_add_reports_new(vc2, height, round, t, k, w);
    lemma_vc_add_wf(vc, height, round, t, k, v);
    lemma_vote_collector_add_get(vc2, height, round, t, k, w);
}

/// Adding keeps every cache of a vote collector able to hold an entry.
pub proof fn lemma_vc_add_wf(
    vc: VoteCollectorView,
    height: u64,
    round: u64,
    t: VoteType,
    k: BftVoteView,
    v: SignedVoteView,
)
    requires
        vc_wf(vc),
    ensures
        vc_wf(vc_add(vc, height, round, t, k, v).0),
{
    let touched = lru_touch(vc.entries, height);
    let rc = match lru_get(vc.entries, height) {
        Some(rc) => {
            crate::lru::lemma_lru_get_mem(vc.entries, height);
            rc
        },
        None => rc_empty(),
    };
    let (rc2, _) = rc_add(rc, round, t, k, v);
    assert(rc_wf(rc2)) by {
        let rt = lru_touch(rc.entries, round);
        crate::lru::lemma_lru_touch_len(rc.entries, round);
        crate::lru::lemma_lru_remove_len(rt, round);
        let rbase = match lru_get(rc.entries, round) {
            Some(_) => lru_remove(rt, round),
            None => rt,
        };
        let sc2 = match lru_get(rc.entries, round) {
            Some(sc) => step_add(sc, t, k, v).0,
            None => step_add(step_empty(), t, k, v).0,
        };
        crate::lru::lemma_lru_insert_len(rbase, round, sc2, rc.capacity);
    }
    let p = |x: RoundCollectorView| rc_wf(x);
    assert(lru_all(vc.entries, p));
    lemma_lru_all_touch(vc.entries, height, p);
    lemma_lru_all_remove(touched, height, p);
    let base = match lru_get(vc.entries, height) {
        Some(_) => lru_remove(touched, height),
        None => touched,
    };
    lemma_lru_all_insert(base, height, rc2, vc.capacity, p);
    crate::lru::lemma_lru_touch_len(vc.entries, height);
    crate::lru::lemma_lru_remove_len(touched, height);
    crate::lru::lemma_lru_insert_len(base, height, rc2, vc.capacity);
    assert(lru_all(vc_add(vc, height, round, t, k, v).0.entries, p));
}

/// Reading a vote set changes no vote set: after reading the set of one
/// height, round and type, every height, round and type reads the set it
/// read before, and the collector stays well formed.
pub proof fn lemma_vote_collector_read_keeps(
    vc: VoteCollectorView,
    height: u64,
    round: u64,
    t: VoteType,
    h2: u64,
    r2: u64,
    t2: VoteType,
)
    requires
        vc_wf(vc),
    ensures
        ({
            let vc2 = vc_get_vote_set(vc, height, round, t).0;
            &&& vc_wf(vc2)
            &&& vc_get_vote_set(vc2, h2, r2, t2).1 == vc_get_vote_set(vc, h2, r2, t2).1
        }),
{
    let vc2 = vc_get_vote_set(vc, height, round, t).0;
    match lru_get(vc.entries, height) {
        None => {
            crate::lru::lemma_lru_touch_absent(vc.entries, height);
        },
        Some(rc) => {
            crate::lru::lemma_lru_get_mem(vc.entries, height);
            assert(rc_wf(rc));
            let rc2 = rc_get_vote_set(rc, round, t).0;
            match lru_get(rc.entries, round) {
                None => {
                    crate::lru::lemma_lru_touch_absent(rc.entries, round);
                },
                Some(sc) => {
                    crate::lru::lemma_lru_reinsert(rc.entries, round, sc, rc.capacity, r2);
                },
            }
            assert(rc_wf(rc2));
            assert(lru_get(rc2.entries, r2) == lru_get(rc.entries, r2));
            crate::lru::lemma_lru_reinsert(vc.entries, height, rc2, vc.capacity, h2);
            let p = |x: RoundCollectorView| rc_wf(x);
            assert(lru_all(vc.entries, p));
            let touched = lru_touch(vc.entries, height);
            lemma_lru_all_touch(vc.entries, height, p);
            lemma_lru_all_remove(touched, height, p);
            lemma_lru_all_insert(lru_remove(touched, height), height, rc2, vc.capacity, p);
            assert(lru_all(vc2.entries, p));
        },
    }
}

/// Whether each vote of a vote set is the vote of the BFT core that its
/// signed vote stands for, and no vote occurs twice.
pub open spec fn vs_keyed(s: Seq<(BftVoteView, SignedVoteView)>) -> bool {
    &&& forall|i: int| 0 <= i < s.len() ==> (#[trigger] s[i]).0 == crate::types::vote_to_bft(s[i].1.vote)
    &&& crate::consensus::keys_distinct(s)
}

/// A vote that a vote set finds nothing under is the key of none of its
/// entries.
pub proof fn lemma_vs_get_none(s: Seq<(BftVoteView, SignedVoteView)>, k: BftVoteView)
    requires
        vs_get(s, k) is None,
    ensures
        forall|i: int| 0 <= i < s.len() ==> (#[trigger] s[i]).0 != k,
    decreases s.len(),
{
    if s.len() > 0 {
        lemma_vs_get_none(s.drop_last(), k);
        assert forall|i: int| 0 <= i < s.len() implies (#[trigger] s[i]).0 != k by {
            if i < s.len() - 1 {
                assert(s.drop_last()[i] == s[i]);
            }
        }
    }
}

/// Whether both vote sets of a step collector are keyed by their votes.
pub open spec fn step_keyed(sc: StepCollectorView) -> bool {
    &&& sc.prevotes matches Some(x) ==> vs_keyed(x)
    &&& sc.precommits matches Some(x) ==> vs_keyed(x)
}

/// Whether every vote set of a round collector is keyed by its votes.
pub open spec fn rc_keyed(rc: RoundCollectorView) -> bool {
    lru_all(rc.entries, |sc: StepCollectorView| step_keyed(sc))
}

/// Whether every vote set of a vote collector is keyed by its votes: each
/// signed vote is held under the vote of the BFT core that it stands for,
/// and no vote occurs twice in a set.
pub open spec fn vc_keyed(vc: VoteCollectorView) -> bool {
    lru_all(vc.entries, |rc: RoundCollectorView| rc_keyed(rc))
}

/// A signed vote found in a keyed vote set stands for the vote it was
/// looked up by.
pub proof fn lemma_vs_get_keyed(s: Seq<(BftVoteView, SignedVoteView)>, k: BftVoteView)
    requires
        vs_keyed(s),
    ensures
        vs_get(s, k) matches Some(v) ==> crate::types::vote_to_bft(v.vote) == k,
    decreases s.len(),
{
    if s.len() > 0 && s.last().0 != k {
        assert(vs_keyed(s.drop_last())) by {
            assert forall|i: int| 0 <= i < s.drop_last().len() implies (#[trigger] s.drop_last()[i]).0
                == crate::types::vote_to_bft(s.drop_last()[i].1.vote) by {
                assert(s.drop_last()[i] == s[i]);
            }
            assert forall|i: int, j: int| 0 <= i < j < s.drop_last().len() implies #[trigger] s.drop_last()[i].0
                != #[trigger] s.drop_last()[j].0 by {
                assert(s.drop_last()[i] == s[i]);
                assert(s.drop_last()[j] == s[j]);
            }
        }
        lemma_vs_get_keyed(s.drop_last(), k);
    } else if s.len() > 0 {
        assert(s.last() == s[s.len() - 1]);
    }
}

/// Adding a signed vote under the vote it stands for keeps a vote set
/// keyed.
pub proof fn lemma_vs_add_keyed(s: Seq<(BftVoteView, SignedVoteView)>, k: BftVoteView, v: SignedVoteView)
    requires
        vs_keyed(s),
        k == crate::types::vote_to_bft(v.vote),
    ensures
        vs_keyed(vs_add(s, k, v).0),
{
    let r = vs_add(s, k, v).0;
    assert forall|i: int| 0 <= i < r.len() implies (#[trigger] r[i]).0 == crate::types::vote_to_bft(
        r[i].1.vote,
    ) by {
        if i < s.len() {
            assert(r[i] == s[i]);
        }
    }
    if vs_get(s, k) is None {
        lemma_vs_get_none(s, k);
        assert forall|i: int, j: int| 0 <= i < j < r.len() implies #[trigger] r[i].0 != #[trigger] r[j].0 by {
            assert(r[i] == s[i]);
            if j < s.len() {
                assert(r[j] == s[j]);
            }
        }
    }
}

/// Adding a signed vote under the vote it stands for keeps a step collector
/// keyed.
pub proof fn lemma_step_add_keyed(sc: StepCollectorView, t: VoteType, k: BftVoteView, v: SignedVoteView)
    requires
        step_keyed(sc),
        k == crate::types::vote_to_bft(v.vote),
    ensures
        step_keyed(step_add(sc, t, k, v).0),
{
    let set = match step_get(sc, t) {
        Some(x) => x,
        None => Seq::empty(),
    };
    lemma_vs_add_keyed(set, k, v);
}

/// Adding a signed vote under the vote it stands for keeps a round
/// collector keyed.
pub proof fn lemma_rc_add_keyed(
    rc: RoundCollectorView,
    round: u64,
    t: VoteType,
    k: BftVoteView,
    v: SignedVoteView,
)
    requires
        rc_keyed(rc),
        k == crate::types::vote_to_bft(v.vote),
    ensures
        rc_keyed(rc_add(rc, round, t, k, v).0),
{
    let p = |sc: StepCollectorView| step_keyed(sc);
    let touched = lru_touch(rc.entries, round);
    lemma_lru_all_touch(rc.entries, round, p);
    let sc = match lru_get(rc.entries, round) {
        Some(sc) => {
            crate::lru::lemma_lru_get_mem(rc.entries, round);
            let i = choose|i: int| 0 <= i < rc.entries.len() && rc.entries[i] == (round, sc);
            assert(p(rc.entries[i].1));
            sc
        },
        None => step_empty(),
    };
    lemma_step_add_keyed(sc, t, k, v);
    let sc2 = step_add(sc, t, k, v).0;
    let base = match lru_get(rc.entries, round) {
        Some(_) => {
            lemma_lru_all_remove(touched, round, p);
            lru_remove(touched, round)
        },
        None => touched,
    };
    lemma_lru_all_insert(base, round, sc2, rc.capacity, p);
}

/// Adding a signed vote under the vote it stands for keeps a vote collector
/// keyed.
pub proof fn lemma_vc_add_keyed(
    vc: VoteCollectorView,
    height: u64,
    round: u64,
    t: VoteType,
    k: BftVoteView,
    v: SignedVoteView,
)
    requires
        vc_keyed(vc),
        k == crate::types::vote_to_bft(v.vote),
    ensures
        vc_keyed(vc_add(vc, height, round, t, k, v).0),
{
    let p = |rc: RoundCollectorView| rc_keyed(rc);
    let touched = lru_touch(vc.entries, height);
    lemma_lru_all_touch(vc.entries, height, p);
    let rc = match lru_get(vc.entries, height) {
        Some(rc) => {
            crate::lru::lemma_lru_get_mem(vc.entries, height);
            let i = choose|i: int| 0 <= i < vc.entries.len() && vc.entries[i] == (height, rc);
            assert(p(vc.entries[i].1));
            rc
        },
        None => rc_empty(),
    };
    lemma_rc_add_keyed(rc, round, t, k, v);
    let rc2 = rc_add(rc, round, t, k, v).0;
    let base = match lru_get(vc.entries, height) {
        Some(_) => {
            lemma_lru_all_remove(touched, height, p);
            lru_remove(touched, height)
        },
        None => touched,
    };
    lemma_lru_all_insert(base, height, rc2, vc.capacity, p);
}

/// Reading a vote set keeps a vote collector keyed, and the set read is
/// keyed.
pub proof fn lemma_vc_get_keyed(vc: VoteCollectorView, height: u64, round: u64, t: VoteType)
    requires
        vc_keyed(vc),
    ensures
        vc_keyed(vc_get_vote_set(vc, height, round, t).0),
        vc_get_vote_set(vc, height, round, t).1 matches Some(s) ==> vs_keyed(s),
{
    let p = |rc: RoundCollectorView| rc_keyed(rc);
    let q = |sc: StepCollectorView| step_keyed(sc);
    let touched = lru_touch(vc.entries, height);
    lemma_lru_all_touch(vc.entries, height, p);
    if let Some(rc) = lru_get(vc.entries, height) {
        crate::lru::lemma_lru_get_mem(vc.entries, height);
        let i = choose|i: int| 0 <= i < vc.entries.len() && vc.entries[i] == (height, rc);
        assert(p(vc.entries[i].1));
        let rtouched = lru_touch(rc.entries, round);
        lemma_lru_all_touch(rc.entries, round, q);
        if let Some(sc) = lru_get(rc.entries, round) {
            crate::lru::lemma_lru_get_mem(rc.entries, round);
            let j = choose|j: int| 0 <= j < rc.entries.len() && rc.entries[j] == (round, sc);
            assert(q(rc.entries[j].1));
            lemma_lru_all_remove(rtouched, round, q);
            lemma_lru_all_insert(lru_remove(rtouched, round), round, sc, rc.capacity, q);
        }
        let rc2 = rc_get_vote_set(rc, round, t).0;
        assert(rc_keyed(rc2));
        lemma_lru_all_remove(touched, height, p);
        lemma_lru_all_insert(lru_remove(touched, height), height, rc2, vc.capacity, p);
    }
}

/// Looking lock votes up in a keyed vote set finds, for each vote asked
/// for, a signed vote that stands for it, in the order asked.
pub proof fn lemma_lock_votes_lookup_keyed(
    set: Seq<(BftVoteView, SignedVoteView)>,
    votes: Seq<BftVoteView>,
)
    requires
        vs_keyed(set),
    ensures
        crate::consensus::lock_votes_lookup(set, votes) matches Some(found) ==> found.len() == votes.len() && forall|
            i: int,
        |
            0 <= i < votes.len() ==> crate::types::vote_to_bft((#[trigger] found[i]).vote) == votes[i],
    decreases votes.len(),
{
    if votes.len() > 0 {
        lemma_lock_votes_lookup_keyed(set, votes.drop_last());
        lemma_vs_get_keyed(set, votes.last());
        if let Some(found) = crate::consensus::lock_votes_lookup(set, votes) {
            let acc = crate::consensus::lock_votes_lookup(set, votes.drop_last()).unwrap();
            assert forall|i: int| 0 <= i < votes.len() implies crate::types::vote_to_bft(
                (#[trigger] found[i]).vote,
            ) == votes[i] by {
                if i < votes.len() - 1 {
                    assert(found[i] == acc[i]);
                    assert(votes[i] == votes.drop_last()[i]);
                }
            }
        }
    }
}

/// When every signed vote is held under the vote it stands for, the signed
/// lock votes that a locked proposal of the BFT core finds stand for its
/// lock votes, one for one and in order, and the lookup keeps the votes so
/// held.
pub proof fn lemma_proposal_lock_stage_keyed(
    votes: VoteCollectorView,
    p: crate::core_types::BftProposalView,
)
    requires
        vc_keyed(votes),
    ensures
        ({
            let (vc2, r) = crate::consensus::proposal_lock_stage(votes, p);
            &&& vc_keyed(vc2)
            &&& p.lock_round is Some ==> (r matches Ok(lv) ==> lv.len() == p.lock_votes.len()
                && forall|i: int|
                0 <= i < lv.len() ==> crate::types::vote_to_bft((#[trigger] lv[i]).vote) == p.lock_votes[i])
        }),
{
    if p.lock_round is Some {
        lemma_vc_get_keyed(votes, p.height, p.round, VoteType::Prevote);
        if let Some(set) = vc_get_vote_set(votes, p.height, p.round, VoteType::Prevote).1 {
            lemma_lock_votes_lookup_keyed(set, p.lock_votes);
        }
    }
}

/// Handling a signed vote keeps every signed vote held under the vote it
/// stands for.
pub proof fn lemma_after_signed_vote_keyed<F: crate::Content, T: crate::ConsensusSupport<F>>(
    s: crate::consensus::ConsensusView<F>,
    support: T,
    sv: SignedVoteView,
)
    requires
        vc_keyed(s.votes),
    ensures
        vc_keyed(crate::consensus::after_signed_vote(s, support, sv).votes),
{
    lemma_vc_add_keyed(
        s.votes,
        sv.vote.height,
        sv.vote.round,
        sv.vote.vote_type,
        crate::types::vote_to_bft(sv.vote),
        sv,
    );
}

/// Adding a checked lock vote as a prevote keeps every signed vote held
/// under the vote it stands for.
pub proof fn lemma_with_prevote_keyed<F>(
    s: crate::consensus::ConsensusView<F>,
    height: u64,
    round: u64,
    sv: SignedVoteView,
)
    requires
        vc_keyed(s.votes),
    ensures
        vc_keyed(crate::consensus::with_prevote(s, height, round, sv).votes),
{
    lemma_vc_add_keyed(s.votes, height, round, VoteType::Prevote, crate::types::vote_to_bft(sv.vote), sv);
}

/// Signing a vote of the BFT core keeps every signed vote held under the
/// vote it stands for.
pub proof fn lemma_vote_post_keyed<F: crate::Content, T: crate::ConsensusSupport<F>>(
    support: T,
    s: crate::consensus::ConsensusView<F>,
    s2: crate::consensus::ConsensusView<F>,
    vote: BftVote,
    res: crate::consensus::Result<SignedVote>,
)
    requires
        vc_keyed(s.votes),
        crate::consensus::vote_post(support, s, s2, vote, res),
    ensures
        vc_keyed(s2.votes),
{
    if let Ok(sv) = res {
        if vote.height >= s.height {
            assert(vote@ == crate::types::vote_to_bft(sv.vote@));
            lemma_vc_add_keyed(s.votes, vote.height, vote.round, vote.vote_type, vote@, sv@);
        }
    }
}

/// Checking lock votes keeps every signed vote held under the vote it
/// stands for.
pub proof fn lemma_lock_votes_fold_keyed<F: crate::Content, T: crate::ConsensusSupport<F>>(
    s: crate::consensus::ConsensusView<F>,
    support: T,
    height: u64,
    lock_round: u64,
    hash: Seq<u8>,
    votes: Seq<SignedVoteView>,
)
    requires
        vc_keyed(s.votes),
    ensures
        vc_keyed(crate::consensus::lock_votes_fold(s, support, height, lock_round, hash, votes).0.votes),
    decreases votes.len(),
{
    if votes.len() > 0 {
        lemma_lock_votes_fold_keyed(s, support, height, lock_round, hash, votes.drop_last());
        let s1 = crate::consensus::lock_votes_fold(s, support, height, lock_round, hash, votes.drop_last()).0;
        lemma_with_prevote_keyed(s1, height, lock_round, votes.last());
    }
}

/// Handling a signed proposal keeps every signed vote held under the vote
/// it stands for.
pub proof fn lemma_signed_proposal_step_keyed<F: crate::Content, T: crate::ConsensusSupport<F>>(
    s: crate::consensus::ConsensusView<F>,
    support: T,
    sp: SignedProposalView,
)
    requires
        vc_keyed(s.votes),
    ensures
        vc_keyed(crate::consensus::signed_proposal_step(s, support, sp).0.votes),
{
    let p = sp.proposal;
    let s1 = crate::consensus::ConsensusView { proposals: pc_add(s.proposals, p.height, p.round, sp).0, ..s };
    if let Some(lr) = p.lock_round {
        lemma_lock_votes_fold_keyed(s1, support, p.height, lr, p.content, p.lock_votes);
    }
}

/// Handling cached signed proposals keeps every signed vote held under the
/// vote it stands for.
pub proof fn lemma_cached_proposals_fold_keyed<F: crate::Content, T: crate::ConsensusSupport<F>>(
    s: crate::consensus::ConsensusView<F>,
    support: T,
    items: Seq<(SignedProposalView, F, Seq<u8>)>,
)
    requires
        vc_keyed(s.votes),
    ensures
        vc_keyed(crate::consensus::cached_proposals_fold(s, support, items).0.votes),
    decreases items.len(),
{
    if items.len() > 0 {
        lemma_cached_proposals_fold_keyed(s, support, items.drop_last());
        let s1 = crate::consensus::cached_proposals_fold(s, support, items.drop_last()).0;
        lemma_signed_proposal_step_keyed(s1, support, items.last().0);
    }
}

/// Handling cached signed votes keeps every signed vote held under the vote
/// it stands for.
pub proof fn lemma_cached_votes_fold_keyed<F: crate::Content, T: crate::ConsensusSupport<F>>(
    s: crate::consensus::ConsensusView<F>,
    support: T,
    votes: Seq<SignedVoteView>,
)
    requires
        vc_keyed(s.votes),
    ensures
        vc_keyed(crate::consensus::cached_votes_fold(s, support, votes).0.votes),
    decreases votes.len(),
{
    if votes.len() > 0 {
        lemma_cached_votes_fold_keyed(s, support, votes.drop_last());
        let s1 = crate::consensus::cached_votes_fold(s, support, votes.drop_last()).0;
        lemma_after_signed_vote_keyed(s1, support, votes.last());
    }
}

/// Receiving a rich status keeps every signed vote held under the vote it
/// stands for.
pub proof fn lemma_status_keyed<F: crate::Content, T: crate::ConsensusSupport<F>>(
    s: crate::consensus::ConsensusView<F>,
    support: T,
    height: u64,
    interval: Option<u64>,
    authority_list: Seq<crate::types::NodeView>,
)
    requires
        vc_keyed(s.votes),
    ensures
        vc_keyed(crate::consensus::status_outcome(s, support, height, interval, authority_list).0.votes),
{
    if height >= s.height {
        let s1 = crate::consensus::spec_goto_new_height(
            crate::consensus::ConsensusView {
                authority: crate::types::spec_update_authority(s.authority, s.height, authority_list),
                ..s
            },
            height,
        );
        let addrs = crate::types::node_addresses(authority_list);
        let (power, _) = crate::consensus::power_after::<F>(s.consensus_power, s.address, addrs);
        let s2 = crate::consensus::ConsensusView { consensus_power: power, ..s1 };
        let (items_p, rest_p) = crate::consensus::cache_take(s2.proposal_cache, s2.height);
        let s3 = crate::consensus::ConsensusView { proposal_cache: rest_p, ..s2 };
        lemma_cached_proposals_fold_keyed(s3, support, items_p);
        let s4 = crate::consensus::cached_proposals_fold(s3, support, items_p).0;
        let (items_v, rest_v) = crate::consensus::cache_take(s4.vote_cache, s4.height);
        lemma_cached_votes_fold_keyed(crate::consensus::ConsensusView { vote_cache: rest_v, ..s4 }, support, items_v);
    }
}

/// Taking a message from the node keeps every signed vote held under the
/// vote it stands for.
pub proof fn lemma_external_keyed<F: crate::Content, T: crate::ConsensusSupport<F>>(
    s: crate::consensus::ConsensusView<F>,
    s2: crate::consensus::ConsensusView<F>,
    support: T,
    msg: crate::types::ConsensusInput,
    res: crate::consensus::Result<()>,
    out: Seq<crate::consensus::Action<F>>,
    out2: Seq<crate::consensus::Action<F>>,
)
    requires
        vc_keyed(s.votes),
        crate::consensus::external_post(s, s2, support, msg, res, out, out2),
    ensures
        vc_keyed(s2.votes),
{
    match msg {
        crate::types::ConsensusInput::SignedProposal(b) => {
            if let Some((sp, blk, hash)) = crate::consensus::proposal_frame_parts(b@) {
                if s2 != s {
                    let (block, kept) = choose|block: F, kept: F|
                        #![trigger cloned(block, kept)]
                        F::decodes_to(blk, block) && cloned(block, kept) && {
                            let o = crate::consensus::receive_proposal_outcome(
                                s,
                                support,
                                sp,
                                kept,
                                block,
                                hash,
                                b@,
                            );
                            &&& s2 == o.0
                            &&& res == o.1
                            &&& crate::consensus::answers_all(
                                support,
                                crate::consensus::actions_view(out2),
                                crate::consensus::actions_view(out) + o.2,
                            )
                        };
                    let s1 = crate::consensus::ConsensusView {
                        block_origin_cache: crate::consensus::key_or_insert(s.block_origin_cache, hash, kept),
                        ..s
                    };
                    lemma_signed_proposal_step_keyed(s1, support, sp);
                }
            }
        },
        crate::types::ConsensusInput::SignedVote(b) => {
            if let Some(sv) = crate::rlp_decode::spec_decode_signed_vote(b@) {
                lemma_after_signed_vote_keyed(s, support, sv);
            }
        },
        crate::types::ConsensusInput::Status(rs) => {
            lemma_status_keyed(s, support, rs.height, rs.interval, crate::types::nodes_view(rs.authority_list@));
        },
    }
}

/// Signing and framing a proposal of the BFT core keeps every signed vote
/// held under the vote it stands for.
pub proof fn lemma_proposal_post_keyed<F: crate::Content, T: crate::ConsensusSupport<F>>(
    support: T,
    s: crate::consensus::ConsensusView<F>,
    s2: crate::consensus::ConsensusView<F>,
    o0: Seq<crate::consensus::Action<F>>,
    o1: Seq<crate::consensus::Action<F>>,
    proposal: crate::core_types::BftProposal,
    res: crate::consensus::Result<Vec<u8>>,
)
    requires
        vc_keyed(s.votes),
        crate::consensus::proposal_post(support, s, s2, o0, o1, proposal, res),
    ensures
        vc_keyed(s2.votes),
{
    lemma_proposal_lock_stage_keyed(s.votes, proposal@);
}

/// Making a commit keeps every signed vote held under the vote it stands
/// for.
pub proof fn lemma_commit_post_keyed<F: crate::Content>(
    s: crate::consensus::ConsensusView<F>,
    s2: crate::consensus::ConsensusView<F>,
    commit: crate::core_types::BftCommit,
    res: crate::consensus::Result<crate::types::Commit<F>>,
)
    requires
        vc_keyed(s.votes),
        crate::consensus::commit_post(s, s2, commit, res),
    ensures
        vc_keyed(s2.votes),
{
    lemma_vc_get_keyed(s.votes, commit.height, commit.round, VoteType::Precommit);
}

/// Every cache in a proposal collector can hold at least one entry.
pub open spec fn pc_wf(pc: ProposalCollectorView) -> bool {
    &&& pc.capacity >= 1
    &&& forall|i: int| 0 <= i < pc.entries.len() ==> (#[trigger] pc.entries[i]).1.capacity >= 1
}

/// The signed proposal that a proposal collector holds for a height and a
/// round.
pub open spec fn pc_round_get(pc: ProposalCollectorView, height: u64, round: u64) -> Option<
    SignedProposalView,
> {
    match lru_get(pc.entries, height) {
        Some(prc) => lru_get(prc.entries, round),
        None => None,
    }
}

/// A proposal collector keeps the first proposal of a round: adding reports
/// `true` exactly when the round of the height had none, and afterwards the
/// round holds a proposal, the added one when it was added, the one it had
/// otherwise.
pub proof fn lemma_proposal_collector_add_get(
    pc: ProposalCollectorView,
    height: u64,
    round: u64,
    p: SignedProposalView,
)
    requires
        pc_wf(pc),
    ensures
        ({
            let (pc2, added) = pc_add(pc, height, round, p);
            &&& added <==> pc_round_get(pc, height, round) is None
            &&& pc_round_get(pc2, height, round) == if added {
                Some(p)
            } else {
                pc_round_get(pc, height, round)
            }
            &&& pc_wf(pc2)
        }),
{
    let touched = lru_touch(pc.entries, height);
    let prc = match lru_get(pc.entries, height) {
        Some(prc) => {
            crate::lru::lemma_lru_get_mem(pc.entries, height);
            prc
        },
        None => prc_empty(),
    };
    assert(prc.capacity >= 1);
    let (prc2, _) = prc_add(prc, round, p);
    if lru_get(prc.entries, round) is None {
        crate::lru::lemma_lru_insert_get(prc.entries, round, p, prc.capacity);
    } else {
        crate::lru::lemma_lru_touch_get(prc.entries, round, round);
    }
    let base = match lru_get(pc.entries, height) {
        Some(_) => lru_remove(touched, height),
        None => touched,
    };
    crate::lru::lemma_lru_insert_get(base, height, prc2, pc.capacity);
    let q = |x: ProposalRoundCollectorView| x.capacity >= 1;
    assert(lru_all(pc.entries, q));
    lemma_lru_all_touch(pc.entries, height, q);
    lemma_lru_all_remove(touched, height, q);
    lemma_lru_all_insert(base, height, prc2, pc.capacity, q);
    assert(lru_all(pc_add(pc, height, round, p).0.entries, q));
}

} // verus!
