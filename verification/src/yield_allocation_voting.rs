//! Yield-allocation voting: after a yield cycle, the members of a circle vote on how the
//! yield is split among strategies, each vote weighted by the voter's reliability index.
//!
//! `VotingStore` holds the storage the voting functions read and write: the circles, the
//! contract administrator, one voting session per circle, the votes, the weighted tallies and
//! the voting configuration.
use crate::collections::{
    lemma_sum_over_empty, lemma_sum_over_congruent, lemma_sum_over_insert, lemma_sum_over_update,
    bytes_equal, sum_over, BytesMap, IdMap,
};
use crate::crypto::{sha256, sha256_hash};
use crate::AccountId;
use vstd::prelude::*;

verus! {

broadcast use vstd::std_specs::hash::group_hash_axioms;

/// Errors of the voting module; `code` gives each its contract error number.
#[derive(Clone, Copy, Debug, PartialEq, Eq, Structural)]
pub enum VotingError {
    VotingNotActive,
    AlreadyVoted,
    InvalidStrategy,
    VotingPeriodExpired,
    Unauthorized,
    InsufficientReliability,
    InvalidVoteWeight,
    TallyFailed,
}

impl VotingError {
    /// The contract error number of this error.
    pub open spec fn error_code(self) -> u32 {
        match self {
            VotingError::VotingNotActive => 401,
            VotingError::AlreadyVoted => 402,
            VotingError::InvalidStrategy => 403,
            VotingError::VotingPeriodExpired => 404,
            VotingError::Unauthorized => 405,
            VotingError::InsufficientReliability => 406,
            VotingError::InvalidVoteWeight => 407,
            VotingError::TallyFailed => 408,
        }
    }

    /// The contract error number of this error.
    pub fn code(&self) -> (c: u32)
        ensures
            c == self.error_code(),
    {
        match self {
            VotingError::VotingNotActive => 401,
            VotingError::AlreadyVoted => 402,
            VotingError::InvalidStrategy => 403,
            VotingError::VotingPeriodExpired => 404,
            VotingError::Unauthorized => 405,
            VotingError::InsufficientReliability => 406,
            VotingError::InvalidVoteWeight => 407,
            VotingError::TallyFailed => 408,
        }
    }
}

/// Kind of yield strategy a share is allocated to.
#[derive(Clone, Copy, Debug, PartialEq, Eq, Structural)]
pub enum StrategyType {
    /// Automated market maker liquidity.
    AMM,
}

/// One share of a proposed distribution.
#[derive(Clone, Copy, Debug, PartialEq, Eq, Structural)]
pub struct DistributionStrategy {
    /// The strategy contract.
    pub strategy_address: AccountId,
    /// Share of the yield in basis points (10000 = 100%).
    pub allocation_percentage: u32,
    pub strategy_type: StrategyType,
    pub min_apy_bps: u32,
    /// 0-10000, lower is safer.
    pub risk_score: u32,
}

/// A recorded vote.
#[derive(Debug)]
pub struct Vote {
    pub voter: AccountId,
    pub circle_id: u64,
    pub voted_strategies: Vec<DistributionStrategy>,
    /// The voter's reliability index when voting (0-10000 basis points).
    pub reliability_index: u32,
    /// The weight derived from the reliability index.
    pub vote_weight: u64,
    pub timestamp: u64,
}

/// The value of a `Vote`.
pub struct VoteView {
    pub voter: AccountId,
    pub circle_id: u64,
    pub voted_strategies: Seq<DistributionStrategy>,
    pub reliability_index: u32,
    pub vote_weight: u64,
    pub timestamp: u64,
}

impl View for Vote {
    type V = VoteView;

    open spec fn view(&self) -> VoteView {
        VoteView {
            voter: self.voter,
            circle_id: self.circle_id,
            voted_strategies: self.voted_strategies@,
            reliability_index: self.reliability_index,
            vote_weight: self.vote_weight,
            timestamp: self.timestamp,
        }
    }
}

/// A copy of a list of strategies.
fn copy_strategies(v: &Vec<DistributionStrategy>) -> (r: Vec<DistributionStrategy>)
    ensures
        r@ == v@,
{
    let mut r: Vec<DistributionStrategy> = Vec::new();
    let mut i: usize = 0;
    while i < v.len()
        invariant
            i <= v.len(),
            r@ == v@.take(i as int),
        decreases v.len() - i,
    {
        r.push(v[i]);
        assert(r@ =~= v@.take(i + 1));
        i = i + 1;
    }
    assert(v@.take(v.len() as int) =~= v@);
    r
}

impl Clone for Vote {
    fn clone(&self) -> (r: Self)
        ensures
            r@ == self@,
    {
        Vote {
            voter: self.voter,
            circle_id: self.circle_id,
            voted_strategies: copy_strategies(&self.voted_strategies),
            reliability_index: self.reliability_index,
            vote_weight: self.vote_weight,
            timestamp: self.timestamp,
        }
    }
}

/// The voting session of a circle.
#[derive(Debug)]
pub struct VotingSession {
    pub circle_id: u64,
    pub start_timestamp: u64,
    pub end_timestamp: u64,
    pub total_votes_weight: u64,
    pub is_active: bool,
    pub winning_strategy: Option<Vec<DistributionStrategy>>,
    /// Minimum participation in basis points.
    pub vote_threshold: u32,
}

/// The value of a `VotingSession`.
pub struct SessionView {
    pub circle_id: u64,
    pub start_timestamp: u64,
    pub end_timestamp: u64,
    pub total_votes_weight: u64,
    pub is_active: bool,
    pub winning_strategy: Option<Seq<DistributionStrategy>>,
    pub vote_threshold: u32,
}

impl View for VotingSession {
    type V = SessionView;

    open spec fn view(&self) -> SessionView {
        SessionView {
            circle_id: self.circle_id,
            start_timestamp: self.start_timestamp,
            end_timestamp: self.end_timestamp,
            total_votes_weight: self.total_votes_weight,
            is_active: self.is_active,
            winning_strategy: match self.winning_strategy {
                Some(w) => Some(w@),
                None => None,
            },
            vote_threshold: self.vote_threshold,
        }
    }
}

impl Clone for VotingSession {
    fn clone(&self) -> (r: Self)
        ensures
            r@ == self@,
    {
        VotingSession {
            circle_id: self.circle_id,
            start_timestamp: self.start_timestamp,
            end_timestamp: self.end_timestamp,
            total_votes_weight: self.total_votes_weight,
            is_active: self.is_active,
            winning_strategy: match &self.winning_strategy {
                Some(w) => Some(copy_strategies(w)),
                None => None,
            },
            vote_threshold: self.vote_threshold,
        }
    }
}

/// The accumulated weight of the votes for one distribution.
#[derive(Debug)]
pub struct VoteTally {
    /// The hash identifying the distribution.
    pub strategy_hash: Vec<u8>,
    pub total_weight: u64,
    pub voter_count: u32,
}

/// The value of a `VoteTally`.
pub struct TallyView {
    pub strategy_hash: Seq<u8>,
    pub total_weight: u64,
    pub voter_count: u32,
}

impl View for VoteTally {
    type V = TallyView;

    open spec fn view(&self) -> TallyView {
        TallyView {
            strategy_hash: self.strategy_hash@,
            total_weight: self.total_weight,
            voter_count: self.voter_count,
        }
    }
}

/// Voting parameters.
#[derive(Clone, Copy, Debug, PartialEq, Eq, Structural)]
pub struct VotingConfig {
    /// Default 172800 (48 hours).
    pub voting_duration_seconds: u64,
    /// Default 5000 (50%).
    pub min_participation_threshold: u32,
    /// Default 3000 (30%).
    pub min_reliability_threshold: u32,
    /// Multiplier of the reliability-based weight; default 100.
    pub weight_multiplier: u64,
}

impl View for VotingConfig {
    type V = VotingConfig;

    open spec fn view(&self) -> VotingConfig {
        *self
    }
}

/// What the voting functions read of a circle.
#[derive(Clone, Copy, Debug, PartialEq, Eq, Structural)]
pub struct CircleInfo {
    /// The circle's member capacity.
    pub max_members: u16,
    /// Whether the circle's funds earn yield.
    pub yield_enabled: bool,
}

impl View for CircleInfo {
    type V = CircleInfo;

    open spec fn view(&self) -> CircleInfo {
        *self
    }
}

/// The configuration used when none is stored.
pub open spec fn default_voting_config() -> VotingConfig {
    VotingConfig {
        voting_duration_seconds: 172800,
        min_participation_threshold: 5000,
        min_reliability_threshold: 3000,
        weight_multiplier: 100,
    }
}

/// The reliability index every voter is credited with (75%).
pub const DEFAULT_RELIABILITY_INDEX: u32 = 7500;

/// The weight of a vote cast with reliability index `reliability_index`.
pub open spec fn vote_weight_of(reliability_index: u32, multiplier: u64) -> int {
    (reliability_index * multiplier) / 10000
}

/// The sum of the allocations of `s`.
pub open spec fn allocation_sum(s: Seq<DistributionStrategy>) -> int
    decreases s.len(),
{
    if s.len() == 0 {
        0
    } else {
        allocation_sum(s.drop_last()) + s.last().allocation_percentage
    }
}

/// The eight little-endian bytes of `x`.
pub open spec fn u64_le_bytes(x: u64) -> Seq<u8> {
    seq![
        x as u8,
        (x >> 8u64) as u8,
        (x >> 16u64) as u8,
        (x >> 24u64) as u8,
        (x >> 32u64) as u8,
        (x >> 40u64) as u8,
        (x >> 48u64) as u8,
        (x >> 56u64) as u8,
    ]
}

/// The four little-endian bytes of `x`.
pub open spec fn u32_le_bytes(x: u32) -> Seq<u8> {
    seq![x as u8, (x >> 8u32) as u8, (x >> 16u32) as u8, (x >> 24u32) as u8]
}

/// The bytes hashed to identify a distribution: for each share in order, the strategy
/// address followed by the allocation, both little-endian.
pub open spec fn strategy_preimage(s: Seq<DistributionStrategy>) -> Seq<u8>
    decreases s.len(),
{
    if s.len() == 0 {
        Seq::empty()
    } else {
        strategy_preimage(s.drop_last()) + u64_le_bytes(s.last().strategy_address) + u32_le_bytes(
            s.last().allocation_percentage,
        )
    }
}

/// The hash identifying the distribution `s`.
pub open spec fn strategy_hash_of(s: Seq<DistributionStrategy>) -> Seq<u8> {
    sha256_hash(strategy_preimage(s))
}

/// The value of the voting storage.
pub struct VotingStateView {
    pub admin: Option<AccountId>,
    pub circles: Map<u64, CircleInfo>,
    pub sessions: Map<u64, SessionView>,
    /// Votes by circle, then voter.
    pub votes: Map<u64, Map<AccountId, VoteView>>,
    /// Tallies by circle, then distribution hash.
    pub tallies: Map<u64, Map<Seq<u8>, TallyView>>,
    /// The strategies each circle's session lets votes allocate to.
    pub active_strategies: Map<u64, Seq<AccountId>>,
    pub config: Option<VotingConfig>,
}

impl VotingStateView {
    /// The configuration in force.
    pub open spec fn config_in_force(self) -> VotingConfig {
        match self.config {
            Some(c) => c,
            None => default_voting_config(),
        }
    }

    /// `voter` has voted in the session of circle `circle_id`.
    pub open spec fn has_voted(self, voter: AccountId, circle_id: u64) -> bool {
        self.votes.contains_key(circle_id) && self.votes[circle_id].contains_key(voter)
    }

    /// The tallies of circle `circle_id`.
    pub open spec fn tallies_of(self, circle_id: u64) -> Map<Seq<u8>, TallyView> {
        if self.tallies.contains_key(circle_id) {
            self.tallies[circle_id]
        } else {
            Map::empty()
        }
    }

    /// Votes and tallies agree: every circle with tallies has a session, each tally is stored
    /// under its own hash, carries no more weight than the session's total and no more voters
    /// than the circle has votes, and each circle holds finitely many votes.
    pub open spec fn tallies_consistent(self) -> bool {
        &&& forall|c: u64| #[trigger] self.votes.contains_key(c) ==> self.votes[c].dom().finite()
        &&& forall|c: u64| #[trigger]
            self.tallies.contains_key(c) ==> self.sessions.contains_key(c) && forall|h: Seq<u8>|
                #[trigger] self.tallies[c].contains_key(h) ==> {
                    &&& self.tallies[c][h].strategy_hash == h
                    &&& self.tallies[c][h].total_weight <= self.sessions[c].total_votes_weight
                    &&& self.tallies[c][h].voter_count <= self.votes_of(c).len()
                }
    }

    /// The votes of circle `circle_id`.
    pub open spec fn votes_of(self, circle_id: u64) -> Map<AccountId, VoteView> {
        if self.votes.contains_key(circle_id) {
            self.votes[circle_id]
        } else {
            Map::empty()
        }
    }

    /// The sum of the weights of the votes cast in circle `circle_id`.
    pub open spec fn vote_weight_total(self, circle_id: u64) -> int {
        let votes = self.votes_of(circle_id);
        sum_over(votes.dom(), |v: AccountId| votes[v].vote_weight as int)
    }

    /// The sum of the weights of the tallies of circle `circle_id`.
    pub open spec fn tally_weight_total(self, circle_id: u64) -> int {
        let tallies = self.tallies_of(circle_id);
        sum_over(tallies.dom(), |h: Seq<u8>| tallies[h].total_weight as int)
    }

    /// The sum of the voter counts of the tallies of circle `circle_id`.
    pub open spec fn tally_voter_total(self, circle_id: u64) -> int {
        let tallies = self.tallies_of(circle_id);
        sum_over(tallies.dom(), |h: Seq<u8>| tallies[h].voter_count as int)
    }

    /// Some vote cast in circle `circle_id` is for a distribution with hash `h`.
    pub open spec fn tally_backed(self, circle_id: u64, h: Seq<u8>) -> bool {
        exists|v: AccountId| #[trigger]
            self.votes_of(circle_id).contains_key(v) && strategy_hash_of(
                self.votes_of(circle_id)[v].voted_strategies,
            ) == h
    }

    /// Every vote of circle `c` is accounted for: the circle has votes or tallies only once
    /// it has a session, finitely many of each, each tally is for a distribution some vote
    /// chose, and when it has a session, the session's total weight equals both the sum of
    /// the weights of the circle's votes and the sum of the weights of its tallies, while the
    /// voter counts of its tallies add up to its number of votes.
    pub open spec fn circle_accounted(self, c: u64) -> bool {
        &&& self.votes.contains_key(c) ==> self.sessions.contains_key(c) && self.votes[c].dom().finite()
        &&& self.tallies.contains_key(c) ==> self.sessions.contains_key(c)
            && self.tallies[c].dom().finite()
        &&& forall|h: Seq<u8>| #[trigger] self.tallies_of(c).contains_key(h) ==> self.tally_backed(c, h)
        &&& self.sessions.contains_key(c) ==> {
            &&& self.sessions[c].total_votes_weight == self.vote_weight_total(c)
            &&& self.sessions[c].total_votes_weight == self.tally_weight_total(c)
            &&& self.tally_voter_total(c) == self.votes_of(c).len()
        }
    }

    /// Every vote of every circle is accounted for.
    pub open spec fn votes_accounted(self) -> bool {
        forall|c: u64| #[trigger] self.circle_accounted(c)
    }

    /// The strategies the session of circle `circle_id` lets votes allocate to.
    pub open spec fn strategies_of(self, circle_id: u64) -> Seq<AccountId> {
        if self.active_strategies.contains_key(circle_id) {
            self.active_strategies[circle_id]
        } else {
            Seq::empty()
        }
    }

    /// Every share of `s` goes to a strategy listed for the session of circle `circle_id`,
    /// with a non-zero allocation of at most 100%, and the allocations add up to exactly 100%.
    pub open spec fn strategies_valid(self, circle_id: u64, s: Seq<DistributionStrategy>) -> bool {
        &&& allocation_sum(s) == 10000
        &&& forall|i: int| 0 <= i < s.len() ==> #[trigger] share_valid(self.strategies_of(circle_id), s[i])
    }

    /// Initialization of a session for `circle_id` gets past its checks.
    pub open spec fn can_initialize(self, circle_id: u64) -> bool {
        &&& self.circles.contains_key(circle_id)
        &&& self.circles[circle_id].yield_enabled
        &&& !self.sessions.contains_key(circle_id)
    }

    /// A vote by `voter` in circle `circle_id` at `now` reaches the validation of its strategies.
    pub open spec fn vote_reaches_validation(self, voter: AccountId, circle_id: u64, now: u64) -> bool {
        &&& self.sessions.contains_key(circle_id)
        &&& self.sessions[circle_id].is_active
        &&& now <= self.sessions[circle_id].end_timestamp
        &&& !self.has_voted(voter, circle_id)
        &&& DEFAULT_RELIABILITY_INDEX >= self.config_in_force().min_reliability_threshold
    }

    /// Finalization of circle `circle_id` at `now` gets to the participation check.
    pub open spec fn finalize_reaches_tally(self, circle_id: u64, now: u64) -> bool {
        &&& self.sessions.contains_key(circle_id)
        &&& self.sessions[circle_id].is_active
        &&& now >= self.sessions[circle_id].end_timestamp
        &&& self.circles.contains_key(circle_id)
    }
}

/// The largest reliability index (100%).
pub const MAX_RELIABILITY_INDEX: u32 = 10000;

/// The weight of a full circle of `max_members` members who all vote with the largest
/// reliability index.
pub open spec fn max_possible_weight(max_members: u16, multiplier: u64) -> int {
    max_members * vote_weight_of(MAX_RELIABILITY_INDEX, multiplier)
}

/// A share goes to one of the `active` strategies, with a non-zero allocation of at most 100%.
pub open spec fn share_valid(active: Seq<AccountId>, d: DistributionStrategy) -> bool {
    active.contains(d.strategy_address) && 0 < d.allocation_percentage <= 10000
}

/// The participation of a session, in basis points of the weight of a full circle whose
/// members all have the largest reliability index.
pub open spec fn participation_rate(total_votes_weight: u64, max_members: u16, multiplier: u64) -> int {
    (total_votes_weight * 10000) / max_possible_weight(max_members, multiplier)
}

/// Outcome of `initialize_voting_session`.
pub open spec fn initialize_spec(
    s: VotingStateView,
    circle_id: u64,
    available: Seq<AccountId>,
    now: u64,
) -> (Result<(), VotingError>, VotingStateView) {
    if !s.circles.contains_key(circle_id) || !s.circles[circle_id].yield_enabled {
        (Err(VotingError::Unauthorized), s)
    } else if s.sessions.contains_key(circle_id) {
        (Err(VotingError::VotingNotActive), s)
    } else {
        let cfg = s.config_in_force();
        let session = SessionView {
            circle_id,
            start_timestamp: now,
            end_timestamp: (now + cfg.voting_duration_seconds) as u64,
            total_votes_weight: 0,
            is_active: true,
            winning_strategy: None,
            vote_threshold: cfg.min_participation_threshold,
        };
        (
            Ok(()),
            VotingStateView {
                sessions: s.sessions.insert(circle_id, session),
                active_strategies: s.active_strategies.insert(circle_id, available),
                ..s
            },
        )
    }
}

/// Outcome of `cast_vote`.
pub open spec fn cast_vote_spec(
    s: VotingStateView,
    voter: AccountId,
    circle_id: u64,
    proposed: Seq<DistributionStrategy>,
    now: u64,
) -> (Result<(), VotingError>, VotingStateView) {
    if !s.sessions.contains_key(circle_id) || !s.sessions[circle_id].is_active {
        (Err(VotingError::VotingNotActive), s)
    } else if now > s.sessions[circle_id].end_timestamp {
        (Err(VotingError::VotingPeriodExpired), s)
    } else if s.has_voted(voter, circle_id) {
        (Err(VotingError::AlreadyVoted), s)
    } else if DEFAULT_RELIABILITY_INDEX < s.config_in_force().min_reliability_threshold {
        (Err(VotingError::InsufficientReliability), s)
    } else if !s.strategies_valid(circle_id, proposed) {
        (Err(VotingError::InvalidStrategy), s)
    } else {
        let weight = vote_weight_of(DEFAULT_RELIABILITY_INDEX, s.config_in_force().weight_multiplier) as u64;
        let vote = VoteView {
            voter,
            circle_id,
            voted_strategies: proposed,
            reliability_index: DEFAULT_RELIABILITY_INDEX,
            vote_weight: weight,
            timestamp: now,
        };
        let h = strategy_hash_of(proposed);
        let tallies = s.tallies_of(circle_id);
        let prior = if tallies.contains_key(h) {
            tallies[h]
        } else {
            TallyView { strategy_hash: h, total_weight: 0, voter_count: 0 }
        };
        let tally = TallyView {
            strategy_hash: prior.strategy_hash,
            total_weight: (prior.total_weight + weight) as u64,
            voter_count: (prior.voter_count + 1) as u32,
        };
        let session = s.sessions[circle_id];
        (
            Ok(()),
            VotingStateView {
                votes: s.votes.insert(circle_id, s.votes_of(circle_id).insert(voter, vote)),
                tallies: s.tallies.insert(circle_id, tallies.insert(h, tally)),
                sessions: s.sessions.insert(
                    circle_id,
                    SessionView {
                        total_votes_weight: (session.total_votes_weight + weight) as u64,
                        ..session
                    },
                ),
                ..s
            },
        )
    }
}

/// The session of circle `circle_id` can be closed at `now`: it is open, its voting period
/// is over, its circle exists, and its participation reaches its threshold.
pub open spec fn participation_met(s: VotingStateView, circle_id: u64, now: u64) -> bool {
    &&& s.finalize_reaches_tally(circle_id, now)
    &&& participation_rate(
        s.sessions[circle_id].total_votes_weight,
        s.circles[circle_id].max_members,
        s.config_in_force().weight_multiplier,
    ) >= s.sessions[circle_id].vote_threshold
}

/// `h` identifies a distribution whose tally carries the largest weight among `tallies`.
pub open spec fn is_heaviest(tallies: Map<Seq<u8>, TallyView>, h: Seq<u8>) -> bool {
    &&& tallies.contains_key(h)
    &&& forall|k: Seq<u8>| #[trigger]
        tallies.contains_key(k) ==> tallies[k].total_weight <= tallies[h].total_weight
}

/// `w` may win the session of circle `circle_id`: some vote in the circle chose it, and its
/// hash identifies a tally of the largest weight.
pub open spec fn may_win(s: VotingStateView, circle_id: u64, w: Seq<DistributionStrategy>) -> bool {
    &&& is_heaviest(s.tallies_of(circle_id), strategy_hash_of(w))
    &&& exists|v: AccountId| #[trigger]
        s.votes_of(circle_id).contains_key(v) && s.votes_of(circle_id)[v].voted_strategies == w
}

/// Storage after the session of circle `circle_id` is closed with the winner `w`.
pub open spec fn finalized(s: VotingStateView, circle_id: u64, w: Seq<DistributionStrategy>) -> VotingStateView {
    VotingStateView {
        sessions: s.sessions.insert(
            circle_id,
            SessionView { is_active: false, winning_strategy: Some(w), ..s.sessions[circle_id] },
        ),
        ..s
    }
}

/// Error of `finalize_voting` when the session cannot be closed; the storage is left
/// unchanged.
pub open spec fn finalize_spec(s: VotingStateView, circle_id: u64, now: u64) -> VotingError {
    if !s.sessions.contains_key(circle_id) || !s.sessions[circle_id].is_active {
        VotingError::VotingNotActive
    } else if now < s.sessions[circle_id].end_timestamp {
        VotingError::VotingPeriodExpired
    } else if !s.circles.contains_key(circle_id) {
        VotingError::Unauthorized
    } else {
        VotingError::TallyFailed
    }
}

/// The storage the voting functions work on.
pub struct VotingStore {
    /// The contract administrator.
    pub admin: Option<AccountId>,
    /// Circles by id.
    pub circles: IdMap<u64, CircleInfo>,
    /// Voting session of each circle.
    pub sessions: IdMap<u64, VotingSession>,
    /// Votes by circle, then voter.
    pub votes: IdMap<u64, IdMap<AccountId, Vote>>,
    /// Tallies by circle, then distribution hash.
    pub tallies: IdMap<u64, BytesMap<VoteTally>>,
    /// The strategies each circle's session lets votes allocate to.
    pub active_strategies: IdMap<u64, Vec<AccountId>>,
    /// The stored voting configuration.
    pub config: Option<VotingConfig>,
}

impl View for VotingStore {
    type V = VotingStateView;

    open spec fn view(&self) -> VotingStateView {
        VotingStateView {
            admin: self.admin,
            circles: self.circles@,
            sessions: self.sessions@,
            votes: self.votes@,
            tallies: self.tallies@,
            active_strategies: self.active_strategies@,
            config: self.config,
        }
    }
}

impl VotingStore {
    /// Storage with no administrator, circles, sessions, votes or configuration.
    pub fn new() -> (s: Self)
        ensures
            s@.admin.is_none(),
            s@.circles == Map::<u64, CircleInfo>::empty(),
            s@.sessions == Map::<u64, SessionView>::empty(),
            s@.votes == Map::<u64, Map<AccountId, VoteView>>::empty(),
            s@.tallies == Map::<u64, Map<Seq<u8>, TallyView>>::empty(),
            s@.active_strategies == Map::<u64, Seq<AccountId>>::empty(),
            s@.config.is_none(),
            s@.tallies_consistent(),
            s@.votes_accounted(),
    {
        VotingStore {
            admin: None,
            circles: IdMap::new(),
            sessions: IdMap::new(),
            votes: IdMap::new(),
            tallies: IdMap::new(),
            active_strategies: IdMap::new(),
            config: None,
        }
    }
}

/// The configuration in force: the stored one, or the defaults (48 hours, 50% participation,
/// 30% reliability, multiplier 100).
pub fn get_voting_config(store: &VotingStore) -> (c: VotingConfig)
    ensures
        c == store@.config_in_force(),
{
    match store.config {
        Some(c) => c,
        None => VotingConfig {
            voting_duration_seconds: 172800,
            min_participation_threshold: 5000,
            min_reliability_threshold: 3000,
            weight_multiplier: 100,
        },
    }
}

/// The reliability index of `user`; every user is credited with `DEFAULT_RELIABILITY_INDEX`.
pub fn get_reliability_index(user: AccountId) -> (r: Result<u32, VotingError>)
    ensures
        r == Ok::<u32, VotingError>(DEFAULT_RELIABILITY_INDEX),
{
    Ok(DEFAULT_RELIABILITY_INDEX)
}

/// The weight of a vote: reliability index times multiplier, in units of 10000.
pub fn calculate_vote_weight(reliability_index: u32, multiplier: u64) -> (w: u64)
    requires
        reliability_index * multiplier <= u64::MAX,
    ensures
        w == vote_weight_of(reliability_index, multiplier),
{
    (reliability_index as u64 * multiplier) / 10000
}

/// Checks a distribution proposed in the session of circle `circle_id`: `InvalidStrategy`
/// unless it is valid there.
pub fn validate_proposed_strategies(
    store: &VotingStore,
    circle_id: u64,
    strategies: &Vec<DistributionStrategy>,
) -> (r: Result<(), VotingError>)
    ensures
        r == if store@.strategies_valid(circle_id, strategies@) {
            Ok::<(), VotingError>(())
        } else {
            Err(VotingError::InvalidStrategy)
        },
        r is Ok ==> forall|i: int|
            0 <= i < strategies@.len() ==> #[trigger] listed_share(store@, circle_id, strategies@[i]),
{
    let mut total: u64 = 0;
    let mut i: usize = 0;
    while i < strategies.len()
        invariant
            i <= strategies.len(),
            total <= 10000,
            total == allocation_sum(strategies@.take(i as int)),
        decreases strategies.len() - i,
    {
        proof {
            assert(strategies@.take(i + 1).drop_last() =~= strategies@.take(i as int));
            assert(strategies@.take(i + 1).last() == strategies@[i as int]);
        }
        total = total + strategies[i].allocation_percentage as u64;
        if total > 10000 {
            proof {
                lemma_allocation_sum_prefix(strategies@, i as int + 1);
            }
            return Err(VotingError::InvalidStrategy);
        }
        i = i + 1;
    }
    assert(strategies@.take(strategies.len() as int) =~= strategies@);
    if total != 10000 {
        return Err(VotingError::InvalidStrategy);
    }
    assert(allocation_sum(strategies@) == 10000);
    let empty: Vec<AccountId> = Vec::new();
    let active: &Vec<AccountId> = match store.active_strategies.get(circle_id) {
        Some(a) => a,
        None => &empty,
    };
    let mut j: usize = 0;
    while j < strategies.len()
        invariant
            j <= strategies.len(),
            allocation_sum(strategies@) == 10000,
            active@ == store@.strategies_of(circle_id),
            forall|k: int| 0 <= k < j ==> #[trigger] share_valid(active@, strategies@[k]),
        decreases strategies.len() - j,
    {
        let s = strategies[j];
        assert(strategies@[j as int] == s);
        if !contains_address(active, s.strategy_address) || s.allocation_percentage == 0
            || s.allocation_percentage > 10000 {
            assert(!share_valid(store@.strategies_of(circle_id), strategies@[j as int]));
            return Err(VotingError::InvalidStrategy);
        }
        assert(share_valid(active@, strategies@[j as int]));
        j = j + 1;
    }
    proof {
        lemma_strategies_valid_exactly(store@, circle_id, strategies@);
    }
    Ok(())
}

/// A prefix of a distribution allocates no more than the whole.
pub proof fn lemma_allocation_sum_prefix(s: Seq<DistributionStrategy>, n: int)
    requires
        0 <= n <= s.len(),
    ensures
        allocation_sum(s.take(n)) <= allocation_sum(s),
    decreases s.len(),
{
    if n < s.len() {
        assert(s.drop_last().take(n) =~= s.take(n));
        lemma_allocation_sum_prefix(s.drop_last(), n);
    } else {
        assert(s.take(n) =~= s);
    }
}

/// Whether `address` occurs in `list`.
fn contains_address(list: &Vec<AccountId>, address: AccountId) -> (r: bool)
    ensures
        r == list@.contains(address),
{
    let mut i: usize = 0;
    while i < list.len()
        invariant
            i <= list.len(),
            forall|k: int| 0 <= k < i ==> list@[k] != address,
        decreases list.len() - i,
    {
        if list[i] == address {
            assert(list@[i as int] == address);
            return true;
        }
        i = i + 1;
    }
    false
}

/// The eight little-endian bytes of `x`, appended to `out`.
fn push_u64_le(out: &mut Vec<u8>, x: u64)
    ensures
        final(out)@ == old(out)@ + u64_le_bytes(x),
{
    out.push(x as u8);
    out.push((x >> 8u64) as u8);
    out.push((x >> 16u64) as u8);
    out.push((x >> 24u64) as u8);
    out.push((x >> 32u64) as u8);
    out.push((x >> 40u64) as u8);
    out.push((x >> 48u64) as u8);
    out.push((x >> 56u64) as u8);
    assert(out@ =~= old(out)@ + u64_le_bytes(x));
}

/// The four little-endian bytes of `x`, appended to `out`.
fn push_u32_le(out: &mut Vec<u8>, x: u32)
    ensures
        final(out)@ == old(out)@ + u32_le_bytes(x),
{
    out.push(x as u8);
    out.push((x >> 8u32) as u8);
    out.push((x >> 16u32) as u8);
    out.push((x >> 24u32) as u8);
    assert(out@ =~= old(out)@ + u32_le_bytes(x));
}

/// The SHA-256 hash identifying a distribution: over each share's strategy address and
/// allocation, in order.
pub fn hash_strategy_array(env: &soroban_sdk::Env, strategies: &Vec<DistributionStrategy>) -> (h:
    Vec<u8>)
    ensures
        h@ == strategy_hash_of(strategies@),
        h@.len() == 32,
{
    let mut preimage: Vec<u8> = Vec::new();
    let mut i: usize = 0;
    while i < strategies.len()
        invariant
            i <= strategies.len(),
            preimage@ == strategy_preimage(strategies@.take(i as int)),
        decreases strategies.len() - i,
    {
        let s = strategies[i];
        push_u64_le(&mut preimage, s.strategy_address);
        push_u32_le(&mut preimage, s.allocation_percentage);
        proof {
            let t = strategies@.take(i + 1);
            assert(t.drop_last() =~= strategies@.take(i as int));
            assert(t.last() == s);
            assert(preimage@ =~= strategy_preimage(t));
        }
        i = i + 1;
    }
    assert(strategies@.take(strategies.len() as int) =~= strategies@);
    sha256(env, &preimage)
}

/// The eight little-endian bytes of a `u64` determine it.
proof fn lemma_u64_le_bytes_injective(x: u64, y: u64)
    requires
        u64_le_bytes(x) == u64_le_bytes(y),
    ensures
        x == y,
{
    let bx = u64_le_bytes(x);
    let by = u64_le_bytes(y);
    assert(bx[0] == by[0] && bx[1] == by[1] && bx[2] == by[2] && bx[3] == by[3]);
    assert(bx[4] == by[4] && bx[5] == by[5] && bx[6] == by[6] && bx[7] == by[7]);
    assert(x == y) by (bit_vector)
        requires
            x as u8 == y as u8,
            (x >> 8u64) as u8 == (y >> 8u64) as u8,
            (x >> 16u64) as u8 == (y >> 16u64) as u8,
            (x >> 24u64) as u8 == (y >> 24u64) as u8,
            (x >> 32u64) as u8 == (y >> 32u64) as u8,
            (x >> 40u64) as u8 == (y >> 40u64) as u8,
            (x >> 48u64) as u8 == (y >> 48u64) as u8,
            (x >> 56u64) as u8 == (y >> 56u64) as u8,
    ;
}

/// The four little-endian bytes of a `u32` determine it.
proof fn lemma_u32_le_bytes_injective(x: u32, y: u32)
    requires
        u32_le_bytes(x) == u32_le_bytes(y),
    ensures
        x == y,
{
    let bx = u32_le_bytes(x);
    let by = u32_le_bytes(y);
    assert(bx[0] == by[0] && bx[1] == by[1] && bx[2] == by[2] && bx[3] == by[3]);
    assert(x == y) by (bit_vector)
        requires
            x as u8 == y as u8,
            (x >> 8u32) as u8 == (y >> 8u32) as u8,
            (x >> 16u32) as u8 == (y >> 16u32) as u8,
            (x >> 24u32) as u8 == (y >> 24u32) as u8,
    ;
}

/// Each share contributes twelve bytes to the hashing preimage.
proof fn lemma_strategy_preimage_len(p: Seq<DistributionStrategy>)
    ensures
        strategy_preimage(p).len() == 12 * p.len(),
    decreases p.len(),
{
    if p.len() > 0 {
        lemma_strategy_preimage_len(p.drop_last());
    }
}

/// The hashing preimage of a distribution determines it share by share: two distributions
/// with the same preimage have the same number of shares, and each share has the same
/// strategy address and the same allocation. So distributions that differ in any share's
/// address or allocation are hashed from different bytes, and their votes are tallied apart.
pub proof fn lemma_strategy_preimage_determines_shares(p: Seq<DistributionStrategy>, q: Seq<DistributionStrategy>)
    requires
        strategy_preimage(p) == strategy_preimage(q),
    ensures
        p.len() == q.len(),
        forall|i: int|
            0 <= i < p.len() ==> (#[trigger] p[i]).strategy_address == q[i].strategy_address
                && p[i].allocation_percentage == q[i].allocation_percentage,
    decreases p.len(),
{
    lemma_strategy_preimage_len(p);
    lemma_strategy_preimage_len(q);
    if p.len() > 0 {
        let n = p.len() - 1;
        let pp = p.drop_last();
        let qq = q.drop_last();
        let bytes = strategy_preimage(p);
        lemma_strategy_preimage_len(pp);
        lemma_strategy_preimage_len(qq);
        let m = 12 * n;
        let ap = u64_le_bytes(p.last().strategy_address);
        let aq = u64_le_bytes(q.last().strategy_address);
        let cp = u32_le_bytes(p.last().allocation_percentage);
        let cq = u32_le_bytes(q.last().allocation_percentage);
        assert(bytes == strategy_preimage(pp) + ap + cp);
        assert(bytes == strategy_preimage(qq) + aq + cq);
        assert(strategy_preimage(pp) =~= bytes.subrange(0, m));
        assert(strategy_preimage(qq) =~= bytes.subrange(0, m));
        assert(ap =~= bytes.subrange(m, m + 8));
        assert(aq =~= bytes.subrange(m, m + 8));
        assert(cp =~= bytes.subrange(m + 8, m + 12));
        assert(cq =~= bytes.subrange(m + 8, m + 12));
        lemma_u64_le_bytes_injective(p.last().strategy_address, q.last().strategy_address);
        lemma_u32_le_bytes_injective(p.last().allocation_percentage, q.last().allocation_percentage);
        lemma_strategy_preimage_determines_shares(pp, qq);
        assert forall|i: int| 0 <= i < p.len() implies (#[trigger] p[i]).strategy_address
            == q[i].strategy_address && p[i].allocation_percentage == q[i].allocation_percentage by {
            if i < n {
                assert(pp[i] == p[i]);
                assert(qq[i] == q[i]);
            }
        }
    }
}

/// Votes for distributions that differ in the number of shares, or in any share's strategy
/// address or allocation, count toward tallies keyed by hashes of different bytes.
pub proof fn lemma_different_distributions_hash_different_bytes(
    p: Seq<DistributionStrategy>,
    q: Seq<DistributionStrategy>,
    i: int,
)
    requires
        p.len() != q.len() || (0 <= i < p.len() && (p[i].strategy_address != q[i].strategy_address
            || p[i].allocation_percentage != q[i].allocation_percentage)),
    ensures
        strategy_preimage(p) != strategy_preimage(q),
{
    if strategy_preimage(p) == strategy_preimage(q) {
        lemma_strategy_preimage_determines_shares(p, q);
    }
}

/// Two distributions with the same strategy addresses and allocations, share by share, have
/// the same hashing preimage.
proof fn lemma_strategy_preimage_same_shares(p: Seq<DistributionStrategy>, q: Seq<DistributionStrategy>)
    requires
        p.len() == q.len(),
        forall|i: int|
            0 <= i < p.len() ==> (#[trigger] p[i]).strategy_address == q[i].strategy_address
                && p[i].allocation_percentage == q[i].allocation_percentage,
    ensures
        strategy_preimage(p) == strategy_preimage(q),
    decreases p.len(),
{
    if p.len() > 0 {
        let n = p.len() - 1;
        assert forall|i: int| 0 <= i < n implies (#[trigger] p.drop_last()[i]).strategy_address
            == q.drop_last()[i].strategy_address && p.drop_last()[i].allocation_percentage
            == q.drop_last()[i].allocation_percentage by {
            assert(p.drop_last()[i] == p[i]);
            assert(q.drop_last()[i] == q[i]);
        }
        lemma_strategy_preimage_same_shares(p.drop_last(), q.drop_last());
        assert(p.last() == p[n]);
        assert(q.last() == q[n]);
    }
}

/// The hash identifying a distribution is deterministic and depends only on each share's
/// strategy address and allocation, in order: the strategy type, minimum APY and risk score
/// do not change which tally a vote counts toward.
pub proof fn lemma_strategy_hash_depends_on_addresses_and_allocations(
    p: Seq<DistributionStrategy>,
    q: Seq<DistributionStrategy>,
)
    requires
        p.len() == q.len(),
        forall|i: int|
            0 <= i < p.len() ==> (#[trigger] p[i]).strategy_address == q[i].strategy_address
                && p[i].allocation_percentage == q[i].allocation_percentage,
    ensures
        strategy_hash_of(p) == strategy_hash_of(q),
{
    lemma_strategy_preimage_same_shares(p, q);
}

/// Adds `weight` and `voter_count` to the tally of distribution `strategy_hash` in circle
/// `circle_id`, creating it if needed.
pub fn update_vote_tally(
    store: &mut VotingStore,
    circle_id: u64,
    strategy_hash: Vec<u8>,
    weight: u64,
    voter_count: u32,
) -> (r: Result<(), VotingError>)
    requires
        old(store)@.tallies_of(circle_id).contains_key(strategy_hash@) ==> old(store)@.tallies_of(
            circle_id,
        )[strategy_hash@].total_weight + weight <= u64::MAX && old(store)@.tallies_of(
            circle_id,
        )[strategy_hash@].voter_count + voter_count <= u32::MAX,
    ensures
        r == Ok::<(), VotingError>(()),
        ({
            let tallies = old(store)@.tallies_of(circle_id);
            let h = strategy_hash@;
            let prior = if tallies.contains_key(h) {
                tallies[h]
            } else {
                TallyView { strategy_hash: h, total_weight: 0, voter_count: 0 }
            };
            final(store)@ == (VotingStateView {
                tallies: old(store)@.tallies.insert(
                    circle_id,
                    tallies.insert(
                        h,
                        TallyView {
                            strategy_hash: prior.strategy_hash,
                            total_weight: (prior.total_weight + weight) as u64,
                            voter_count: (prior.voter_count + voter_count) as u32,
                        },
                    ),
                ),
                ..old(store)@
            })
        }),
{
    let ghost s = store@;
    let mut inner = match store.tallies.remove(circle_id) {
        Some(m) => m,
        None => BytesMap::new(),
    };
    assert(inner@ == s.tallies_of(circle_id));
    let mut tally = match inner.remove(&strategy_hash) {
        Some(t) => t,
        None => {
            let h = strategy_hash.clone();
            assert(h@ =~= strategy_hash@);
            VoteTally { strategy_hash: h, total_weight: 0, voter_count: 0 }
        },
    };
    tally.total_weight = tally.total_weight + weight;
    tally.voter_count = tally.voter_count + voter_count;
    let ghost t = tally@;
    inner.insert(strategy_hash, tally);
    assert(inner@ =~= s.tallies_of(circle_id).insert(strategy_hash@, t));
    store.tallies.insert(circle_id, inner);
    assert(store@.tallies =~= s.tallies.insert(circle_id, inner@));
    Ok(())
}

/// Opens the voting session of circle `circle_id` at time `now` with the strategies votes may
/// allocate to. Fails with `Unauthorized` for an unknown circle or one without yield, and
/// with `VotingNotActive` when the circle already has a session; otherwise the session runs
/// for the configured duration with the configured participation threshold.
pub fn initialize_voting_session(
    store: &mut VotingStore,
    circle_id: u64,
    available_strategies: Vec<AccountId>,
    now: u64,
) -> (r: Result<(), VotingError>)
    requires
        old(store)@.can_initialize(circle_id) ==> now + old(store)@.config_in_force().voting_duration_seconds
            <= u64::MAX,
    ensures
        (r, final(store)@) == initialize_spec(old(store)@, circle_id, available_strategies@, now),
        old(store)@.tallies_consistent() ==> final(store)@.tallies_consistent(),
        old(store)@.votes_accounted() ==> final(store)@.votes_accounted(),
{
    let ghost s = store@;
    let enabled = match store.circles.get(circle_id) {
        Some(c) => c.yield_enabled,
        None => {
            return Err(VotingError::Unauthorized);
        },
    };
    if !enabled {
        return Err(VotingError::Unauthorized);
    }
    if store.sessions.contains_key(circle_id) {
        return Err(VotingError::VotingNotActive);
    }
    let config = get_voting_config(store);
    let session = VotingSession {
        circle_id,
        start_timestamp: now,
        end_timestamp: now + config.voting_duration_seconds,
        total_votes_weight: 0,
        is_active: true,
        winning_strategy: None,
        vote_threshold: config.min_participation_threshold,
    };
    store.sessions.insert(circle_id, session);
    store.active_strategies.insert(circle_id, available_strategies);
    proof {
        if s.tallies_consistent() {
            assert(!s.tallies.contains_key(circle_id));
            let t = store@;
            assert forall|c: u64| #[trigger] t.tallies.contains_key(c) implies t.sessions.contains_key(c)
                && forall|h: Seq<u8>| #[trigger] t.tallies[c].contains_key(h) ==> {
                &&& t.tallies[c][h].strategy_hash == h
                &&& t.tallies[c][h].total_weight <= t.sessions[c].total_votes_weight
                &&& t.tallies[c][h].voter_count <= t.votes_of(c).len()
            } by {
                assert(s.tallies.contains_key(c));
                assert(c != circle_id);
            }
        }
        if s.votes_accounted() {
            lemma_initialize_keeps_votes_accounted(s, circle_id, available_strategies@, now);
        }
    }
    Ok(())
}

/// A circle that has no session, no votes and no tallies has every vote accounted for.
pub proof fn lemma_untouched_circle_accounted(s: VotingStateView, c: u64)
    requires
        !s.sessions.contains_key(c),
        !s.votes.contains_key(c),
        !s.tallies.contains_key(c),
    ensures
        s.circle_accounted(c),
{
}

/// Opening a session, for any circle, keeps the votes of circle `c` accounted for: a new
/// session has no votes and no tallies yet, and its total weight is 0.
pub proof fn lemma_initialize_keeps_circle_accounted(
    s: VotingStateView,
    circle_id: u64,
    available: Seq<AccountId>,
    now: u64,
    c: u64,
)
    requires
        initialize_spec(s, circle_id, available, now).0 is Ok,
        s.circle_accounted(c),
    ensures
        initialize_spec(s, circle_id, available, now).1.circle_accounted(c),
{
    let t = initialize_spec(s, circle_id, available, now).1;
    assert(t.votes_of(c) == s.votes_of(c));
    assert(t.tallies_of(c) == s.tallies_of(c));
    if c == circle_id {
        assert(!s.votes.contains_key(c));
        assert(!s.tallies.contains_key(c));
        assert(t.votes_of(c).dom() =~= Set::<AccountId>::empty());
        assert(t.tallies_of(c).dom() =~= Set::<Seq<u8>>::empty());
        let votes = t.votes_of(c);
        let tallies = t.tallies_of(c);
        lemma_sum_over_empty(|v: AccountId| votes[v].vote_weight as int);
        lemma_sum_over_empty(|h: Seq<u8>| tallies[h].total_weight as int);
        lemma_sum_over_empty(|h: Seq<u8>| tallies[h].voter_count as int);
        assert(t.votes_of(c).len() == 0);
    } else {
        assert forall|h: Seq<u8>| #[trigger] t.tallies_of(c).contains_key(h) implies t.tally_backed(c, h) by {
            assert(s.tally_backed(c, h));
            let v = choose|v: AccountId| #[trigger]
                s.votes_of(c).contains_key(v) && strategy_hash_of(s.votes_of(c)[v].voted_strategies) == h;
            assert(t.votes_of(c).contains_key(v));
        }
    }
}

/// Opening a session keeps every vote accounted for.
pub proof fn lemma_initialize_keeps_votes_accounted(
    s: VotingStateView,
    circle_id: u64,
    available: Seq<AccountId>,
    now: u64,
)
    requires
        initialize_spec(s, circle_id, available, now).0 is Ok,
        s.votes_accounted(),
    ensures
        initialize_spec(s, circle_id, available, now).1.votes_accounted(),
{
    let t = initialize_spec(s, circle_id, available, now).1;
    assert forall|c: u64| #[trigger] t.circle_accounted(c) by {
        assert(s.circle_accounted(c));
        lemma_initialize_keeps_circle_accounted(s, circle_id, available, now, c);
    }
}

/// `voter` votes for the distribution `proposed_strategies` in circle `circle_id` at time
/// `now` (the caller has checked the voter's authorization). Fails with `VotingNotActive`
/// without an active session, `VotingPeriodExpired` after its end, `AlreadyVoted` on a
/// second vote, `InsufficientReliability` below the configured reliability threshold and
/// `InvalidStrategy` for an invalid distribution; otherwise the vote is recorded with its
/// weight, which is added to the distribution's tally and to the session's total.
pub fn cast_vote(
    env: &soroban_sdk::Env,
    store: &mut VotingStore,
    voter: AccountId,
    circle_id: u64,
    proposed_strategies: Vec<DistributionStrategy>,
    now: u64,
) -> (r: Result<(), VotingError>)
    requires
        old(store)@.vote_reaches_validation(voter, circle_id, now) && old(store)@.strategies_valid(
            circle_id,
            proposed_strategies@,
        ) ==> ({
            let multiplier = old(store)@.config_in_force().weight_multiplier;
            let weight = vote_weight_of(DEFAULT_RELIABILITY_INDEX, multiplier);
            &&& DEFAULT_RELIABILITY_INDEX * multiplier <= u64::MAX
            &&& old(store)@.sessions[circle_id].total_votes_weight + weight <= u64::MAX
            &&& forall|h: Seq<u8>| #[trigger]
                old(store)@.tallies_of(circle_id).contains_key(h) ==> old(store)@.tallies_of(
                    circle_id,
                )[h].total_weight + weight <= u64::MAX && old(store)@.tallies_of(
                    circle_id,
                )[h].voter_count < u32::MAX
        }),
    ensures
        (r, final(store)@) == cast_vote_spec(
            old(store)@,
            voter,
            circle_id,
            proposed_strategies@,
            now,
        ),
        old(store)@.tallies_consistent() ==> final(store)@.tallies_consistent(),
        old(store)@.votes_accounted() ==> final(store)@.votes_accounted(),
{
    let ghost s = store@;
    let (active, end) = match store.sessions.get(circle_id) {
        Some(session) => (session.is_active, session.end_timestamp),
        None => {
            return Err(VotingError::VotingNotActive);
        },
    };
    if !active {
        return Err(VotingError::VotingNotActive);
    }
    if now > end {
        return Err(VotingError::VotingPeriodExpired);
    }
    let voted = match store.votes.get(circle_id) {
        Some(m) => m.contains_key(voter),
        None => false,
    };
    if voted {
        return Err(VotingError::AlreadyVoted);
    }
    let reliability_index = match get_reliability_index(voter) {
        Ok(ri) => ri,
        Err(e) => {
            return Err(e);
        },
    };
    let config = get_voting_config(store);
    if reliability_index < config.min_reliability_threshold {
        return Err(VotingError::InsufficientReliability);
    }
    match validate_proposed_strategies(store, circle_id, &proposed_strategies) {
        Ok(()) => {},
        Err(e) => {
            return Err(e);
        },
    }
    let vote_weight = calculate_vote_weight(reliability_index, config.weight_multiplier);
    let strategy_hash = hash_strategy_array(env, &proposed_strategies);
    let vote = Vote {
        voter,
        circle_id,
        voted_strategies: proposed_strategies,
        reliability_index,
        vote_weight,
        timestamp: now,
    };
    let mut circle_votes = match store.votes.remove(circle_id) {
        Some(m) => m,
        None => IdMap::new(),
    };
    assert(circle_votes@ == s.votes_of(circle_id));
    circle_votes.insert(voter, vote);
    store.votes.insert(circle_id, circle_votes);
    let ghost s1 = store@;
    assert(s1.tallies == s.tallies);
    match update_vote_tally(store, circle_id, strategy_hash, vote_weight, 1) {
        Ok(()) => {},
        Err(e) => {
            return Err(e);
        },
    }
    match store.sessions.remove(circle_id) {
        Some(mut session) => {
            session.total_votes_weight = session.total_votes_weight + vote_weight;
            store.sessions.insert(circle_id, session);
        },
        None => {
            proof {
                assert(false);
            }
        },
    }
    proof {
        let (_, e) = cast_vote_spec(s, voter, circle_id, proposed_strategies@, now);
        assert(store@.votes =~= e.votes);
        assert(store@.tallies =~= e.tallies);
        assert(store@.sessions =~= e.sessions);
        lemma_cast_vote_keeps_tallies_consistent(s, voter, circle_id, proposed_strategies@, now);
        if s.votes_accounted() {
            lemma_cast_vote_keeps_votes_accounted(s, voter, circle_id, proposed_strategies@, now);
        }
    }
    Ok(())
}

/// An accepted vote, in any circle, keeps the votes of circle `c` accounted for: in the
/// circle voted in, the new vote's weight is added once to the session's total, to the sum
/// of the votes' weights and to the tally of the chosen distribution, whose voter count
/// grows by one.
pub proof fn lemma_cast_vote_keeps_circle_accounted(
    s: VotingStateView,
    voter: AccountId,
    circle_id: u64,
    proposed: Seq<DistributionStrategy>,
    now: u64,
    c: u64,
)
    requires
        s.circle_accounted(c),
        cast_vote_spec(s, voter, circle_id, proposed, now).0 is Ok,
        s.sessions[circle_id].total_votes_weight + vote_weight_of(
            DEFAULT_RELIABILITY_INDEX,
            s.config_in_force().weight_multiplier,
        ) <= u64::MAX,
        forall|h: Seq<u8>| #[trigger]
            s.tallies_of(circle_id).contains_key(h) ==> s.tallies_of(circle_id)[h].total_weight
                + vote_weight_of(DEFAULT_RELIABILITY_INDEX, s.config_in_force().weight_multiplier)
                <= u64::MAX && s.tallies_of(circle_id)[h].voter_count < u32::MAX,
    ensures
        cast_vote_spec(s, voter, circle_id, proposed, now).1.circle_accounted(c),
{
    let t = cast_vote_spec(s, voter, circle_id, proposed, now).1;
    if c != circle_id {
        assert(t.votes_of(c) == s.votes_of(c));
        assert(t.tallies_of(c) == s.tallies_of(c));
        assert forall|k: Seq<u8>| #[trigger] t.tallies_of(c).contains_key(k) implies t.tally_backed(c, k) by {
            assert(s.tally_backed(c, k));
            let v = choose|v: AccountId| #[trigger]
                s.votes_of(c).contains_key(v) && strategy_hash_of(s.votes_of(c)[v].voted_strategies) == k;
            assert(t.votes_of(c).contains_key(v));
        }
        return;
    }
    let w = vote_weight_of(DEFAULT_RELIABILITY_INDEX, s.config_in_force().weight_multiplier);
    assert(0 <= vote_weight_of(DEFAULT_RELIABILITY_INDEX, s.config_in_force().weight_multiplier))
        by (nonlinear_arith);
    let h = strategy_hash_of(proposed);
    let old_votes = s.votes_of(circle_id);
    let new_votes = t.votes_of(circle_id);
    let old_tallies = s.tallies_of(circle_id);
    let new_tallies = t.tallies_of(circle_id);
    // the votes: one more, of weight `w`
    assert(old_votes.dom().finite()) by {
        if !s.votes.contains_key(circle_id) {
            assert(old_votes.dom() =~= Set::<AccountId>::empty());
        }
    }
    assert(!old_votes.contains_key(voter));
    assert(new_votes == old_votes.insert(voter, t.votes[circle_id][voter]));
    assert(new_votes.dom() =~= old_votes.dom().insert(voter));
    let fv_old = |v: AccountId| old_votes[v].vote_weight as int;
    let fv_new = |v: AccountId| new_votes[v].vote_weight as int;
    lemma_sum_over_insert(old_votes.dom(), fv_new, voter);
    lemma_sum_over_congruent(old_votes.dom(), fv_old, fv_new);
    assert(t.vote_weight_total(circle_id) == s.vote_weight_total(circle_id) + w);
    assert(new_votes.len() == old_votes.len() + 1);
    // the tallies: the one of `h` gains `w` and one voter
    assert(old_tallies.dom().finite()) by {
        if !s.tallies.contains_key(circle_id) {
            assert(old_tallies.dom() =~= Set::<Seq<u8>>::empty());
        }
    }
    let fw_old = |k: Seq<u8>| old_tallies[k].total_weight as int;
    let fw_new = |k: Seq<u8>| new_tallies[k].total_weight as int;
    let fc_old = |k: Seq<u8>| old_tallies[k].voter_count as int;
    let fc_new = |k: Seq<u8>| new_tallies[k].voter_count as int;
    if old_tallies.contains_key(h) {
        assert(new_tallies.dom() =~= old_tallies.dom());
        lemma_sum_over_update(old_tallies.dom(), fw_old, fw_new, h);
        lemma_sum_over_update(old_tallies.dom(), fc_old, fc_new, h);
    } else {
        assert(new_tallies.dom() =~= old_tallies.dom().insert(h));
        lemma_sum_over_insert(old_tallies.dom(), fw_new, h);
        lemma_sum_over_congruent(old_tallies.dom(), fw_old, fw_new);
        lemma_sum_over_insert(old_tallies.dom(), fc_new, h);
        lemma_sum_over_congruent(old_tallies.dom(), fc_old, fc_new);
    }
    assert(t.tally_weight_total(circle_id) == s.tally_weight_total(circle_id) + w);
    assert(t.tally_voter_total(circle_id) == s.tally_voter_total(circle_id) + 1);
    assert forall|k: Seq<u8>| #[trigger] t.tallies_of(c).contains_key(k) implies t.tally_backed(c, k) by {
        if k == h {
            assert(new_votes.contains_key(voter));
            assert(new_votes[voter].voted_strategies == proposed);
        } else {
            assert(old_tallies.contains_key(k));
            assert(s.tally_backed(c, k));
            let v = choose|v: AccountId| #[trigger]
                s.votes_of(c).contains_key(v) && strategy_hash_of(s.votes_of(c)[v].voted_strategies) == k;
            assert(new_votes.contains_key(v));
            assert(new_votes[v] == old_votes[v]);
        }
    }
}

/// Every accepted vote is accounted for: when every vote is accounted for before a vote,
/// then after it, in every session, the total weight equals the sum of the weights of the
/// circle's votes and the sum of the weights of its tallies, and the voter counts of the
/// tallies add up to the number of votes.
pub proof fn lemma_cast_vote_keeps_votes_accounted(
    s: VotingStateView,
    voter: AccountId,
    circle_id: u64,
    proposed: Seq<DistributionStrategy>,
    now: u64,
)
    requires
        s.votes_accounted(),
        cast_vote_spec(s, voter, circle_id, proposed, now).0 is Ok,
        s.sessions[circle_id].total_votes_weight + vote_weight_of(
            DEFAULT_RELIABILITY_INDEX,
            s.config_in_force().weight_multiplier,
        ) <= u64::MAX,
        forall|h: Seq<u8>| #[trigger]
            s.tallies_of(circle_id).contains_key(h) ==> s.tallies_of(circle_id)[h].total_weight
                + vote_weight_of(DEFAULT_RELIABILITY_INDEX, s.config_in_force().weight_multiplier)
                <= u64::MAX && s.tallies_of(circle_id)[h].voter_count < u32::MAX,
    ensures
        cast_vote_spec(s, voter, circle_id, proposed, now).1.votes_accounted(),
{
    let t = cast_vote_spec(s, voter, circle_id, proposed, now).1;
    assert forall|c: u64| #[trigger] t.circle_accounted(c) by {
        assert(s.circle_accounted(c));
        lemma_cast_vote_keeps_circle_accounted(s, voter, circle_id, proposed, now, c);
    }
}

/// An accepted vote keeps votes and tallies consistent.
proof fn lemma_cast_vote_keeps_tallies_consistent(
    s: VotingStateView,
    voter: AccountId,
    circle_id: u64,
    proposed: Seq<DistributionStrategy>,
    now: u64,
)
    requires
        cast_vote_spec(s, voter, circle_id, proposed, now).0 is Ok,
        s.sessions[circle_id].total_votes_weight + vote_weight_of(
            DEFAULT_RELIABILITY_INDEX,
            s.config_in_force().weight_multiplier,
        ) <= u64::MAX,
        forall|h: Seq<u8>| #[trigger]
            s.tallies_of(circle_id).contains_key(h) ==> s.tallies_of(circle_id)[h].total_weight
                + vote_weight_of(DEFAULT_RELIABILITY_INDEX, s.config_in_force().weight_multiplier)
                <= u64::MAX && s.tallies_of(circle_id)[h].voter_count < u32::MAX,
    ensures
        s.tallies_consistent() ==> cast_vote_spec(
            s,
            voter,
            circle_id,
            proposed,
            now,
        ).1.tallies_consistent(),
{
    if s.tallies_consistent() {
        let t = cast_vote_spec(s, voter, circle_id, proposed, now).1;
        let w = vote_weight_of(DEFAULT_RELIABILITY_INDEX, s.config_in_force().weight_multiplier);
        assert(0 <= vote_weight_of(DEFAULT_RELIABILITY_INDEX, s.config_in_force().weight_multiplier))
            by (nonlinear_arith);
        let old_votes = s.votes_of(circle_id);
        assert(old_votes.dom().finite());
        assert(!old_votes.contains_key(voter));
        assert(t.votes_of(circle_id) == old_votes.insert(voter, t.votes[circle_id][voter]));
        assert(t.votes_of(circle_id).dom() =~= old_votes.dom().insert(voter));
        assert(t.votes_of(circle_id).len() == old_votes.len() + 1);
        assert forall|c: u64| #[trigger] t.votes.contains_key(c) implies t.votes[c].dom().finite() by {
            if c != circle_id {
                assert(s.votes.contains_key(c));
            }
        }
        assert forall|c: u64| #[trigger] t.tallies.contains_key(c) implies t.sessions.contains_key(c)
            && forall|h: Seq<u8>| #[trigger] t.tallies[c].contains_key(h) ==> {
            &&& t.tallies[c][h].strategy_hash == h
            &&& t.tallies[c][h].total_weight <= t.sessions[c].total_votes_weight
            &&& t.tallies[c][h].voter_count <= t.votes_of(c).len()
        } by {
            if c == circle_id {
                assert forall|h: Seq<u8>| #[trigger] t.tallies[c].contains_key(h) implies {
                    &&& t.tallies[c][h].strategy_hash == h
                    &&& t.tallies[c][h].total_weight <= t.sessions[c].total_votes_weight
                    &&& t.tallies[c][h].voter_count <= t.votes_of(c).len()
                } by {
                    if h != strategy_hash_of(proposed) {
                        assert(s.tallies_of(c).contains_key(h));
                        assert(s.tallies.contains_key(c));
                    } else if s.tallies_of(c).contains_key(h) {
                        assert(s.tallies.contains_key(c));
                    }
                }
            } else {
                assert(s.tallies.contains_key(c));
                assert(t.votes_of(c) == s.votes_of(c));
            }
        }
    }
}

/// Closes the session of circle `circle_id` at time `now` and returns the winning
/// distribution. Fails with `VotingNotActive` without an active session,
/// `VotingPeriodExpired` before its end, `Unauthorized` for an unknown circle, and
/// `TallyFailed` when participation (vote weight in basis points of the weight of a full
/// circle voting with the largest reliability index) is below the session's threshold. Then
/// the winner is a distribution chosen by a vote whose tally carries the largest weight; the
/// session is closed with it as its winning distribution. When the circle has no tally, or
/// no vote for a heaviest distribution, it fails with `TallyFailed`; with every vote of the
/// circle accounted for and at least one tally a winner is always found. On failure the storage is
/// left unchanged.
pub fn finalize_voting(
    env: &soroban_sdk::Env,
    store: &mut VotingStore,
    circle_id: u64,
    now: u64,
) -> (r: Result<Vec<DistributionStrategy>, VotingError>)
    requires
        old(store)@.finalize_reaches_tally(circle_id, now) ==> ({
            let m = old(store)@.circles[circle_id].max_members;
            let multiplier = old(store)@.config_in_force().weight_multiplier;
            let t = old(store)@.sessions[circle_id].total_votes_weight;
            &&& MAX_RELIABILITY_INDEX * multiplier <= u64::MAX
            &&& 0 < max_possible_weight(m, multiplier) <= u64::MAX
            &&& t * 10000 <= u64::MAX
        }),
    ensures
        !participation_met(old(store)@, circle_id, now) ==> r == Err::<
            Vec<DistributionStrategy>,
            VotingError,
        >(finalize_spec(old(store)@, circle_id, now)) && final(store)@ == old(store)@,
        participation_met(old(store)@, circle_id, now) ==> match r {
            Ok(w) => may_win(old(store)@, circle_id, w@) && final(store)@ == finalized(
                old(store)@,
                circle_id,
                w@,
            ),
            Err(e) => e == VotingError::TallyFailed && final(store)@ == old(store)@,
        },
        r is Ok ==> {
            let tallies = old(store)@.tallies_of(circle_id);
            let h = sha256_hash(strategy_preimage(r->Ok_0@));
            &&& tallies.contains_key(h)
            &&& forall|k: Seq<u8>| #[trigger]
                tallies.contains_key(k) ==> tallies[k].total_weight <= tallies[h].total_weight
            &&& exists|v: AccountId| #[trigger]
                old(store)@.votes_of(circle_id).contains_key(v) && old(store)@.votes_of(
                    circle_id,
                )[v].voted_strategies == r->Ok_0@
            &&& final(store)@.sessions[circle_id].winning_strategy == Some(r->Ok_0@)
            &&& !final(store)@.sessions[circle_id].is_active
        },
        participation_met(old(store)@, circle_id, now) && old(store)@.circle_accounted(circle_id)
            && !old(store)@.tallies_of(circle_id).is_empty() ==> r is Ok,
        old(store)@.tallies_consistent() ==> final(store)@.tallies_consistent(),
        old(store)@.votes_accounted() ==> final(store)@.votes_accounted(),
{
    let ghost s = store@;
    let (active, end, total, threshold) = match store.sessions.get(circle_id) {
        Some(session) => (
            session.is_active,
            session.end_timestamp,
            session.total_votes_weight,
            session.vote_threshold,
        ),
        None => {
            return Err(VotingError::VotingNotActive);
        },
    };
    if !active {
        return Err(VotingError::VotingNotActive);
    }
    if now < end {
        return Err(VotingError::VotingPeriodExpired);
    }
    let max_members = match store.circles.get(circle_id) {
        Some(c) => c.max_members,
        None => {
            return Err(VotingError::Unauthorized);
        },
    };
    let config = get_voting_config(store);
    let max_weight_per_member = calculate_vote_weight(MAX_RELIABILITY_INDEX, config.weight_multiplier);
    let max_possible_weight = max_members as u64 * max_weight_per_member;
    let participation_rate = (total * 10000) / max_possible_weight;
    if participation_rate < threshold as u64 {
        return Err(VotingError::TallyFailed);
    }
    let winner = match find_winner(env, store, circle_id) {
        Some(w) => w,
        None => {
            return Err(VotingError::TallyFailed);
        },
    };
    let ghost w = winner@;
    let mut session = match store.sessions.remove(circle_id) {
        Some(session) => session,
        None => {
            proof {
                assert(false);
            }
            return Err(VotingError::TallyFailed);
        },
    };
    session.is_active = false;
    session.winning_strategy = Some(copy_strategies(&winner));
    store.sessions.insert(circle_id, session);
    proof {
        let e = finalized(s, circle_id, w);
        assert(store@.sessions =~= e.sessions);
        assert(store@ == e);
        lemma_finalized_keeps_invariants(s, circle_id, w);
    }
    Ok(winner)
}

/// Closing a session keeps votes and tallies consistent and every vote accounted for: its
/// total weight is unchanged.
proof fn lemma_finalized_keeps_invariants(s: VotingStateView, circle_id: u64, w: Seq<DistributionStrategy>)
    requires
        s.sessions.contains_key(circle_id),
    ensures
        s.tallies_consistent() ==> finalized(s, circle_id, w).tallies_consistent(),
        s.votes_accounted() ==> finalized(s, circle_id, w).votes_accounted(),
{
    let t = finalized(s, circle_id, w);
    assert(t.sessions.dom() =~= s.sessions.dom());
    assert forall|c: u64| #[trigger] t.sessions.contains_key(c) implies t.sessions[c].total_votes_weight
        == s.sessions[c].total_votes_weight by {
    }
    if s.votes_accounted() {
        assert forall|c: u64| #[trigger] t.circle_accounted(c) by {
            assert(s.circle_accounted(c));
            assert(t.votes_of(c) == s.votes_of(c));
            assert(t.tallies_of(c) == s.tallies_of(c));
            assert forall|h: Seq<u8>| #[trigger] t.tallies_of(c).contains_key(h) implies t.tally_backed(c, h) by {
                assert(s.tally_backed(c, h));
                let v = choose|v: AccountId| #[trigger]
                    s.votes_of(c).contains_key(v) && strategy_hash_of(s.votes_of(c)[v].voted_strategies) == h;
                assert(t.votes_of(c).contains_key(v));
            }
        }
    }
}

/// A distribution chosen by a vote in circle `circle_id` whose tally carries the largest
/// weight, or `None` when the circle has no tally or no vote for the heaviest one found.
fn find_winner(env: &soroban_sdk::Env, store: &VotingStore, circle_id: u64) -> (r: Option<
    Vec<DistributionStrategy>,
>)
    ensures
        match r {
            Some(w) => may_win(store@, circle_id, w@),
            None => store@.tallies_of(circle_id).is_empty() || !store@.circle_accounted(circle_id),
        },
{
    let tallies = match store.tallies.get(circle_id) {
        Some(t) => t,
        None => {
            assert(store@.tallies_of(circle_id) =~= Map::<Seq<u8>, TallyView>::empty());
            return None;
        },
    };
    let ghost tv = store@.tallies_of(circle_id);
    assert(tallies@ == tv);
    let hashes = tallies.keys();
    let mut best: Option<usize> = None;
    let mut best_weight: u64 = 0;
    let mut j: usize = 0;
    while j < hashes.len()
        invariant
            tallies@ == tv,
            j <= hashes@.len(),
            forall|i: int| 0 <= i < hashes@.len() ==> tv.contains_key(#[trigger] hashes@[i]@),
            match best {
                Some(b) => b < j && tv[hashes@[b as int]@].total_weight == best_weight,
                None => j == 0,
            },
            forall|m: int| 0 <= m < j ==> tv[#[trigger] hashes@[m]@].total_weight <= best_weight,
        decreases hashes@.len() - j,
    {
        assert(tv.contains_key(hashes@[j as int]@));
        let weight = match tallies.get(&hashes[j]) {
            Some(t) => t.total_weight,
            None => {
                proof {
                    assert(false);
                }
                0
            },
        };
        if best.is_none() || weight > best_weight {
            best = Some(j);
            best_weight = weight;
        }
        j = j + 1;
    }
    let b = match best {
        Some(b) => b,
        None => {
            assert forall|k: Seq<u8>| !tv.contains_key(k) by {
                if tv.contains_key(k) {
                    let i = choose|i: int| 0 <= i < hashes@.len() && hashes@[i]@ == k;
                }
            }
            assert(tv.dom() =~= Set::<Seq<u8>>::empty());
            return None;
        },
    };
    let heaviest = &hashes[b];
    assert forall|k: Seq<u8>| #[trigger] tv.contains_key(k) implies tv[k].total_weight
        <= tv[heaviest@].total_weight by {
        let i = choose|i: int| 0 <= i < hashes@.len() && hashes@[i]@ == k;
        assert(tv[hashes@[i]@].total_weight <= best_weight);
    }
    assert(is_heaviest(tv, heaviest@));
    let votes = match store.votes.get(circle_id) {
        Some(v) => v,
        None => {
            proof {
                if store@.circle_accounted(circle_id) {
                    assert(store@.tally_backed(circle_id, heaviest@));
                    let v = choose|v: AccountId| #[trigger]
                        store@.votes_of(circle_id).contains_key(v) && strategy_hash_of(
                            store@.votes_of(circle_id)[v].voted_strategies,
                        ) == heaviest@;
                    assert(store@.votes_of(circle_id) =~= Map::<AccountId, VoteView>::empty());
                }
            }
            return None;
        },
    };
    let ghost vv = store@.votes_of(circle_id);
    assert(votes@ == vv);
    let voters = votes.keys();
    let mut i: usize = 0;
    while i < voters.len()
        invariant
            votes@ == vv,
            vv == store@.votes_of(circle_id),
            tv == store@.tallies_of(circle_id),
            is_heaviest(tv, heaviest@),
            i <= voters@.len(),
            voters@.to_set() == vv.dom(),
            forall|m: int| 0 <= m < i ==> strategy_hash_of(vv[#[trigger] voters@[m]].voted_strategies)
                != heaviest@,
        decreases voters@.len() - i,
    {
        assert(voters@.to_set().contains(voters@[i as int]));
        let vote = match votes.get(voters[i]) {
            Some(v) => v,
            None => {
                proof {
                    assert(false);
                }
                return None;
            },
        };
        let h = hash_strategy_array(env, &vote.voted_strategies);
        if bytes_equal(&h, heaviest) {
            let w = copy_strategies(&vote.voted_strategies);
            proof {
                let v = voters@[i as int];
                assert(vv.contains_key(v) && vv[v].voted_strategies == w@);
                assert(strategy_hash_of(w@) == heaviest@);
                assert(is_heaviest(store@.tallies_of(circle_id), strategy_hash_of(w@)));
                assert(store@.votes_of(circle_id).contains_key(v)
                    && store@.votes_of(circle_id)[v].voted_strategies == w@);
            }
            return Some(w);
        }
        i = i + 1;
    }
    proof {
        if store@.circle_accounted(circle_id) {
            assert(store@.tally_backed(circle_id, heaviest@));
            let v = choose|v: AccountId| #[trigger]
                vv.contains_key(v) && strategy_hash_of(vv[v].voted_strategies) == heaviest@;
            assert(voters@.to_set().contains(v));
            let m = choose|m: int| 0 <= m < voters@.len() && voters@[m] == v;
            assert(false);
        }
    }
    None
}

/// Allocates `amount` to `strategy`. Strategy contracts are not called: the allocation is
/// accepted as it is.
fn execute_strategy_allocation(strategy: &DistributionStrategy, amount: i128) -> (r: Result<
    (),
    VotingError,
>)
    ensures
        r == Ok::<(), VotingError>(()),
{
    Ok(())
}

/// An amount sent to one strategy.
#[derive(Clone, Copy, Debug, PartialEq, Eq, Structural)]
pub struct Allocation {
    pub strategy_address: AccountId,
    pub amount: i128,
}

/// The share of `total` that an allocation of `pct` basis points gets: the product divided
/// by 10000, rounded toward zero.
pub open spec fn share_amount(total: i128, pct: u32) -> int {
    let p = total * pct;
    if p >= 0 {
        p / 10000
    } else {
        -((-p) / 10000)
    }
}

/// The allocations made when `total` is distributed by `w`: in the order of `w`, each share
/// whose amount is positive, with that amount.
pub open spec fn allocations_of(w: Seq<DistributionStrategy>, total: i128) -> Seq<(AccountId, int)>
    decreases w.len(),
{
    if w.len() == 0 {
        Seq::empty()
    } else {
        let d = w.last();
        let rest = allocations_of(w.drop_last(), total);
        if share_amount(total, d.allocation_percentage) > 0 {
            rest.push((d.strategy_address, share_amount(total, d.allocation_percentage)))
        } else {
            rest
        }
    }
}

/// The sum of the amounts of `a`.
pub open spec fn allocated_total(a: Seq<(AccountId, int)>) -> int
    decreases a.len(),
{
    if a.len() == 0 {
        0
    } else {
        allocated_total(a.drop_last()) + a.last().1
    }
}

/// `allocations` lists exactly the pairs of `plan`.
pub open spec fn allocations_match(allocations: Seq<Allocation>, plan: Seq<(AccountId, int)>) -> bool {
    &&& allocations.len() == plan.len()
    &&& forall|i: int|
        0 <= i < plan.len() ==> (#[trigger] allocations[i]).strategy_address == plan[i].0
            && allocations[i].amount == plan[i].1
}

/// Distributes `total_yield_amount` by the winning distribution of circle `circle_id` and
/// returns the allocations made: in the order of the distribution, each share whose amount
/// (the total times its allocation, divided by 10000 and rounded toward zero) is positive.
/// Fails with `VotingNotActive` unless the circle's session is closed with a winning
/// distribution. The storage is not changed.
pub fn execute_distribution_strategy(store: &VotingStore, circle_id: u64, total_yield_amount: i128) -> (r:
    Result<Vec<Allocation>, VotingError>)
    requires
        store@.sessions.contains_key(circle_id) && !store@.sessions[circle_id].is_active
            && store@.sessions[circle_id].winning_strategy is Some ==> forall|i: int|
            0 <= i < store@.sessions[circle_id].winning_strategy->0.len() ==> i128::MIN
                <= total_yield_amount * (
            #[trigger] store@.sessions[circle_id].winning_strategy->0[i]).allocation_percentage
                <= i128::MAX,
    ensures
        match r {
            Ok(a) => store@.sessions.contains_key(circle_id) && !store@.sessions[circle_id].is_active
                && store@.sessions[circle_id].winning_strategy is Some && allocations_match(
                a@,
                allocations_of(store@.sessions[circle_id].winning_strategy->0, total_yield_amount),
            ),
            Err(e) => e == VotingError::VotingNotActive && !(store@.sessions.contains_key(circle_id)
                && !store@.sessions[circle_id].is_active
                && store@.sessions[circle_id].winning_strategy is Some),
        },
{
    let session = match store.sessions.get(circle_id) {
        Some(s) => s,
        None => {
            return Err(VotingError::VotingNotActive);
        },
    };
    if session.is_active {
        return Err(VotingError::VotingNotActive);
    }
    let winning = match &session.winning_strategy {
        Some(w) => w,
        None => {
            return Err(VotingError::VotingNotActive);
        },
    };
    let ghost ws = store@.sessions[circle_id].winning_strategy->0;
    assert(winning@ == ws);
    let mut performed: Vec<Allocation> = Vec::new();
    let mut i: usize = 0;
    while i < winning.len()
        invariant
            i <= winning.len(),
            winning@ == ws,
            forall|k: int|
                0 <= k < winning@.len() ==> i128::MIN <= total_yield_amount * (
                #[trigger] winning@[k]).allocation_percentage <= i128::MAX,
            allocations_match(performed@, allocations_of(ws.take(i as int), total_yield_amount)),
        decreases winning.len() - i,
    {
        let strategy = winning[i];
        assert(winning@[i as int] == strategy);
        let product = total_yield_amount * strategy.allocation_percentage as i128;
        let allocation_amount = product / 10000;
        proof {
            let t = ws.take(i + 1);
            assert(t.drop_last() =~= ws.take(i as int));
            assert(t.last() == strategy);
            if product < 0 {
                assert(allocation_amount == -((-product) / 10000));
            }
            assert(allocation_amount == share_amount(total_yield_amount, strategy.allocation_percentage));
        }
        if allocation_amount > 0 {
            match execute_strategy_allocation(&strategy, allocation_amount) {
                Ok(()) => {},
                Err(e) => {
                    return Err(e);
                },
            }
            performed.push(Allocation { strategy_address: strategy.strategy_address, amount: allocation_amount });
        }
        i = i + 1;
    }
    assert(ws.take(winning.len() as int) =~= ws);
    Ok(performed)
}

/// A distribution whose allocations add up to 100% hands out no more than the total, and
/// loses less than one unit per share to rounding: the allocated sum `a` of a non-negative
/// total over `n` shares satisfies `total - n < a <= total`.
pub proof fn lemma_distribution_within_total(w: Seq<DistributionStrategy>, total: i128)
    requires
        total >= 0,
        allocation_sum(w) == 10000,
    ensures
        total - w.len() < allocated_total(allocations_of(w, total)) <= total,
{
    lemma_allocated_total_bounds(w, total);
    if w.len() == 0 {
        assert(allocation_sum(w) == 0);
    }
}

/// For a non-negative total, ten thousand times the allocated sum lies between the total
/// times the allocation sum, less 9999 per share, and the total times the allocation sum.
proof fn lemma_allocated_total_bounds(w: Seq<DistributionStrategy>, total: i128)
    requires
        total >= 0,
    ensures
        10000 * allocated_total(allocations_of(w, total)) <= total * allocation_sum(w),
        10000 * allocated_total(allocations_of(w, total)) >= total * allocation_sum(w) - 9999 * w.len(),
    decreases w.len(),
{
    if w.len() > 0 {
        let d = w.last();
        let rest = w.drop_last();
        lemma_allocated_total_bounds(rest, total);
        let p: int = total * d.allocation_percentage;
        let q = share_amount(total, d.allocation_percentage);
        assert(p >= 0) by (nonlinear_arith)
            requires
                total >= 0,
                p == total * d.allocation_percentage,
        ;
        assert(q == p / 10000);
        assert(10000 * q <= p && p < 10000 * q + 10000) by (nonlinear_arith)
            requires
                p >= 0,
                q == p / 10000,
        ;
        let a = allocations_of(rest, total);
        if q > 0 {
            let pushed = a.push((d.strategy_address, q));
            assert(pushed.drop_last() =~= a);
        }
        assert(total * allocation_sum(w) == total * allocation_sum(rest) + p) by (nonlinear_arith)
            requires
                allocation_sum(w) == allocation_sum(rest) + d.allocation_percentage,
                p == total * d.allocation_percentage,
        ;
    }
}

/// Stores `config` as the voting configuration when `admin` is the contract administrator
/// (the caller has checked `admin`'s authorization); otherwise fails with `Unauthorized`.
pub fn set_voting_config(store: &mut VotingStore, admin: AccountId, config: VotingConfig) -> (r:
    Result<(), VotingError>)
    ensures
        old(store)@.admin == Some(admin) ==> r == Ok::<(), VotingError>(()) && final(store)@ == (
        VotingStateView { config: Some(config), ..old(store)@ }),
        old(store)@.admin != Some(admin) ==> r == Err::<(), VotingError>(VotingError::Unauthorized)
            && final(store)@ == old(store)@,
{
    match store.admin {
        Some(a) => {
            if a != admin {
                return Err(VotingError::Unauthorized);
            }
        },
        None => {
            return Err(VotingError::Unauthorized);
        },
    }
    store.config = Some(config);
    Ok(())
}

/// The voting session of circle `circle_id`, or `VotingNotActive`.
pub fn get_voting_session(store: &VotingStore, circle_id: u64) -> (r: Result<VotingSession, VotingError>)
    ensures
        match r {
            Ok(session) => store@.sessions.contains_key(circle_id) && session@
                == store@.sessions[circle_id],
            Err(e) => !store@.sessions.contains_key(circle_id) && e == VotingError::VotingNotActive,
        },
{
    match store.sessions.get(circle_id) {
        Some(s) => Ok(s.clone()),
        None => Err(VotingError::VotingNotActive),
    }
}

/// The vote of `voter` in circle `circle_id`; `AlreadyVoted` stands for "no such vote".
pub fn get_user_vote(store: &VotingStore, voter: AccountId, circle_id: u64) -> (r: Result<Vote, VotingError>)
    ensures
        match r {
            Ok(vote) => store@.has_voted(voter, circle_id) && vote@ == store@.votes[circle_id][voter],
            Err(e) => !store@.has_voted(voter, circle_id) && e == VotingError::AlreadyVoted,
        },
{
    match store.votes.get(circle_id) {
        Some(m) => match m.get(voter) {
            Some(v) => Ok(v.clone()),
            None => Err(VotingError::AlreadyVoted),
        },
        None => Err(VotingError::AlreadyVoted),
    }
}

/// The share `d` names a strategy listed for the session of circle `circle_id` in the stored
/// lists, with an allocation between 1 and 10000 basis points.
pub open spec fn listed_share(s: VotingStateView, circle_id: u64, d: DistributionStrategy) -> bool {
    &&& s.active_strategies.contains_key(circle_id)
    &&& s.active_strategies[circle_id].contains(d.strategy_address)
    &&& 0 < d.allocation_percentage
    &&& d.allocation_percentage <= 10000
}

/// A distribution is valid for a circle's session exactly when every one of its shares names
/// a strategy listed for that session, with an allocation between 1 and 10000 basis points,
/// and the allocations add up to 10000.
pub proof fn lemma_strategies_valid_exactly(s: VotingStateView, circle_id: u64, d: Seq<DistributionStrategy>)
    ensures
        s.strategies_valid(circle_id, d) == (allocation_sum(d) == 10000 && forall|i: int|
            0 <= i < d.len() ==> #[trigger] listed_share(s, circle_id, d[i])),
{
    let act = s.strategies_of(circle_id);
    assert forall|i: int| 0 <= i < d.len() implies #[trigger] share_valid(act, d[i]) == listed_share(
        s,
        circle_id,
        d[i],
    ) by {
        if !s.active_strategies.contains_key(circle_id) {
            assert(act == Seq::<AccountId>::empty());
            assert(!act.contains(d[i].strategy_address));
        }
    }
    if s.strategies_valid(circle_id, d) {
        assert forall|i: int| 0 <= i < d.len() implies #[trigger] listed_share(s, circle_id, d[i]) by {
            assert(share_valid(act, d[i]));
        }
    }
    if allocation_sum(d) == 10000 && forall|i: int|
        0 <= i < d.len() ==> #[trigger] listed_share(s, circle_id, d[i]) {
        assert forall|i: int| 0 <= i < d.len() implies #[trigger] share_valid(act, d[i]) by {
            assert(listed_share(s, circle_id, d[i]));
        }
    }
}

/// An accepted vote records exactly the proposed distribution, every share of which names a
/// strategy listed for the circle's session; a vote naming any unlisted strategy is refused
/// and changes nothing.
pub proof fn lemma_accepted_vote_uses_listed_strategies(
    s: VotingStateView,
    voter: AccountId,
    circle_id: u64,
    proposed: Seq<DistributionStrategy>,
    now: u64,
)
    ensures
        ({
            let (r, s1) = cast_vote_spec(s, voter, circle_id, proposed, now);
            &&& r is Ok ==> {
                &&& s1.votes[circle_id][voter].voted_strategies == proposed
                &&& forall|i: int| 0 <= i < proposed.len() ==> #[trigger] listed_share(s, circle_id, proposed[i])
            }
            &&& (exists|i: int| 0 <= i < proposed.len() && !#[trigger] listed_share(s, circle_id, proposed[i]))
                ==> r is Err && s1 == s
        }),
{
    lemma_strategies_valid_exactly(s, circle_id, proposed);
    let (r, s1) = cast_vote_spec(s, voter, circle_id, proposed, now);
    if exists|i: int| 0 <= i < proposed.len() && !#[trigger] listed_share(s, circle_id, proposed[i]) {
        assert(!s.strategies_valid(circle_id, proposed));
    }
}

/// The weight of a vote is the reliability index times the multiplier, divided by 10000 and
/// rounded down.
pub proof fn lemma_vote_weight_rounds_down(reliability_index: u32, multiplier: u64)
    ensures
        vote_weight_of(reliability_index, multiplier) * 10000 <= reliability_index * multiplier,
        reliability_index * multiplier < (vote_weight_of(reliability_index, multiplier) + 1) * 10000,
{
    let p: int = reliability_index * multiplier;
    assert(p >= 0) by (nonlinear_arith)
        requires
            p == reliability_index * multiplier,
    ;
    let q = p / 10000;
    assert(q * 10000 <= p && p < (q + 1) * 10000) by (nonlinear_arith)
        requires
            p >= 0,
            q == p / 10000,
    ;
}

/// Each allocation made from a non-negative total is its share rounded down: ten thousand
/// times the amount is at most the total times the share's allocation, and less than that
/// plus 10000; shares whose amount rounds down to 0 get no allocation.
pub proof fn lemma_allocation_amounts(w: Seq<DistributionStrategy>, total: i128)
    requires
        total >= 0,
    ensures
        forall|j: int|
            0 <= j < allocations_of(w, total).len() ==> exists|i: int|
                0 <= i < w.len() && (#[trigger] allocations_of(w, total)[j]).0 == w[i].strategy_address
                    && allocations_of(w, total)[j].1 > 0 && allocations_of(w, total)[j].1 * 10000
                    <= total * w[i].allocation_percentage && total * w[i].allocation_percentage
                    < allocations_of(w, total)[j].1 * 10000 + 10000,
        allocations_of(w, total).len() <= w.len(),
    decreases w.len(),
{
    if w.len() > 0 {
        let rest = w.drop_last();
        lemma_allocation_amounts(rest, total);
        let d = w.last();
        let p: int = total * d.allocation_percentage;
        assert(p >= 0) by (nonlinear_arith)
            requires
                total >= 0,
                p == total * d.allocation_percentage,
        ;
        let q = p / 10000;
        assert(q * 10000 <= p && p < q * 10000 + 10000) by (nonlinear_arith)
            requires
                p >= 0,
                q == p / 10000,
        ;
        let a = allocations_of(rest, total);
        let full = allocations_of(w, total);
        assert forall|j: int| 0 <= j < full.len() implies exists|i: int|
            0 <= i < w.len() && (#[trigger] full[j]).0 == w[i].strategy_address && full[j].1 > 0
                && full[j].1 * 10000 <= total * w[i].allocation_percentage && total
                * w[i].allocation_percentage < full[j].1 * 10000 + 10000 by {
            if j < a.len() {
                assert(full[j] == a[j]);
                let i = choose|i: int|
                    0 <= i < rest.len() && (#[trigger] a[j]).0 == rest[i].strategy_address && a[j].1 > 0
                        && a[j].1 * 10000 <= total * rest[i].allocation_percentage && total
                        * rest[i].allocation_percentage < a[j].1 * 10000 + 10000;
                assert(rest[i] == w[i]);
            } else {
                assert(full[j] == (d.strategy_address, q));
                assert(w[w.len() - 1] == d);
            }
        }
    }
}

/// A voter votes at most once per session: once a vote is accepted, every further vote by the
/// same voter in that circle is refused, with `AlreadyVoted` while the session is open.
pub proof fn lemma_one_vote_per_voter(
    s: VotingStateView,
    voter: AccountId,
    circle_id: u64,
    first: Seq<DistributionStrategy>,
    voted_at: u64,
    second: Seq<DistributionStrategy>,
    again_at: u64,
)
    requires
        cast_vote_spec(s, voter, circle_id, first, voted_at).0 is Ok,
    ensures
        ({
            let s1 = cast_vote_spec(s, voter, circle_id, first, voted_at).1;
            let r2 = cast_vote_spec(s1, voter, circle_id, second, again_at).0;
            &&& s1.has_voted(voter, circle_id)
            &&& r2 is Err
            &&& again_at <= s.sessions[circle_id].end_timestamp ==> r2 == Err::<(), VotingError>(
                VotingError::AlreadyVoted,
            )
        }),
{
}

/// An accepted vote adds its weight, `DEFAULT_RELIABILITY_INDEX` times the multiplier in
/// units of 10000, both to the session's total and to the tally of the chosen distribution.
pub proof fn lemma_vote_weight_counted(
    s: VotingStateView,
    voter: AccountId,
    circle_id: u64,
    proposed: Seq<DistributionStrategy>,
    now: u64,
)
    requires
        cast_vote_spec(s, voter, circle_id, proposed, now).0 is Ok,
        s.sessions[circle_id].total_votes_weight + vote_weight_of(
            DEFAULT_RELIABILITY_INDEX,
            s.config_in_force().weight_multiplier,
        ) <= u64::MAX,
        s.tallies_of(circle_id).contains_key(strategy_hash_of(proposed)) ==> s.tallies_of(
            circle_id,
        )[strategy_hash_of(proposed)].total_weight + vote_weight_of(
            DEFAULT_RELIABILITY_INDEX,
            s.config_in_force().weight_multiplier,
        ) <= u64::MAX,
    ensures
        ({
            let s1 = cast_vote_spec(s, voter, circle_id, proposed, now).1;
            let w = vote_weight_of(DEFAULT_RELIABILITY_INDEX, s.config_in_force().weight_multiplier);
            let h = strategy_hash_of(proposed);
            let before = if s.tallies_of(circle_id).contains_key(h) {
                s.tallies_of(circle_id)[h].total_weight as int
            } else {
                0
            };
            &&& s1.sessions[circle_id].total_votes_weight == s.sessions[circle_id].total_votes_weight + w
            &&& s1.tallies[circle_id][h].total_weight == before + w
            &&& s1.votes[circle_id][voter].vote_weight == w
        }),
{
    assert(0 <= vote_weight_of(DEFAULT_RELIABILITY_INDEX, s.config_in_force().weight_multiplier))
        by (nonlinear_arith);
}

/// A circle's voting session is opened once: a second initialization is refused with
/// `VotingNotActive` and changes nothing.
pub proof fn lemma_session_opened_once(
    s: VotingStateView,
    circle_id: u64,
    first: Seq<AccountId>,
    opened_at: u64,
    second: Seq<AccountId>,
    again_at: u64,
)
    requires
        initialize_spec(s, circle_id, first, opened_at).0 is Ok,
    ensures
        ({
            let s1 = initialize_spec(s, circle_id, first, opened_at).1;
            initialize_spec(s1, circle_id, second, again_at) == (
                Err::<(), VotingError>(VotingError::VotingNotActive),
                s1,
            )
        }),
{
}

/// Votes are accepted only while the session is open: no vote is accepted after the
/// session's end.
pub proof fn lemma_no_vote_after_end(
    s: VotingStateView,
    voter: AccountId,
    circle_id: u64,
    proposed: Seq<DistributionStrategy>,
    now: u64,
)
    requires
        s.sessions.contains_key(circle_id),
        s.sessions[circle_id].is_active,
        now > s.sessions[circle_id].end_timestamp,
    ensures
        cast_vote_spec(s, voter, circle_id, proposed, now) == (
            Err::<(), VotingError>(VotingError::VotingPeriodExpired),
            s,
        ),
{
}

} // verus!
