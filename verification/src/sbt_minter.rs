//! Soulbound reputation credentials: an administrator defines reputation milestones for users,
//! and a user who reaches one is issued a non-transferable credential recording their
//! reputation tier and metrics.
//!
//! `SoroSusuSbtMinter` holds the storage of the minter contract.
use crate::collections::IdMap;
use crate::AccountId;
use vstd::prelude::*;

verus! {

broadcast use vstd::std_specs::hash::group_hash_axioms;

/// Standing of a credential.
#[derive(Clone, Copy, Debug, PartialEq, Eq, Structural)]
pub enum SbtStatus {
    Active,
    Dishonored,
    Revoked,
}

/// Reputation tier, by completed cycles.
#[derive(Clone, Copy, Debug, PartialEq, Eq, Structural)]
pub enum ReputationTier {
    /// 0-2 cycles completed.
    Bronze,
    /// 3-5 cycles completed.
    Silver,
    /// 6-9 cycles completed.
    Gold,
    /// 10 or more cycles completed.
    Platinum,
    /// Legendary: 12 or more cycles completed, every one of them perfect.
    Diamond,
}

/// Every completed cycle was a perfect one.
pub open spec fn perfect_record(total_cycles: u32, perfect_cycles: u32) -> bool {
    perfect_cycles >= total_cycles
}

/// The tier of a user with `total_cycles` completed cycles, `perfect_cycles` of them perfect.
pub open spec fn tier_for_cycles(total_cycles: u32, perfect_cycles: u32) -> ReputationTier {
    if total_cycles <= 2 {
        ReputationTier::Bronze
    } else if total_cycles <= 5 {
        ReputationTier::Silver
    } else if total_cycles <= 9 {
        ReputationTier::Gold
    } else if total_cycles >= 12 && perfect_record(total_cycles, perfect_cycles) {
        ReputationTier::Diamond
    } else {
        ReputationTier::Platinum
    }
}

/// The tier of a user with `total_cycles` completed cycles, `perfect_cycles` of them perfect.
pub fn reputation_tier_for(total_cycles: u32, perfect_cycles: u32) -> (t: ReputationTier)
    ensures
        t == tier_for_cycles(total_cycles, perfect_cycles),
        (t == ReputationTier::Bronze) == (total_cycles <= 2),
        (t == ReputationTier::Silver) == (3 <= total_cycles <= 5),
        (t == ReputationTier::Gold) == (6 <= total_cycles <= 9),
        (t == ReputationTier::Diamond) == (total_cycles >= 12 && perfect_cycles >= total_cycles),
{
    if total_cycles <= 2 {
        ReputationTier::Bronze
    } else if total_cycles <= 5 {
        ReputationTier::Silver
    } else if total_cycles <= 9 {
        ReputationTier::Gold
    } else if total_cycles >= 12 && perfect_cycles >= total_cycles {
        ReputationTier::Diamond
    } else {
        ReputationTier::Platinum
    }
}

/// A soulbound credential.
#[derive(Debug)]
pub struct SoroSusuCredential {
    pub token_id: u128,
    pub holder: AccountId,
    pub reputation_tier: ReputationTier,
    pub total_cycles_completed: u32,
    pub perfect_cycles: u32,
    /// Basis points (10000 = 100%).
    pub on_time_rate: u32,
    /// 0-10000 basis points.
    pub reliability_score: u32,
    /// 0-10000 basis points.
    pub social_capital_score: u32,
    pub total_volume_saved: i128,
    pub last_activity: u64,
    pub status: SbtStatus,
    pub minted_timestamp: u64,
    pub metadata_uri: String,
}

/// The value of a `SoroSusuCredential`.
pub struct SbtCredentialView {
    pub token_id: u128,
    pub holder: AccountId,
    pub reputation_tier: ReputationTier,
    pub total_cycles_completed: u32,
    pub perfect_cycles: u32,
    pub on_time_rate: u32,
    pub reliability_score: u32,
    pub social_capital_score: u32,
    pub total_volume_saved: i128,
    pub last_activity: u64,
    pub status: SbtStatus,
    pub minted_timestamp: u64,
    pub metadata_uri: Seq<char>,
}

impl View for SoroSusuCredential {
    type V = SbtCredentialView;

    open spec fn view(&self) -> SbtCredentialView {
        SbtCredentialView {
            token_id: self.token_id,
            holder: self.holder,
            reputation_tier: self.reputation_tier,
            total_cycles_completed: self.total_cycles_completed,
            perfect_cycles: self.perfect_cycles,
            on_time_rate: self.on_time_rate,
            reliability_score: self.reliability_score,
            social_capital_score: self.social_capital_score,
            total_volume_saved: self.total_volume_saved,
            last_activity: self.last_activity,
            status: self.status,
            minted_timestamp: self.minted_timestamp,
            metadata_uri: self.metadata_uri@,
        }
    }
}

impl Clone for SoroSusuCredential {
    fn clone(&self) -> (r: Self)
        ensures
            r@ == self@,
    {
        SoroSusuCredential {
            token_id: self.token_id,
            holder: self.holder,
            reputation_tier: self.reputation_tier,
            total_cycles_completed: self.total_cycles_completed,
            perfect_cycles: self.perfect_cycles,
            on_time_rate: self.on_time_rate,
            reliability_score: self.reliability_score,
            social_capital_score: self.social_capital_score,
            total_volume_saved: self.total_volume_saved,
            last_activity: self.last_activity,
            status: self.status,
            minted_timestamp: self.minted_timestamp,
            metadata_uri: self.metadata_uri.clone(),
        }
    }
}

/// A reputation milestone set for a user.
#[derive(Debug)]
pub struct ReputationMilestone {
    pub milestone_id: u64,
    pub user: AccountId,
    pub cycles_required: u32,
    pub description: String,
    pub is_completed: bool,
    pub completion_timestamp: Option<u64>,
    pub reward_tier: ReputationTier,
}

/// The value of a `ReputationMilestone`.
pub struct MilestoneView {
    pub milestone_id: u64,
    pub user: AccountId,
    pub cycles_required: u32,
    pub description: Seq<char>,
    pub is_completed: bool,
    pub completion_timestamp: Option<u64>,
    pub reward_tier: ReputationTier,
}

impl View for ReputationMilestone {
    type V = MilestoneView;

    open spec fn view(&self) -> MilestoneView {
        MilestoneView {
            milestone_id: self.milestone_id,
            user: self.user,
            cycles_required: self.cycles_required,
            description: self.description@,
            is_completed: self.is_completed,
            completion_timestamp: self.completion_timestamp,
            reward_tier: self.reward_tier,
        }
    }
}

impl Clone for ReputationMilestone {
    fn clone(&self) -> (r: Self)
        ensures
            r@ == self@,
    {
        ReputationMilestone {
            milestone_id: self.milestone_id,
            user: self.user,
            cycles_required: self.cycles_required,
            description: self.description.clone(),
            is_completed: self.is_completed,
            completion_timestamp: self.completion_timestamp,
            reward_tier: self.reward_tier,
        }
    }
}

/// Reputation metrics of a user.
#[derive(Clone, Copy, Debug, PartialEq, Eq, Structural)]
pub struct UserReputationMetrics {
    /// 0-10000 basis points.
    pub reliability_score: u32,
    /// 0-10000 basis points.
    pub social_capital_score: u32,
    pub total_cycles: u32,
    pub perfect_cycles: u32,
    pub last_updated: u64,
    pub total_volume_saved: i128,
}

impl View for UserReputationMetrics {
    type V = UserReputationMetrics;

    open spec fn view(&self) -> UserReputationMetrics {
        *self
    }
}

/// The metrics of a user who has none on record, as of time `now`.
pub open spec fn default_metrics(now: u64) -> UserReputationMetrics {
    UserReputationMetrics {
        reliability_score: 5000,
        social_capital_score: 5000,
        total_cycles: 0,
        perfect_cycles: 0,
        last_updated: now,
        total_volume_saved: 0,
    }
}

/// The value of the minter's storage.
pub struct SbtStateView {
    pub admin: Option<AccountId>,
    pub milestone_count: Option<u64>,
    pub credential_count: u128,
    pub milestones: Map<u64, MilestoneView>,
    pub credentials: Map<u128, SbtCredentialView>,
    pub user_credentials: Map<AccountId, u128>,
    pub user_metrics: Map<AccountId, UserReputationMetrics>,
}

impl SbtStateView {
    /// The storage is consistent: an uninitialized minter has no milestones, every milestone
    /// and credential is stored under its own id, no milestone id exceeds the milestone
    /// counter, every token id lies between 1 and the credential counter, and each user's
    /// credential pointer refers to a stored credential.
    pub open spec fn well_formed(self) -> bool {
        &&& self.admin.is_none() ==> self.milestone_count.is_none() && self.milestones.is_empty()
        &&& forall|id: u64| #[trigger]
            self.milestones.contains_key(id) ==> self.milestones[id].milestone_id == id && id
                <= self.milestone_count.unwrap_or(0)
        &&& forall|t: u128| #[trigger]
            self.credentials.contains_key(t) ==> self.credentials[t].token_id == t && 1 <= t
                <= self.credential_count
        &&& forall|u: AccountId| #[trigger]
            self.user_credentials.contains_key(u) ==> self.credentials.contains_key(
                self.user_credentials[u],
            )
    }

    /// The metrics of `user`, or the defaults as of `now`.
    pub open spec fn metrics_or_default(self, user: AccountId, now: u64) -> UserReputationMetrics {
        if self.user_metrics.contains_key(user) {
            self.user_metrics[user]
        } else {
            default_metrics(now)
        }
    }

    /// `issue_credential` may run: the milestone exists, belongs to `user`, is not completed,
    /// adding its cycles to the user's total does not overflow, and a token id is left.
    pub open spec fn can_issue(self, user: AccountId, milestone_id: u64) -> bool {
        &&& self.credential_count < u128::MAX
        &&& self.milestones.contains_key(milestone_id)
        &&& self.milestones[milestone_id].user == user
        &&& !self.milestones[milestone_id].is_completed
        &&& self.metrics_or_default(user, 0).total_cycles
            + self.milestones[milestone_id].cycles_required <= u32::MAX
    }
}

/// The token id of the next credential issued in `s`.
pub open spec fn next_token_id(s: SbtStateView) -> u128 {
    (s.credential_count + 1) as u128
}

/// Storage after `issue_credential(user, milestone_id, metadata_uri)` at time `now`; the
/// credential's token id is `next_token_id(s)`.
pub open spec fn issue_credential_spec(
    s: SbtStateView,
    user: AccountId,
    milestone_id: u64,
    metadata_uri: Seq<char>,
    now: u64,
) -> SbtStateView {
    let m = s.milestones[milestone_id];
    let old_metrics = s.metrics_or_default(user, now);
    let metrics = UserReputationMetrics {
        total_cycles: (old_metrics.total_cycles + m.cycles_required) as u32,
        last_updated: now,
        ..old_metrics
    };
    let token_id = next_token_id(s);
    let credential = SbtCredentialView {
        token_id,
        holder: user,
        reputation_tier: tier_for_cycles(metrics.total_cycles, metrics.perfect_cycles),
        total_cycles_completed: metrics.total_cycles,
        perfect_cycles: metrics.perfect_cycles,
        on_time_rate: metrics.reliability_score,
        reliability_score: metrics.reliability_score,
        social_capital_score: metrics.social_capital_score,
        total_volume_saved: metrics.total_volume_saved,
        last_activity: now,
        status: SbtStatus::Active,
        minted_timestamp: now,
        metadata_uri,
    };
    let completed = MilestoneView { is_completed: true, completion_timestamp: Some(now), ..m };
    SbtStateView {
        credential_count: token_id,
        credentials: s.credentials.insert(token_id, credential),
        user_credentials: s.user_credentials.insert(user, token_id),
        user_metrics: s.user_metrics.insert(user, metrics),
        milestones: s.milestones.insert(milestone_id, completed),
        ..s
    }
}

/// The storage of the soulbound credential minter.
pub struct SoroSusuSbtMinter {
    /// The minter's administrator.
    pub admin: Option<AccountId>,
    /// The number of milestones created so far.
    pub milestone_count: Option<u64>,
    /// The number of credentials issued so far; the latest one has this token id.
    pub credential_count: u128,
    /// Milestones by id.
    pub milestones: IdMap<u64, ReputationMilestone>,
    /// Credentials by token id.
    pub credentials: IdMap<u128, SoroSusuCredential>,
    /// The token id of each user's latest credential.
    pub user_credentials: IdMap<AccountId, u128>,
    /// Reputation metrics of each user.
    pub user_metrics: IdMap<AccountId, UserReputationMetrics>,
}

impl View for SoroSusuSbtMinter {
    type V = SbtStateView;

    open spec fn view(&self) -> SbtStateView {
        SbtStateView {
            admin: self.admin,
            milestone_count: self.milestone_count,
            credential_count: self.credential_count,
            milestones: self.milestones@,
            credentials: self.credentials@,
            user_credentials: self.user_credentials@,
            user_metrics: self.user_metrics@,
        }
    }
}

impl SoroSusuSbtMinter {
    /// Storage of a minter that has not been initialized.
    pub fn new() -> (m: Self)
        ensures
            m@.admin.is_none(),
            m@.milestone_count.is_none(),
            m@.credential_count == 0,
            m@.milestones == Map::<u64, MilestoneView>::empty(),
            m@.credentials == Map::<u128, SbtCredentialView>::empty(),
            m@.user_credentials == Map::<AccountId, u128>::empty(),
            m@.user_metrics == Map::<AccountId, UserReputationMetrics>::empty(),
            m@.well_formed(),
    {
        SoroSusuSbtMinter {
            admin: None,
            milestone_count: None,
            credential_count: 0,
            milestones: IdMap::new(),
            credentials: IdMap::new(),
            user_credentials: IdMap::new(),
            user_metrics: IdMap::new(),
        }
    }

    /// Makes `admin` the administrator of a minter that has none yet and starts the milestone
    /// counter at 0 (the caller has checked `admin`'s authorization). Once an administrator is
    /// set, only `set_sbt_minter_admin` changes it.
    pub fn init_sbt_minter(&mut self, admin: AccountId)
        requires
            old(self)@.admin.is_none(),
        ensures
            final(self)@ == (SbtStateView {
                admin: Some(admin),
                milestone_count: Some(0),
                ..old(self)@
            }),
            old(self)@.well_formed() ==> final(self)@.well_formed(),
    {
        self.admin = Some(admin);
        self.milestone_count = Some(0);
    }

    /// Hands the administration from `admin`, who must be the current administrator (the
    /// caller has checked `admin`'s authorization), to `new_admin`.
    pub fn set_sbt_minter_admin(&mut self, admin: AccountId, new_admin: AccountId)
        requires
            old(self)@.admin == Some(admin),
        ensures
            final(self)@ == (SbtStateView { admin: Some(new_admin), ..old(self)@ }),
            old(self)@.well_formed() ==> final(self)@.well_formed(),
    {
        self.admin = Some(new_admin);
    }

    /// Issues `user` the credential for milestone `milestone_id` at time `now`, returning its
    /// token id: one more than the number of credentials issued before, so no token id is
    /// used twice. The milestone's cycles are added to the user's metrics, the credential
    /// records the resulting tier and metrics, becomes the user's credential, and the
    /// milestone is marked completed.
    pub fn issue_credential(
        &mut self,
        user: AccountId,
        milestone_id: u64,
        metadata_uri: String,
        now: u64,
    ) -> (token_id: u128)
        requires
            old(self)@.can_issue(user, milestone_id),
        ensures
            token_id == next_token_id(old(self)@),
            final(self)@ == issue_credential_spec(
                old(self)@,
                user,
                milestone_id,
                metadata_uri@,
                now,
            ),
            old(self)@.well_formed() ==> final(self)@.well_formed(),
    {
        let ghost s = self@;
        let mut milestone = match self.milestones.remove(milestone_id) {
            Some(m) => m,
            None => {
                proof {
                    assert(false);
                }
                return 0;
            },
        };
        let mut metrics = match self.user_metrics.get(user) {
            Some(m) => *m,
            None => UserReputationMetrics {
                reliability_score: 5000,
                social_capital_score: 5000,
                total_cycles: 0,
                perfect_cycles: 0,
                last_updated: now,
                total_volume_saved: 0,
            },
        };
        metrics.total_cycles = metrics.total_cycles + milestone.cycles_required;
        metrics.last_updated = now;
        let tier = reputation_tier_for(metrics.total_cycles, metrics.perfect_cycles);
        let token_id = self.credential_count + 1;
        let credential = SoroSusuCredential {
            token_id,
            holder: user,
            reputation_tier: tier,
            total_cycles_completed: metrics.total_cycles,
            perfect_cycles: metrics.perfect_cycles,
            on_time_rate: metrics.reliability_score,
            reliability_score: metrics.reliability_score,
            social_capital_score: metrics.social_capital_score,
            total_volume_saved: metrics.total_volume_saved,
            last_activity: now,
            status: SbtStatus::Active,
            minted_timestamp: now,
            metadata_uri,
        };
        self.credential_count = token_id;
        self.credentials.insert(token_id, credential);
        self.user_credentials.insert(user, token_id);
        self.user_metrics.insert(user, metrics);
        milestone.is_completed = true;
        milestone.completion_timestamp = Some(now);
        self.milestones.insert(milestone_id, milestone);
        proof {
            let e = issue_credential_spec(s, user, milestone_id, metadata_uri@, now);
            assert(self@.milestones =~= e.milestones);
            assert(self@.credentials =~= e.credentials);
            assert(self@.user_credentials =~= e.user_credentials);
            assert(self@.user_metrics =~= e.user_metrics);
        }
        token_id
    }

    /// Sets the status of credential `token_id` (the caller has checked the administrator's
    /// authorization).
    pub fn update_credential_status(&mut self, token_id: u128, new_status: SbtStatus)
        requires
            old(self)@.admin.is_some(),
            old(self)@.credentials.contains_key(token_id),
        ensures
            final(self)@ == (SbtStateView {
                credentials: old(self)@.credentials.insert(
                    token_id,
                    SbtCredentialView { status: new_status, ..old(self)@.credentials[token_id] },
                ),
                ..old(self)@
            }),
            old(self)@.well_formed() ==> final(self)@.well_formed(),
    {
        let ghost s = self@;
        match self.credentials.remove(token_id) {
            Some(mut credential) => {
                credential.status = new_status;
                self.credentials.insert(token_id, credential);
                assert(self@.credentials =~= s.credentials.insert(
                    token_id,
                    SbtCredentialView { status: new_status, ..s.credentials[token_id] },
                ));
            },
            None => {},
        }
    }

    /// The credential with token id `token_id`.
    pub fn get_credential(&self, token_id: u128) -> (c: SoroSusuCredential)
        requires
            self@.credentials.contains_key(token_id),
        ensures
            c@ == self@.credentials[token_id],
    {
        match self.credentials.get(token_id) {
            Some(c) => c.clone(),
            None => {
                proof {
                    assert(false);
                }
                SoroSusuCredential {
                    token_id,
                    holder: 0,
                    reputation_tier: ReputationTier::Bronze,
                    total_cycles_completed: 0,
                    perfect_cycles: 0,
                    on_time_rate: 0,
                    reliability_score: 0,
                    social_capital_score: 0,
                    total_volume_saved: 0,
                    last_activity: 0,
                    status: SbtStatus::Active,
                    minted_timestamp: 0,
                    metadata_uri: String::new(),
                }
            },
        }
    }

    /// The credential `user` was last issued, if any.
    pub fn get_user_credential(&self, user: AccountId) -> (r: Option<SoroSusuCredential>)
        requires
            self@.user_credentials.contains_key(user) ==> self@.credentials.contains_key(
                self@.user_credentials[user],
            ),
        ensures
            match r {
                Some(c) => self@.user_credentials.contains_key(user) && c@
                    == self@.credentials[self@.user_credentials[user]],
                None => !self@.user_credentials.contains_key(user),
            },
    {
        match self.user_credentials.get(user) {
            Some(id) => Some(self.get_credential(*id)),
            None => None,
        }
    }

    /// Creates milestone number `counter + 1` for `user` (the caller has checked the
    /// administrator's authorization) and returns its id.
    pub fn create_reputation_milestone(
        &mut self,
        user: AccountId,
        cycles: u32,
        desc: String,
        tier: ReputationTier,
    ) -> (id: u64)
        requires
            old(self)@.admin.is_some(),
            old(self)@.milestone_count.unwrap_or(0) < u64::MAX,
        ensures
            id == old(self)@.milestone_count.unwrap_or(0) + 1,
            final(self)@ == (SbtStateView {
                milestone_count: Some(id),
                milestones: old(self)@.milestones.insert(
                    id,
                    MilestoneView {
                        milestone_id: id,
                        user,
                        cycles_required: cycles,
                        description: desc@,
                        is_completed: false,
                        completion_timestamp: None,
                        reward_tier: tier,
                    },
                ),
                ..old(self)@
            }),
            old(self)@.well_formed() ==> final(self)@.well_formed(),
    {
        let ghost s = self@;
        let count = match self.milestone_count {
            Some(c) => c,
            None => 0,
        };
        let count = count + 1;
        let m = ReputationMilestone {
            milestone_id: count,
            user,
            cycles_required: cycles,
            description: desc,
            is_completed: false,
            completion_timestamp: None,
            reward_tier: tier,
        };
        self.milestone_count = Some(count);
        self.milestones.insert(count, m);
        count
    }

    /// The milestone with id `milestone_id`.
    pub fn get_reputation_milestone(&self, milestone_id: u64) -> (m: ReputationMilestone)
        requires
            self@.milestones.contains_key(milestone_id),
        ensures
            m@ == self@.milestones[milestone_id],
    {
        match self.milestones.get(milestone_id) {
            Some(m) => m.clone(),
            None => {
                proof {
                    assert(false);
                }
                ReputationMilestone {
                    milestone_id,
                    user: 0,
                    cycles_required: 0,
                    description: String::new(),
                    is_completed: false,
                    completion_timestamp: None,
                    reward_tier: ReputationTier::Bronze,
                }
            },
        }
    }

    /// `user`'s reliability score, social capital score and total cycles (5000, 5000 and 0
    /// when nothing is on record).
    pub fn get_user_reputation_score(&self, user: AccountId) -> (r: (u32, u32, u32))
        ensures
            r == (
                self@.metrics_or_default(user, 0).reliability_score,
                self@.metrics_or_default(user, 0).social_capital_score,
                self@.metrics_or_default(user, 0).total_cycles,
            ),
    {
        match self.user_metrics.get(user) {
            Some(m) => (m.reliability_score, m.social_capital_score, m.total_cycles),
            None => (5000, 5000, 0),
        }
    }
}

/// The rank of a tier, from Bronze (0) to Diamond (4).
pub open spec fn tier_rank(t: ReputationTier) -> int {
    match t {
        ReputationTier::Bronze => 0,
        ReputationTier::Silver => 1,
        ReputationTier::Gold => 2,
        ReputationTier::Platinum => 3,
        ReputationTier::Diamond => 4,
    }
}

/// The tier table: Bronze for 0-2 completed cycles, Silver for 3-5, Gold for 6-9, whatever
/// the number of perfect cycles; from 10 cycles on Platinum, except Diamond for 12 or more
/// cycles all of which were perfect.
pub proof fn lemma_tier_table(total_cycles: u32, perfect_cycles: u32)
    ensures
        (tier_for_cycles(total_cycles, perfect_cycles) == ReputationTier::Bronze) == (total_cycles <= 2),
        (tier_for_cycles(total_cycles, perfect_cycles) == ReputationTier::Silver) == (3 <= total_cycles
            <= 5),
        (tier_for_cycles(total_cycles, perfect_cycles) == ReputationTier::Gold) == (6 <= total_cycles
            <= 9),
        (tier_for_cycles(total_cycles, perfect_cycles) == ReputationTier::Platinum) == (10
            <= total_cycles && !(total_cycles >= 12 && perfect_cycles >= total_cycles)),
        (tier_for_cycles(total_cycles, perfect_cycles) == ReputationTier::Diamond) == (total_cycles
            >= 12 && perfect_cycles >= total_cycles),
{
}

/// An issued credential carries the tier of the user's cycle total after the milestone, by
/// the tier table: a total of at most 2 cycles is Bronze however few were perfect.
pub proof fn lemma_issued_tier_follows_table(
    s: SbtStateView,
    user: AccountId,
    milestone_id: u64,
    metadata_uri: Seq<char>,
    now: u64,
)
    requires
        s.can_issue(user, milestone_id),
    ensures
        ({
            let s1 = issue_credential_spec(s, user, milestone_id, metadata_uri, now);
            let c = s1.credentials[next_token_id(s)];
            let total = s.metrics_or_default(user, now).total_cycles + s.milestones[milestone_id].cycles_required;
            let perfect = s.metrics_or_default(user, now).perfect_cycles;
            &&& c.total_cycles_completed == total
            &&& c.perfect_cycles == perfect
            &&& (c.reputation_tier == ReputationTier::Bronze) == (total <= 2)
            &&& (c.reputation_tier == ReputationTier::Silver) == (3 <= total <= 5)
            &&& (c.reputation_tier == ReputationTier::Gold) == (6 <= total <= 9)
            &&& (c.reputation_tier == ReputationTier::Diamond) == (total >= 12 && perfect >= total)
        }),
{
}

/// Completing more cycles never lowers the reputation tier, as long as the record stays
/// perfect, or stays imperfect.
pub proof fn lemma_tier_monotone(fewer: u32, fewer_perfect: u32, more: u32, more_perfect: u32)
    requires
        fewer <= more,
        perfect_record(fewer, fewer_perfect) == perfect_record(more, more_perfect),
    ensures
        tier_rank(tier_for_cycles(fewer, fewer_perfect)) <= tier_rank(
            tier_for_cycles(more, more_perfect),
        ),
{
}

/// A milestone yields a credential only once: after its credential is issued it is
/// completed and cannot be issued again.
pub proof fn lemma_milestone_issued_once(
    s: SbtStateView,
    user: AccountId,
    milestone_id: u64,
    metadata_uri: Seq<char>,
    now: u64,
    again_user: AccountId,
)
    requires
        s.can_issue(user, milestone_id),
    ensures
        ({
            let s1 = issue_credential_spec(s, user, milestone_id, metadata_uri, now);
            &&& s1.milestones[milestone_id].is_completed
            &&& s1.milestones[milestone_id].completion_timestamp == Some(now)
            &&& !s1.can_issue(again_user, milestone_id)
        }),
{
}

/// After a credential is issued, the user's credential is that one: it is active, held by
/// the user, records the user's updated cycle total (raised by the milestone's cycles), and
/// carries the tier of that total and the user's perfect cycles.
pub proof fn lemma_issued_credential_reflects_metrics(
    s: SbtStateView,
    user: AccountId,
    milestone_id: u64,
    metadata_uri: Seq<char>,
    now: u64,
)
    requires
        s.can_issue(user, milestone_id),
    ensures
        ({
            let s1 = issue_credential_spec(s, user, milestone_id, metadata_uri, now);
            let c = s1.credentials[s1.user_credentials[user]];
            &&& s1.user_credentials.contains_key(user)
            &&& s1.credentials.contains_key(s1.user_credentials[user])
            &&& c.holder == user
            &&& c.status == SbtStatus::Active
            &&& s1.user_metrics[user].total_cycles == s.metrics_or_default(user, now).total_cycles
                + s.milestones[milestone_id].cycles_required
            &&& c.total_cycles_completed == s1.user_metrics[user].total_cycles
            &&& c.perfect_cycles == s1.user_metrics[user].perfect_cycles
            &&& c.reputation_tier == tier_for_cycles(
                s1.user_metrics[user].total_cycles,
                s1.user_metrics[user].perfect_cycles,
            )
        }),
{
}

/// Credentials are permanent records: in consistent storage, issuing a credential uses a
/// token id no credential has, leaves every earlier credential as it was, keeps the storage
/// consistent, and counts one more credential issued.
pub proof fn lemma_issue_keeps_existing_credentials(
    s: SbtStateView,
    user: AccountId,
    milestone_id: u64,
    metadata_uri: Seq<char>,
    now: u64,
)
    requires
        s.well_formed(),
        s.can_issue(user, milestone_id),
    ensures
        ({
            let s1 = issue_credential_spec(s, user, milestone_id, metadata_uri, now);
            &&& !s.credentials.contains_key(next_token_id(s))
            &&& s1.credentials.contains_key(next_token_id(s))
            &&& forall|t: u128| #[trigger]
                s.credentials.contains_key(t) ==> s1.credentials.contains_key(t)
                    && s1.credentials[t] == s.credentials[t]
            &&& s1.well_formed()
            &&& s1.credential_count == s.credential_count + 1
        }),
{
    let s1 = issue_credential_spec(s, user, milestone_id, metadata_uri, now);
    assert forall|t: u128| #[trigger] s1.credentials.contains_key(t) implies s1.credentials[t].token_id
        == t && 1 <= t <= s1.credential_count by {
        if t != next_token_id(s) {
            assert(s.credentials.contains_key(t));
        }
    }
    assert forall|u: AccountId| #[trigger] s1.user_credentials.contains_key(u) implies s1.credentials.contains_key(
        s1.user_credentials[u],
    ) by {
        if u != user {
            assert(s.user_credentials.contains_key(u));
        }
    }
    assert forall|id: u64| #[trigger] s1.milestones.contains_key(id) implies s1.milestones[id].milestone_id
        == id && id <= s1.milestone_count.unwrap_or(0) by {
        assert(s.milestones.contains_key(id));
    }
}

/// In consistent storage, the id of the next milestone is unused, so creating a milestone
/// never replaces an existing one.
pub proof fn lemma_next_milestone_id_unused(s: SbtStateView)
    requires
        s.well_formed(),
        s.milestone_count.unwrap_or(0) < u64::MAX,
    ensures
        !s.milestones.contains_key((s.milestone_count.unwrap_or(0) + 1) as u64),
{
}

} // verus!
