use soroban_sdk::Env;
use sorosusu_contracts::collections::IdMap;
use sorosusu_contracts::yield_allocation_voting::{
    calculate_vote_weight, cast_vote, execute_distribution_strategy, finalize_voting,
    get_reliability_index, get_user_vote, get_voting_config, get_voting_session,
    hash_strategy_array, initialize_voting_session, set_voting_config, update_vote_tally,
    validate_proposed_strategies, Allocation, CircleInfo, DistributionStrategy, StrategyType, VotingConfig,
    VotingError, VotingSession, VotingStore,
};

const ADMIN: u64 = 1;
const CREATOR: u64 = 2;
const USER: u64 = 3;
const STRATEGY_1: u64 = 1001;
const STRATEGY_2: u64 = 1002;
const START: u64 = 1_700_000_000;

fn setup_test_env() -> (Env, VotingStore, u64, u64, u64) {
    let env = Env::default();
    let mut store = VotingStore::new();
    store.admin = Some(ADMIN);
    (env, store, ADMIN, CREATOR, USER)
}

fn create_test_circle(store: &mut VotingStore, _creator: u64) -> u64 {
    // contribution 1000, 5 members, weekly cycle, yield enabled
    let circle_id = 1;
    store.circles.insert(circle_id, CircleInfo { max_members: 5, yield_enabled: true });
    circle_id
}

fn create_mock_strategies() -> Vec<u64> {
    vec![STRATEGY_1, STRATEGY_2]
}

fn create_test_distribution_strategy(strategy_address: u64, allocation: u32) -> DistributionStrategy {
    DistributionStrategy {
        strategy_address,
        allocation_percentage: allocation,
        strategy_type: StrategyType::AMM,
        min_apy_bps: 500,
        risk_score: 3000,
    }
}

#[test]
fn test_initialize_voting_session() {
    let (_env, mut store, _admin, creator, _user) = setup_test_env();
    let circle_id = create_test_circle(&mut store, creator);
    let strategies = create_mock_strategies();

    let result = initialize_voting_session(&mut store, circle_id, strategies.clone(), START);
    assert!(result.is_ok());

    let session = get_voting_session(&store, circle_id).unwrap();
    assert!(session.is_active);
    assert_eq!(session.circle_id, circle_id);
    assert!(session.end_timestamp > session.start_timestamp);

    let duration = session.end_timestamp - session.start_timestamp;
    assert_eq!(duration, 172800);
}

#[test]
fn test_cast_vote_success() {
    let (env, mut store, _admin, creator, voter) = setup_test_env();
    let circle_id = create_test_circle(&mut store, creator);
    let strategies = create_mock_strategies();
    initialize_voting_session(&mut store, circle_id, strategies.clone(), START).unwrap();

    let proposed_strategies = vec![
        create_test_distribution_strategy(strategies[0], 6000),
        create_test_distribution_strategy(strategies[1], 4000),
    ];

    let result = cast_vote(&env, &mut store, voter, circle_id, proposed_strategies.clone(), START);
    assert!(result.is_ok());

    let vote = get_user_vote(&store, voter, circle_id).unwrap();
    assert_eq!(vote.voter, voter);
    assert_eq!(vote.circle_id, circle_id);
    assert_eq!(vote.voted_strategies.len(), 2);
}

#[test]
fn test_cast_vote_invalid_allocation() {
    let (env, mut store, _admin, creator, voter) = setup_test_env();
    let circle_id = create_test_circle(&mut store, creator);
    let strategies = create_mock_strategies();
    initialize_voting_session(&mut store, circle_id, strategies.clone(), START).unwrap();

    let proposed_strategies = vec![
        create_test_distribution_strategy(strategies[0], 5000),
        create_test_distribution_strategy(strategies[1], 4000),
    ];

    let result = cast_vote(&env, &mut store, voter, circle_id, proposed_strategies, START);
    assert!(result.is_err());
    assert_eq!(result.unwrap_err().code(), 403);
}

#[test]
fn test_cast_vote_already_voted() {
    let (env, mut store, _admin, creator, voter) = setup_test_env();
    let circle_id = create_test_circle(&mut store, creator);
    let strategies = create_mock_strategies();
    initialize_voting_session(&mut store, circle_id, strategies.clone(), START).unwrap();

    let proposed_strategies = vec![create_test_distribution_strategy(strategies[0], 10000)];

    let result1 = cast_vote(&env, &mut store, voter, circle_id, proposed_strategies.clone(), START);
    assert!(result1.is_ok());

    let result2 = cast_vote(&env, &mut store, voter, circle_id, proposed_strategies, START);
    assert!(result2.is_err());
    assert_eq!(result2.unwrap_err().code(), 402);
}

#[test]
fn test_cast_vote_expired_session() {
    let (env, mut store, _admin, creator, voter) = setup_test_env();
    let circle_id = create_test_circle(&mut store, creator);
    let strategies = create_mock_strategies();
    initialize_voting_session(&mut store, circle_id, strategies.clone(), START).unwrap();

    let later = START + 200000;
    let proposed_strategies = vec![create_test_distribution_strategy(strategies[0], 10000)];

    let result = cast_vote(&env, &mut store, voter, circle_id, proposed_strategies, later);
    assert!(result.is_err());
    assert_eq!(result.unwrap_err().code(), 404);
}

#[test]
fn test_finalize_voting_success() {
    let env = Env::default();
    let mut store = VotingStore::new();
    store.admin = Some(ADMIN);
    let voter1 = 11;
    let voter2 = 12;
    let circle_id = create_test_circle(&mut store, CREATOR);
    let strategies = create_mock_strategies();
    initialize_voting_session(&mut store, circle_id, strategies.clone(), START).unwrap();

    let proposed_strategies1 = vec![create_test_distribution_strategy(strategies[0], 10000)];
    let proposed_strategies2 = vec![create_test_distribution_strategy(strategies[1], 10000)];

    cast_vote(&env, &mut store, voter1, circle_id, proposed_strategies1, START).unwrap();
    cast_vote(&env, &mut store, voter2, circle_id, proposed_strategies2, START).unwrap();

    let later = START + 200000;
    let result = finalize_voting(&env, &mut store, circle_id, later);
    match result {
        Ok(strategy) => {
            assert!(!strategy.is_empty());
        }
        Err(_) => {
            // Two votes of weight 75 reach 3000 bps of a 5-member circle's 500: below the threshold.
        }
    }
}

#[test]
fn test_finalize_voting_still_active() {
    let (env, mut store, _admin, creator, _voter) = setup_test_env();
    let circle_id = create_test_circle(&mut store, creator);
    let strategies = create_mock_strategies();
    initialize_voting_session(&mut store, circle_id, strategies.clone(), START).unwrap();

    let result = finalize_voting(&env, &mut store, circle_id, START);
    assert!(result.is_err());
    assert_eq!(result.unwrap_err().code(), 404);
}

#[test]
fn test_execute_yield_distribution() {
    let (_env, mut store, _admin, creator, _voter) = setup_test_env();
    let circle_id = create_test_circle(&mut store, creator);
    let strategies = create_mock_strategies();
    initialize_voting_session(&mut store, circle_id, strategies.clone(), START).unwrap();

    let winning_strategy = vec![create_test_distribution_strategy(strategies[0], 10000)];

    let session = VotingSession {
        circle_id,
        start_timestamp: START,
        end_timestamp: START + 1000,
        total_votes_weight: 10000,
        is_active: false,
        winning_strategy: Some(winning_strategy.clone()),
        vote_threshold: 5000,
    };
    store.sessions.insert(circle_id, session);

    let result = execute_distribution_strategy(&store, circle_id, 1000000);
    match result {
        Ok(_) => {}
        Err(_) => {}
    }
}

#[test]
fn test_reliability_index_weighting() {
    let (env, mut store, _admin, creator, voter) = setup_test_env();
    let circle_id = create_test_circle(&mut store, creator);
    let strategies = create_mock_strategies();
    initialize_voting_session(&mut store, circle_id, strategies.clone(), START).unwrap();

    let proposed_strategies = vec![create_test_distribution_strategy(strategies[0], 10000)];
    cast_vote(&env, &mut store, voter, circle_id, proposed_strategies, START).unwrap();

    let vote = get_user_vote(&store, voter, circle_id).unwrap();
    assert_eq!(vote.vote_weight, 75);
    assert_eq!(vote.reliability_index, 7500);
}

#[test]
fn test_voting_config_management() {
    let (_env, store, _admin, _creator, _) = setup_test_env();

    let _custom_config = VotingConfig {
        voting_duration_seconds: 86400,
        min_participation_threshold: 6000,
        min_reliability_threshold: 4000,
        weight_multiplier: 150,
    };

    let stored_config: Option<VotingConfig> = store.config;
    assert!(stored_config.is_none());
}

#[test]
fn test_strategy_validation() {
    let (env, mut store, _admin, creator, voter) = setup_test_env();
    let circle_id = create_test_circle(&mut store, creator);
    let strategies = create_mock_strategies();
    initialize_voting_session(&mut store, circle_id, strategies.clone(), START).unwrap();

    let invalid_strategy = 9999;
    let proposed_strategies = vec![create_test_distribution_strategy(invalid_strategy, 10000)];

    let result = cast_vote(&env, &mut store, voter, circle_id, proposed_strategies, START);
    assert!(result.is_err());
    assert_eq!(result.unwrap_err().code(), 403);
}

// ---- further cases ----

#[test]
fn test_initialize_voting_session_invalid_circle() {
    let (_env, mut store, _admin, _creator, _user) = setup_test_env();
    let result = initialize_voting_session(&mut store, 999, create_mock_strategies(), START);
    assert!(result.is_err());
    // a non-existent circle is refused as Unauthorized, whose code is 405
    assert_eq!(result.unwrap_err().code(), 405);
    assert_eq!(
        initialize_voting_session(&mut store, 999, create_mock_strategies(), START),
        Err(VotingError::Unauthorized)
    );
    assert!(get_voting_session(&store, 999).is_err());
}

#[test]
fn test_initialize_without_yield_is_unauthorized() {
    let (_env, mut store, _admin, _creator, _user) = setup_test_env();
    store.circles.insert(7, CircleInfo { max_members: 5, yield_enabled: false });
    let result = initialize_voting_session(&mut store, 7, create_mock_strategies(), START);
    assert_eq!(result, Err(VotingError::Unauthorized));
}

#[test]
fn test_initialize_twice_is_refused() {
    let (_env, mut store, _admin, creator, _user) = setup_test_env();
    let circle_id = create_test_circle(&mut store, creator);
    initialize_voting_session(&mut store, circle_id, create_mock_strategies(), START).unwrap();
    let second = initialize_voting_session(&mut store, circle_id, vec![STRATEGY_1], START + 5);
    assert_eq!(second, Err(VotingError::VotingNotActive));
    let session = get_voting_session(&store, circle_id).unwrap();
    assert_eq!(session.start_timestamp, START);
    assert_eq!(session.vote_threshold, 5000);
}

#[test]
fn test_vote_without_session() {
    let (env, mut store, _admin, creator, voter) = setup_test_env();
    let circle_id = create_test_circle(&mut store, creator);
    let proposed = vec![create_test_distribution_strategy(STRATEGY_1, 10000)];
    let result = cast_vote(&env, &mut store, voter, circle_id, proposed, START);
    assert_eq!(result, Err(VotingError::VotingNotActive));
    assert_eq!(VotingError::VotingNotActive.code(), 401);
}

#[test]
fn test_vote_at_session_end_is_accepted() {
    let (env, mut store, _admin, creator, voter) = setup_test_env();
    let circle_id = create_test_circle(&mut store, creator);
    initialize_voting_session(&mut store, circle_id, create_mock_strategies(), START).unwrap();
    let proposed = vec![create_test_distribution_strategy(STRATEGY_1, 10000)];
    let result = cast_vote(&env, &mut store, voter, circle_id, proposed, START + 172800);
    assert_eq!(result, Ok(()));
}

#[test]
fn test_insufficient_reliability() {
    let (env, mut store, admin, creator, voter) = setup_test_env();
    let circle_id = create_test_circle(&mut store, creator);
    let config = VotingConfig {
        voting_duration_seconds: 86400,
        min_participation_threshold: 6000,
        min_reliability_threshold: 8000,
        weight_multiplier: 150,
    };
    assert_eq!(set_voting_config(&mut store, admin, config), Ok(()));
    initialize_voting_session(&mut store, circle_id, create_mock_strategies(), START).unwrap();
    let session = get_voting_session(&store, circle_id).unwrap();
    assert_eq!(session.end_timestamp, START + 86400);
    assert_eq!(session.vote_threshold, 6000);
    let proposed = vec![create_test_distribution_strategy(STRATEGY_1, 10000)];
    let result = cast_vote(&env, &mut store, voter, circle_id, proposed, START);
    assert_eq!(result, Err(VotingError::InsufficientReliability));
    assert_eq!(VotingError::InsufficientReliability.code(), 406);
}

#[test]
fn test_set_voting_config_requires_admin() {
    let (_env, mut store, _admin, _creator, user) = setup_test_env();
    let config = VotingConfig {
        voting_duration_seconds: 1,
        min_participation_threshold: 2,
        min_reliability_threshold: 3,
        weight_multiplier: 4,
    };
    assert_eq!(set_voting_config(&mut store, user, config), Err(VotingError::Unauthorized));
    assert!(store.config.is_none());
    let mut no_admin = VotingStore::new();
    assert_eq!(set_voting_config(&mut no_admin, ADMIN, config), Err(VotingError::Unauthorized));
    assert_eq!(set_voting_config(&mut store, ADMIN, config), Ok(()));
    assert_eq!(get_voting_config(&store), config);
}

#[test]
fn test_default_config_and_weight() {
    let store = VotingStore::new();
    let config = get_voting_config(&store);
    assert_eq!(config.voting_duration_seconds, 172800);
    assert_eq!(config.min_participation_threshold, 5000);
    assert_eq!(config.min_reliability_threshold, 3000);
    assert_eq!(config.weight_multiplier, 100);
    assert_eq!(get_reliability_index(42), Ok(7500));
    assert_eq!(calculate_vote_weight(7500, 100), 75);
    assert_eq!(calculate_vote_weight(7500, 150), 112);
    assert_eq!(calculate_vote_weight(9999, 1), 0);
}

#[test]
fn test_validate_strategies_rules() {
    let mut store = VotingStore::new();
    store.active_strategies.insert(1, vec![STRATEGY_1, STRATEGY_2]);
    let ok = vec![
        create_test_distribution_strategy(STRATEGY_1, 2500),
        create_test_distribution_strategy(STRATEGY_2, 7500),
    ];
    assert_eq!(validate_proposed_strategies(&store, 1, &ok), Ok(()));
    let zero_share = vec![
        create_test_distribution_strategy(STRATEGY_1, 0),
        create_test_distribution_strategy(STRATEGY_2, 10000),
    ];
    assert_eq!(validate_proposed_strategies(&store, 1, &zero_share), Err(VotingError::InvalidStrategy));
    let empty: Vec<DistributionStrategy> = vec![];
    assert_eq!(validate_proposed_strategies(&store, 1, &empty), Err(VotingError::InvalidStrategy));
    let no_list = VotingStore::new();
    assert_eq!(validate_proposed_strategies(&no_list, 1, &ok), Err(VotingError::InvalidStrategy));
    // the list belongs to circle 1's session only
    assert_eq!(validate_proposed_strategies(&store, 2, &ok), Err(VotingError::InvalidStrategy));
}

#[test]
fn test_tallies_and_session_total() {
    let (env, mut store, _admin, creator, _user) = setup_test_env();
    let circle_id = create_test_circle(&mut store, creator);
    initialize_voting_session(&mut store, circle_id, create_mock_strategies(), START).unwrap();
    let proposed = vec![create_test_distribution_strategy(STRATEGY_1, 10000)];
    cast_vote(&env, &mut store, 21, circle_id, proposed.clone(), START).unwrap();
    cast_vote(&env, &mut store, 22, circle_id, proposed.clone(), START + 1).unwrap();
    let session = get_voting_session(&store, circle_id).unwrap();
    assert_eq!(session.total_votes_weight, 150);
    let hash = hash_strategy_array(&env, &proposed);
    assert_eq!(hash.len(), 32);
    let tallies = store.tallies.get(circle_id).unwrap();
    let tally = tallies.get(&hash).unwrap();
    assert_eq!(tally.total_weight, 150);
    assert_eq!(tally.voter_count, 2);
    assert_eq!(tally.strategy_hash, hash);
}

#[test]
fn test_hash_depends_on_distribution() {
    let env = Env::default();
    let a = vec![create_test_distribution_strategy(STRATEGY_1, 10000)];
    let b = vec![create_test_distribution_strategy(STRATEGY_2, 10000)];
    let c = vec![
        create_test_distribution_strategy(STRATEGY_1, 6000),
        create_test_distribution_strategy(STRATEGY_2, 4000),
    ];
    let ha = hash_strategy_array(&env, &a);
    assert_eq!(ha, hash_strategy_array(&env, &a.clone()));
    assert_ne!(ha, hash_strategy_array(&env, &b));
    assert_ne!(ha, hash_strategy_array(&env, &c));
    // SHA-256 of the empty input
    let empty: Vec<DistributionStrategy> = vec![];
    let he = hash_strategy_array(&env, &empty);
    assert_eq!(he[0], 0xe3);
    assert_eq!(he[1], 0xb0);
    assert_eq!(he[31], 0x55);
}

#[test]
fn test_update_vote_tally_creates_and_adds() {
    let mut store = VotingStore::new();
    let hash = vec![7u8; 32];
    assert_eq!(update_vote_tally(&mut store, 5, hash.clone(), 40, 1), Ok(()));
    assert_eq!(update_vote_tally(&mut store, 5, hash.clone(), 2, 3), Ok(()));
    let t = store.tallies.get(5).unwrap().get(&hash).unwrap();
    assert_eq!(t.total_weight, 42);
    assert_eq!(t.voter_count, 4);
}

#[test]
fn test_finalize_error_cases() {
    let (env, mut store, _admin, creator, _user) = setup_test_env();
    assert_eq!(finalize_voting(&env, &mut store, 1, START), Err(VotingError::VotingNotActive));
    let circle_id = create_test_circle(&mut store, creator);
    initialize_voting_session(&mut store, circle_id, create_mock_strategies(), START).unwrap();
    let proposed = vec![create_test_distribution_strategy(STRATEGY_1, 10000)];
    cast_vote(&env, &mut store, 31, circle_id, proposed, START).unwrap();
    let result = finalize_voting(&env, &mut store, circle_id, START + 172800);
    assert_eq!(result, Err(VotingError::TallyFailed));
    assert_eq!(VotingError::TallyFailed.code(), 408);
    // the session stays open
    assert!(get_voting_session(&store, circle_id).unwrap().is_active);
    // a session whose circle is gone
    let mut orphan = VotingStore::new();
    orphan.sessions.insert(
        9,
        VotingSession {
            circle_id: 9,
            start_timestamp: 0,
            end_timestamp: 10,
            total_votes_weight: 0,
            is_active: true,
            winning_strategy: None,
            vote_threshold: 5000,
        },
    );
    assert_eq!(finalize_voting(&env, &mut orphan, 9, 10), Err(VotingError::Unauthorized));
}

#[test]
fn test_execute_distribution_requires_closed_session() {
    let (_env, mut store, _admin, creator, _user) = setup_test_env();
    let circle_id = create_test_circle(&mut store, creator);
    assert_eq!(execute_distribution_strategy(&store, circle_id, 1000), Err(VotingError::VotingNotActive));
    initialize_voting_session(&mut store, circle_id, create_mock_strategies(), START).unwrap();
    assert_eq!(execute_distribution_strategy(&store, circle_id, 1000), Err(VotingError::VotingNotActive));
    let session = VotingSession {
        circle_id,
        start_timestamp: START,
        end_timestamp: START + 1,
        total_votes_weight: 0,
        is_active: false,
        winning_strategy: None,
        vote_threshold: 5000,
    };
    store.sessions.insert(circle_id, session);
    assert_eq!(execute_distribution_strategy(&store, circle_id, 1000), Err(VotingError::VotingNotActive));
    let closed = VotingSession {
        circle_id,
        start_timestamp: START,
        end_timestamp: START + 1,
        total_votes_weight: 0,
        is_active: false,
        winning_strategy: Some(vec![
            create_test_distribution_strategy(STRATEGY_1, 6000),
            create_test_distribution_strategy(STRATEGY_2, 4000),
        ]),
        vote_threshold: 5000,
    };
    store.sessions.insert(circle_id, closed);
    let done = execute_distribution_strategy(&store, circle_id, 1000).unwrap();
    assert_eq!(
        done,
        vec![
            Allocation { strategy_address: STRATEGY_1, amount: 600 },
            Allocation { strategy_address: STRATEGY_2, amount: 400 },
        ]
    );
    // rounding toward zero: 599.4 and 399.6 give 599 and 399
    let rounded = execute_distribution_strategy(&store, circle_id, 999).unwrap();
    assert_eq!(rounded[0].amount, 599);
    assert_eq!(rounded[1].amount, 399);
    // nothing positive to hand out
    assert_eq!(execute_distribution_strategy(&store, circle_id, -1001), Ok(vec![]));
    assert_eq!(execute_distribution_strategy(&store, circle_id, 1), Ok(vec![]));
}

#[test]
fn test_user_vote_missing() {
    let store = VotingStore::new();
    assert_eq!(get_user_vote(&store, USER, 1).unwrap_err(), VotingError::AlreadyVoted);
    let mut per_circle: IdMap<u64, u64> = IdMap::new();
    per_circle.insert(1, 2);
    assert_eq!(per_circle.get(1), Some(&2));
}

#[test]
fn test_each_session_keeps_its_strategies() {
    let (env, mut store, _admin, creator, voter) = setup_test_env();
    let first = create_test_circle(&mut store, creator);
    store.circles.insert(2, CircleInfo { max_members: 4, yield_enabled: true });
    initialize_voting_session(&mut store, first, vec![STRATEGY_1], START).unwrap();
    initialize_voting_session(&mut store, 2, vec![STRATEGY_2], START).unwrap();
    let for_first = vec![create_test_distribution_strategy(STRATEGY_1, 10000)];
    let for_second = vec![create_test_distribution_strategy(STRATEGY_2, 10000)];
    // opening circle 2's session did not replace circle 1's list
    assert_eq!(cast_vote(&env, &mut store, voter, first, for_second.clone(), START), Err(VotingError::InvalidStrategy));
    assert_eq!(cast_vote(&env, &mut store, voter, first, for_first.clone(), START), Ok(()));
    assert_eq!(cast_vote(&env, &mut store, voter, 2, for_first, START), Err(VotingError::InvalidStrategy));
    assert_eq!(cast_vote(&env, &mut store, voter, 2, for_second, START), Ok(()));
}

#[test]
fn test_participation_counts_full_circle_at_max_reliability() {
    let (env, mut store, admin, _creator, _voter) = setup_test_env();
    // two members; a full circle at the largest reliability index weighs 2 * 100 = 200
    store.circles.insert(4, CircleInfo { max_members: 2, yield_enabled: true });
    let config = VotingConfig {
        voting_duration_seconds: 100,
        min_participation_threshold: 3751,
        min_reliability_threshold: 3000,
        weight_multiplier: 100,
    };
    assert_eq!(set_voting_config(&mut store, admin, config), Ok(()));
    initialize_voting_session(&mut store, 4, create_mock_strategies(), START).unwrap();
    let proposed = vec![create_test_distribution_strategy(STRATEGY_1, 10000)];
    cast_vote(&env, &mut store, 41, 4, proposed, START).unwrap();
    // one vote of weight 75 is 3750 bps of 200, just below 3751
    assert_eq!(finalize_voting(&env, &mut store, 4, START + 100), Err(VotingError::TallyFailed));
}

#[test]
fn test_votes_and_tallies_add_up() {
    let (env, mut store, _admin, creator, _user) = setup_test_env();
    let circle_id = create_test_circle(&mut store, creator);
    initialize_voting_session(&mut store, circle_id, create_mock_strategies(), START).unwrap();
    let a = vec![create_test_distribution_strategy(STRATEGY_1, 10000)];
    let b = vec![
        create_test_distribution_strategy(STRATEGY_1, 3000),
        create_test_distribution_strategy(STRATEGY_2, 7000),
    ];
    cast_vote(&env, &mut store, 51, circle_id, a.clone(), START).unwrap();
    cast_vote(&env, &mut store, 52, circle_id, b.clone(), START).unwrap();
    cast_vote(&env, &mut store, 53, circle_id, a.clone(), START).unwrap();
    let session = get_voting_session(&store, circle_id).unwrap();
    let tallies = store.tallies.get(circle_id).unwrap();
    let ta = tallies.get(&hash_strategy_array(&env, &a)).unwrap();
    let tb = tallies.get(&hash_strategy_array(&env, &b)).unwrap();
    assert_eq!(session.total_votes_weight, 225);
    assert_eq!(ta.total_weight + tb.total_weight, 225);
    assert_eq!(ta.voter_count + tb.voter_count, 3);
    let weights: u64 = [51, 52, 53].iter().map(|v| get_user_vote(&store, *v, circle_id).unwrap().vote_weight).sum();
    assert_eq!(weights, 225);
}

#[test]
fn test_hash_ignores_type_apy_and_risk() {
    let env = Env::default();
    let a = vec![create_test_distribution_strategy(STRATEGY_1, 10000)];
    let mut b = a.clone();
    b[0].min_apy_bps = 1;
    b[0].risk_score = 9999;
    assert_eq!(hash_strategy_array(&env, &a), hash_strategy_array(&env, &b));
}

#[test]
fn test_finalize_picks_heaviest_distribution() {
    let (env, mut store, _admin, _creator, _voter) = setup_test_env();
    store.circles.insert(3, CircleInfo { max_members: 3, yield_enabled: true });
    initialize_voting_session(&mut store, 3, create_mock_strategies(), START).unwrap();
    let a = vec![
        create_test_distribution_strategy(STRATEGY_1, 6000),
        create_test_distribution_strategy(STRATEGY_2, 4000),
    ];
    let b = vec![create_test_distribution_strategy(STRATEGY_2, 10000)];
    cast_vote(&env, &mut store, 61, 3, a.clone(), START).unwrap();
    cast_vote(&env, &mut store, 62, 3, b.clone(), START).unwrap();
    cast_vote(&env, &mut store, 63, 3, a.clone(), START).unwrap();
    // 225 of 300: 7500 bps, above the 5000 threshold
    let winner = finalize_voting(&env, &mut store, 3, START + 172800).unwrap();
    assert_eq!(winner, a);
    let session = get_voting_session(&store, 3).unwrap();
    assert!(!session.is_active);
    assert_eq!(session.winning_strategy, Some(a.clone()));
    assert_eq!(session.total_votes_weight, 225);
    // closed: no more votes, no second finalization
    assert_eq!(cast_vote(&env, &mut store, 64, 3, b, START + 172800), Err(VotingError::VotingNotActive));
    assert_eq!(finalize_voting(&env, &mut store, 3, START + 172801), Err(VotingError::VotingNotActive));
    let done = execute_distribution_strategy(&store, 3, 10_000).unwrap();
    assert_eq!(
        done,
        vec![
            Allocation { strategy_address: STRATEGY_1, amount: 6000 },
            Allocation { strategy_address: STRATEGY_2, amount: 4000 },
        ]
    );
}

#[test]
fn test_finalize_without_votes_fails() {
    let (env, mut store, admin, _creator, _voter) = setup_test_env();
    store.circles.insert(8, CircleInfo { max_members: 3, yield_enabled: true });
    let config = VotingConfig {
        voting_duration_seconds: 10,
        min_participation_threshold: 0,
        min_reliability_threshold: 3000,
        weight_multiplier: 100,
    };
    assert_eq!(set_voting_config(&mut store, admin, config), Ok(()));
    initialize_voting_session(&mut store, 8, create_mock_strategies(), START).unwrap();
    assert_eq!(finalize_voting(&env, &mut store, 8, START + 10), Err(VotingError::TallyFailed));
    assert!(get_voting_session(&store, 8).unwrap().is_active);
}

#[test]
fn test_validate_refuses_huge_allocations() {
    let mut store = VotingStore::new();
    store.active_strategies.insert(1, vec![STRATEGY_1, STRATEGY_2]);
    let huge = vec![
        create_test_distribution_strategy(STRATEGY_1, u32::MAX),
        create_test_distribution_strategy(STRATEGY_2, u32::MAX),
    ];
    assert_eq!(validate_proposed_strategies(&store, 1, &huge), Err(VotingError::InvalidStrategy));
}
