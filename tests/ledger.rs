use aion::arith::mul_div;
use aion::{AionError, AionState, Operation, Query, QueryResponse, UserStake};

fn s(x: &str) -> String {
    x.to_string()
}

fn ledger_with(id: &str) -> AionState {
    let mut state = AionState::new(s("admin"));
    state
        .create_market(s(id), s("Title"), s("Description"), s("Finance"), 1735689600, s("creator"), 7)
        .unwrap();
    state
}

#[test]
fn winner_takes_loser_pool_and_loser_gets_nothing() {
    let mut state = ledger_with("M1");
    state.place_stake(s("M1"), s("U1"), 1000, true).unwrap();
    state.place_stake(s("M1"), s("U2"), 500, false).unwrap();
    state.resolve_market(s("M1"), true, s("admin")).unwrap();
    assert_eq!(state.claim_rewards(s("M1"), s("U1")), Ok(1500));
    assert_eq!(state.claim_rewards(s("M1"), s("U2")), Err(AionError::NoRewardsToClaim));
}

#[test]
fn two_winners_split_pro_rata() {
    let mut state = ledger_with("M1");
    state.place_stake(s("M1"), s("U1"), 1500, true).unwrap();
    state.place_stake(s("M1"), s("U2"), 500, true).unwrap();
    state.place_stake(s("M1"), s("U3"), 1000, false).unwrap();
    state.resolve_market(s("M1"), true, s("admin")).unwrap();
    let r1 = state.claim_rewards(s("M1"), s("U1")).unwrap();
    let r2 = state.claim_rewards(s("M1"), s("U2")).unwrap();
    assert_eq!(r1, 2250);
    assert_eq!(r2, 750);
    assert_eq!(r1 + r2, 3000);
    assert_eq!(state.total_value_locked, 0);
}

#[test]
fn non_admin_cannot_resolve() {
    let mut state = ledger_with("M1");
    assert_eq!(state.resolve_market(s("M1"), true, s("mallory")), Err(AionError::Unauthorized));
    assert!(!state.get_market(&s("M1")).unwrap().resolved);
    assert_eq!(state.get_market(&s("M1")).unwrap().outcome, None);
}

#[test]
fn resolving_twice_is_refused() {
    let mut state = ledger_with("M1");
    assert_eq!(state.resolve_market(s("M1"), false, s("admin")), Ok(()));
    assert_eq!(state.resolve_market(s("M1"), true, s("admin")), Err(AionError::MarketAlreadyResolved));
    assert_eq!(state.get_market(&s("M1")).unwrap().outcome, Some(false));
}

#[test]
fn claiming_twice_is_refused() {
    let mut state = ledger_with("M1");
    state.place_stake(s("M1"), s("U1"), 1000, true).unwrap();
    state.place_stake(s("M1"), s("U2"), 500, false).unwrap();
    state.resolve_market(s("M1"), true, s("admin")).unwrap();
    assert_eq!(state.claim_rewards(s("M1"), s("U1")), Ok(1500));
    assert_eq!(state.claim_rewards(s("M1"), s("U1")), Err(AionError::AlreadyClaimed));
    assert!(state.get_user_stake(&s("M1"), &s("U1")).unwrap().claimed);
}

#[test]
fn zero_stake_is_refused_without_effect() {
    let mut state = ledger_with("M1");
    assert_eq!(state.place_stake(s("M1"), s("U1"), 0, true), Err(AionError::InvalidStakeAmount));
    assert_eq!(state.place_stake(s("nope"), s("U1"), 0, true), Err(AionError::InvalidStakeAmount));
    assert_eq!(state.total_value_locked, 0);
    assert!(state.stakes.is_empty());
    assert_eq!(state.get_market(&s("M1")).unwrap().total_stake(), 0);
}

#[test]
fn empty_winning_pool_pays_nothing() {
    let mut state = ledger_with("M1");
    state.place_stake(s("M1"), s("U1"), 700, false).unwrap();
    state.resolve_market(s("M1"), true, s("admin")).unwrap();
    assert_eq!(state.calculate_reward(&s("M1"), &s("U1")), Ok(0));
    assert_eq!(state.claim_rewards(s("M1"), s("U1")), Err(AionError::NoRewardsToClaim));
    assert_eq!(state.total_value_locked, 700);
}

#[test]
fn pools_and_tvl_track_all_stakes() {
    let mut state = ledger_with("M1");
    state.place_stake(s("M1"), s("U1"), 10, true).unwrap();
    state.place_stake(s("M1"), s("U2"), 20, false).unwrap();
    state.place_stake(s("M1"), s("U1"), 30, true).unwrap();
    let m = state.get_market(&s("M1")).unwrap();
    assert_eq!(m.total_stake_yes, 40);
    assert_eq!(m.total_stake_no, 20);
    assert_eq!(m.total_stake(), 60);
    assert_eq!(state.total_value_locked, 60);
}

#[test]
fn repeat_stake_accumulates_and_overwrites_prediction() {
    let mut state = ledger_with("M1");
    state.place_stake(s("M1"), s("U1"), 100, true).unwrap();
    state.place_stake(s("M1"), s("U1"), 50, false).unwrap();
    assert_eq!(
        state.get_user_stake(&s("M1"), &s("U1")),
        Some(UserStake { amount: 150, prediction: false, claimed: false })
    );
    let m = state.get_market(&s("M1")).unwrap();
    assert_eq!((m.total_stake_yes, m.total_stake_no), (100, 50));
    assert_eq!(state.stakes.len(), 1);
}

#[test]
fn rounding_loses_less_than_one_unit_per_winner() {
    let mut state = ledger_with("M1");
    state.place_stake(s("M1"), s("A"), 1, true).unwrap();
    state.place_stake(s("M1"), s("B"), 1, true).unwrap();
    state.place_stake(s("M1"), s("C"), 1, true).unwrap();
    state.place_stake(s("M1"), s("D"), 10, false).unwrap();
    state.resolve_market(s("M1"), true, s("admin")).unwrap();
    let a = state.claim_rewards(s("M1"), s("A")).unwrap();
    let b = state.claim_rewards(s("M1"), s("B")).unwrap();
    let c = state.claim_rewards(s("M1"), s("C")).unwrap();
    assert_eq!((a, b, c), (4, 4, 4));
    assert_eq!(state.total_value_locked, 1);
}

#[test]
fn creation_errors() {
    let mut state = ledger_with("M1");
    assert_eq!(
        state.create_market(s("M1"), s("T"), s("D"), s("C"), 1, s("x"), 2),
        Err(AionError::DuplicateMarket)
    );
    assert_eq!(
        state.create_market(s("M2"), s(""), s("D"), s("C"), 1, s("x"), 2),
        Err(AionError::InvalidMarketData)
    );
    assert_eq!(
        state.create_market(s("M2"), s("T"), s(""), s("C"), 1, s("x"), 2),
        Err(AionError::InvalidMarketData)
    );
    assert_eq!(state.markets.len(), 1);
    let m = state.get_market(&s("M1")).unwrap();
    assert_eq!(m.creator, "creator");
    assert_eq!(m.created_at, 7);
    assert_eq!(m.event_date, 1735689600);
}

#[test]
fn missing_market_and_resolved_market_errors() {
    let mut state = ledger_with("M1");
    assert_eq!(state.place_stake(s("M9"), s("U1"), 5, true), Err(AionError::MarketNotFound));
    assert_eq!(state.resolve_market(s("M9"), true, s("admin")), Err(AionError::MarketNotFound));
    assert_eq!(state.claim_rewards(s("M9"), s("U1")), Err(AionError::MarketNotFound));
    assert_eq!(state.claim_rewards(s("M1"), s("U1")), Err(AionError::MarketNotResolved));
    state.resolve_market(s("M1"), true, s("admin")).unwrap();
    assert_eq!(state.place_stake(s("M1"), s("U1"), 5, true), Err(AionError::MarketAlreadyResolved));
    assert_eq!(state.claim_rewards(s("M1"), s("U1")), Err(AionError::NoRewardsToClaim));
}

#[test]
fn flipped_position_can_overflow_reward() {
    let mut state = ledger_with("M1");
    let big = u128::MAX / 2;
    state.place_stake(s("M1"), s("U1"), big, false).unwrap();
    state.place_stake(s("M1"), s("U1"), 1, true).unwrap();
    state.resolve_market(s("M1"), true, s("admin")).unwrap();
    assert_eq!(state.calculate_reward(&s("M1"), &s("U1")), Err(AionError::RewardOverflow));
}

#[test]
fn mul_div_exact_values() {
    assert_eq!(mul_div(1500, 1000, 2000), Some(750));
    assert_eq!(mul_div(7, 3, 2), Some(10));
    assert_eq!(mul_div(0, u128::MAX, 1), Some(0));
    assert_eq!(mul_div(u128::MAX, u128::MAX, u128::MAX), Some(u128::MAX));
    assert_eq!(mul_div(u128::MAX, 3, 4), Some(u128::MAX / 4 * 3 + 2));
    assert_eq!(mul_div(u128::MAX, 2, 1), None);
    assert_eq!(mul_div(1u128 << 100, 1u128 << 100, 1u128 << 90), Some(1u128 << 110));
}

#[test]
fn statistics_and_listings() {
    let mut state = ledger_with("M1");
    state
        .create_market(s("M2"), s("T2"), s("D2"), s("Sports"), 1, s("creator"), 0)
        .unwrap();
    state
        .create_market(s("M3"), s("T3"), s("D3"), s("Finance"), 1, s("creator"), 0)
        .unwrap();
    state.place_stake(s("M1"), s("U1"), 10, true).unwrap();
    state.place_stake(s("M2"), s("U1"), 20, false).unwrap();
    state.place_stake(s("M2"), s("U2"), 30, true).unwrap();
    state.resolve_market(s("M2"), true, s("admin")).unwrap();
    let stats = state.statistics();
    assert_eq!(stats.total_markets, 3);
    assert_eq!(stats.active_markets, 2);
    assert_eq!(stats.resolved_markets, 1);
    assert_eq!(stats.total_value_locked, 60);
    assert_eq!(stats.total_users, 2);
    let ids: Vec<String> = state.get_all_markets().into_iter().map(|m| m.id).collect();
    assert_eq!(ids, vec![s("M1"), s("M2"), s("M3")]);
    let fin: Vec<String> =
        state.get_markets_by_category(&s("Finance")).into_iter().map(|m| m.id).collect();
    assert_eq!(fin, vec![s("M1"), s("M3")]);
    assert_eq!(state.get_user_stakes(&s("U1")), vec![(s("M1"), 10), (s("M2"), 20)]);
    assert_eq!(state.get_user_stakes(&s("U3")), vec![]);
}

#[test]
fn operations_and_queries_dispatch() {
    let mut state = AionState::new(s("admin"));
    let create = Operation::CreateMarket {
        market_id: s("M1"),
        title: s("T"),
        description: s("D"),
        category: s("C"),
        event_date: 5,
    };
    assert_eq!(state.execute_operation(create, s("alice"), 9), Ok(0));
    let stake = Operation::PlaceStake { market_id: s("M1"), amount: 40, prediction: true };
    assert_eq!(state.execute_operation(stake, s("bob"), 10), Ok(0));
    let stake = Operation::PlaceStake { market_id: s("M1"), amount: 60, prediction: false };
    assert_eq!(state.execute_operation(stake, s("carol"), 10), Ok(0));
    let resolve = Operation::ResolveMarket { market_id: s("M1"), outcome: true };
    assert_eq!(state.execute_operation(resolve, s("bob"), 11), Err(AionError::Unauthorized));
    let resolve = Operation::ResolveMarket { market_id: s("M1"), outcome: true };
    assert_eq!(state.execute_operation(resolve, s("admin"), 11), Ok(0));
    let claim = Operation::ClaimRewards { market_id: s("M1") };
    assert_eq!(state.execute_operation(claim, s("bob"), 12), Ok(100));
    match state.handle_query(&Query::GetMarket { market_id: s("M1") }) {
        QueryResponse::Market(Some(m)) => {
            assert_eq!(m.creator, "alice");
            assert_eq!(m.created_at, 9);
        }
        other => panic!("unexpected {:?}", other),
    }
    match state.handle_query(&Query::GetStatistics) {
        QueryResponse::Statistics(st) => {
            assert_eq!(st.total_users, 2);
            assert_eq!(st.total_value_locked, 0);
        }
        other => panic!("unexpected {:?}", other),
    }
    match state.handle_query(&Query::GetUserStakes { user: s("carol") }) {
        QueryResponse::UserStakes(v) => assert_eq!(v, vec![(s("M1"), 60)]),
        other => panic!("unexpected {:?}", other),
    }
}

#[test]
fn error_messages() {
    assert_eq!(AionError::MarketNotFound.message(), "Market not found");
    assert_eq!(AionError::AlreadyClaimed.message(), "Already claimed");
}
