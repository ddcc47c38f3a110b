use aion::{compute_reward, AionError, AionState, Market, UserStake};

fn s(x: &str) -> String {
    x.to_string()
}

fn market(id: &str, yes: u128, no: u128, outcome: Option<bool>) -> Market {
    Market {
        id: s(id),
        title: s("Test Market"),
        description: s("Test"),
        category: s("Test"),
        event_date: 1735689600,
        creator: s("owner-1"),
        total_stake_yes: yes,
        total_stake_no: no,
        resolved: outcome.is_some(),
        outcome,
        created_at: 0,
    }
}

fn open_market(state: &mut AionState, id: &str, title: &str) {
    state
        .create_market(s(id), s(title), s("Test"), s("Test"), 1735689600, s("owner-1"), 0)
        .unwrap();
}

#[test]
fn test_market_creation() {
    let id = 1u64;
    let title = "Test Market".to_string();
    assert_eq!(id, 1);
    assert_eq!(title, "Test Market");
}

#[test]
fn test_stake_calculation() {
    let mut total_stake_yes = 1000u128;
    let stake_amount = 500u128;
    total_stake_yes += stake_amount;
    assert_eq!(total_stake_yes, 1500);
}

#[test]
fn lib_simple_test_create_market() {
    let mut state = AionState::new(s("admin"));
    let result = state.create_market(
        s("market-1"),
        s("Test Market"),
        s("Description"),
        s("Finance"),
        1735689600,
        s("creator"),
        0,
    );
    assert!(result.is_ok());
    assert_eq!(state.markets.len(), 1);
}

#[test]
fn test_stake() {
    let mut state = AionState::new(s("admin"));
    state
        .create_market(s("market-1"), s("Test"), s("Test"), s("Test"), 1735689600, s("creator"), 0)
        .unwrap();
    let result = state.place_stake(s("market-1"), s("user1"), 1000, true);
    assert!(result.is_ok());
    assert_eq!(state.total_value_locked, 1000);
    let market = state.get_market(&s("market-1")).unwrap();
    assert_eq!(market.total_stake_yes, 1000);
}

#[test]
fn test_resolve_and_claim() {
    let mut state = AionState::new(s("admin"));
    state
        .create_market(s("market-1"), s("Test"), s("Test"), s("Test"), 1735689600, s("creator"), 0)
        .unwrap();
    state.place_stake(s("market-1"), s("user1"), 1000, true).unwrap();
    state.place_stake(s("market-1"), s("user2"), 500, false).unwrap();
    let result = state.resolve_market(s("market-1"), true, s("admin"));
    assert!(result.is_ok());
    let reward = state.claim_rewards(s("market-1"), s("user1"));
    assert!(reward.is_ok());
    assert_eq!(reward.unwrap(), 1500);
}

#[test]
fn tests_test_create_market() {
    let mut state = AionState::new(s("owner-1"));
    let result = state.create_market(
        s("test-market-1"),
        s("Bitcoin $100k by 2025?"),
        s("Will BTC reach $100k?"),
        s("Finance"),
        1735689600,
        s("owner-1"),
        0,
    );
    assert!(result.is_ok());
    assert_eq!(state.markets.len(), 1);
    assert!(state.get_market(&s("test-market-1")).is_some());
}

#[test]
fn test_stake_on_market() {
    let mut state = AionState::new(s("owner-1"));
    open_market(&mut state, "test-market-1", "Test Market");
    state.place_stake(s("test-market-1"), s("owner-2"), 1000, true).unwrap();
    let market = state.get_market(&s("test-market-1")).unwrap();
    assert_eq!(market.total_stake_yes, 1000);
    assert_eq!(market.total_stake_no, 0);
    assert_eq!(market.total_stake(), 1000);
    assert_eq!(state.stakes.len(), 1);
}

#[test]
fn test_multiple_stakes() {
    let mut state = AionState::new(s("owner-1"));
    open_market(&mut state, "test-market-1", "Test Market");
    state.place_stake(s("test-market-1"), s("owner-2"), 1000, true).unwrap();
    state.place_stake(s("test-market-1"), s("owner-3"), 500, false).unwrap();
    let market = state.get_market(&s("test-market-1")).unwrap();
    assert_eq!(market.total_stake_yes, 1000);
    assert_eq!(market.total_stake_no, 500);
    assert_eq!(market.total_stake(), 1500);
    assert_eq!(state.stakes.len(), 2);
}

#[test]
fn test_resolve_market() {
    let mut state = AionState::new(s("owner-1"));
    open_market(&mut state, "test-market-1", "Test Market");
    state.place_stake(s("test-market-1"), s("owner-2"), 1000, true).unwrap();
    state.place_stake(s("test-market-1"), s("owner-3"), 500, false).unwrap();
    state.resolve_market(s("test-market-1"), true, s("owner-1")).unwrap();
    let market = state.get_market(&s("test-market-1")).unwrap();
    assert!(market.resolved);
    assert_eq!(market.outcome, Some(true));
}

#[test]
fn test_calculate_reward_winner() {
    let m = market("test-market-1", 1000, 500, Some(true));
    let winner = UserStake { amount: 1000, prediction: true, claimed: false };
    assert_eq!(compute_reward(&m, &winner).unwrap(), 1500);
}

#[test]
fn test_calculate_reward_loser() {
    let m = market("test-market-1", 1000, 500, Some(true));
    let loser = UserStake { amount: 500, prediction: false, claimed: false };
    assert_eq!(compute_reward(&m, &loser).unwrap(), 0);
}

#[test]
fn test_calculate_reward_multiple_winners() {
    let m = market("test-market-1", 2000, 1000, Some(true));
    let winner1 = UserStake { amount: 1500, prediction: true, claimed: false };
    let winner2 = UserStake { amount: 500, prediction: true, claimed: false };
    let reward1 = compute_reward(&m, &winner1).unwrap();
    let reward2 = compute_reward(&m, &winner2).unwrap();
    assert_eq!(reward1, 2250);
    assert_eq!(reward2, 750);
    assert_eq!(reward1 + reward2, 3000);
}

#[test]
fn test_market_not_resolved_error() {
    let m = market("test-market-1", 1000, 500, None);
    let user = UserStake { amount: 1000, prediction: true, claimed: false };
    let result = compute_reward(&m, &user);
    assert!(result.is_err());
    assert!(matches!(result.unwrap_err(), AionError::MarketNotResolved));
}

#[test]
fn test_already_claimed_error() {
    let m = market("test-market-1", 1000, 500, Some(true));
    let user = UserStake { amount: 1000, prediction: true, claimed: true };
    let result = compute_reward(&m, &user);
    assert!(result.is_err());
    assert!(matches!(result.unwrap_err(), AionError::AlreadyClaimed));
}

#[test]
fn test_state_get_market() {
    let mut state = AionState::new(s("owner-1"));
    open_market(&mut state, "test-market-1", "Test Market");
    let retrieved = state.get_market(&s("test-market-1"));
    assert!(retrieved.is_some());
    assert_eq!(retrieved.unwrap().id, "test-market-1");
    let not_found = state.get_market(&s("non-existent"));
    assert!(not_found.is_none());
}

#[test]
fn test_tvl_calculation() {
    let mut state = AionState::new(s("owner-1"));
    open_market(&mut state, "market-1", "Market 1");
    open_market(&mut state, "market-2", "Market 2");
    state.place_stake(s("market-1"), s("owner-2"), 1000, true).unwrap();
    state.place_stake(s("market-1"), s("owner-3"), 500, false).unwrap();
    state.place_stake(s("market-2"), s("owner-2"), 2000, true).unwrap();
    state.place_stake(s("market-2"), s("owner-3"), 1000, false).unwrap();
    let m1 = state.get_market(&s("market-1")).unwrap();
    let m2 = state.get_market(&s("market-2")).unwrap();
    assert_eq!(m1.total_stake() + m2.total_stake(), 4500);
    assert_eq!(state.total_value_locked, 4500);
}
