//! Requests accepted by the ledger and their dispatch.
use crate::error::AionError;
use crate::market::Market;
use crate::query::{in_category, positions_of, PlatformStatistics};
use crate::state::AionState;
use vstd::prelude::*;

verus! {

/// The four mutating requests; the caller's identity comes with each.
#[derive(Debug)]
pub enum Operation {
    /// Open a market; the caller becomes its creator.
    CreateMarket {
        market_id: String,
        title: String,
        description: String,
        category: String,
        event_date: u64,
    },
    /// Stake on a market; the caller is the staking user.
    PlaceStake { market_id: String, amount: u128, prediction: bool },
    /// Fix a market's outcome; only the admin may.
    ResolveMarket { market_id: String, outcome: bool },
    /// Collect the reward of the caller in a resolved market.
    ClaimRewards { market_id: String },
}

/// The read-only requests.
#[derive(Debug)]
pub enum Query {
    GetMarket { market_id: String },
    GetAllMarkets,
    GetMarketsByCategory { category: String },
    GetUserStakes { user: String },
    GetStatistics,
}

/// Answers to the read-only requests.
#[derive(Debug)]
pub enum QueryResponse {
    Market(Option<Market>),
    Markets(Vec<Market>),
    UserStakes(Vec<(String, u128)>),
    Statistics(PlatformStatistics),
}

/// Names the request and answer types that a host binds together.
#[derive(Debug, Clone, Copy, PartialEq, Eq, Structural)]
pub struct AionAbi;

/// The outcome of an operation without its payout.
pub open spec fn without_payout(r: Result<u128, AionError>) -> Result<(), AionError> {
    match r {
        Ok(_) => Ok(()),
        Err(e) => Err(e),
    }
}

impl AionState {
    /// Whether staking under `op` keeps every amount within 128 bits.
    pub open spec fn fits(&self, op: &Operation) -> bool {
        match op {
            Operation::PlaceStake { market_id, amount, .. } => {
                &&& self.total_value_locked + *amount <= u128::MAX
                &&& self.has_market(market_id@) ==> self.market(market_id@).total_stake_yes
                    + self.market(market_id@).total_stake_no + *amount <= u128::MAX
            },
            _ => true,
        }
    }

    /// Runs `op` for `caller` at time `now`; a claim returns the payout,
    /// every other success returns zero.
    pub fn execute_operation(&mut self, op: Operation, caller: String, now: u64) -> (r: Result<u128, AionError>)
        requires
            old(self).wf(),
            old(self).fits(&op),
        ensures
            final(self).wf(),
            match op {
                Operation::CreateMarket { market_id, title, description, category, event_date } => {
                    &&& r.is_ok() ==> r == Ok::<u128, AionError>(0)
                    &&& AionState::create_post(
                        *old(self),
                        (Market {
                            id: market_id,
                            title,
                            description,
                            category,
                            event_date,
                            creator: caller,
                            total_stake_yes: 0,
                            total_stake_no: 0,
                            resolved: false,
                            outcome: None,
                            created_at: now,
                        }),
                        *final(self),
                        without_payout(r),
                    )
                },
                Operation::PlaceStake { market_id, amount, prediction } => {
                    &&& r.is_ok() ==> r == Ok::<u128, AionError>(0)
                    &&& AionState::stake_post(
                        *old(self),
                        market_id@,
                        caller@,
                        amount,
                        prediction,
                        *final(self),
                        without_payout(r),
                    )
                },
                Operation::ResolveMarket { market_id, outcome } => {
                    &&& r.is_ok() ==> r == Ok::<u128, AionError>(0)
                    &&& AionState::resolve_post(
                        *old(self),
                        market_id@,
                        outcome,
                        caller@,
                        *final(self),
                        without_payout(r),
                    )
                },
                Operation::ClaimRewards { market_id } => AionState::claim_post(
                    *old(self),
                    market_id@,
                    caller@,
                    *final(self),
                    r,
                ),
            },
    {
        match op {
            Operation::CreateMarket { market_id, title, description, category, event_date } => {
                match self.create_market(market_id, title, description, category, event_date, caller, now) {
                    Ok(()) => Ok(0),
                    Err(e) => Err(e),
                }
            },
            Operation::PlaceStake { market_id, amount, prediction } => {
                match self.place_stake(market_id, caller, amount, prediction) {
                    Ok(()) => Ok(0),
                    Err(e) => Err(e),
                }
            },
            Operation::ResolveMarket { market_id, outcome } => {
                match self.resolve_market(market_id, outcome, caller) {
                    Ok(()) => Ok(0),
                    Err(e) => Err(e),
                }
            },
            Operation::ClaimRewards { market_id } => self.claim_rewards(market_id, caller),
        }
    }

    /// Answers `q` from the current state, changing nothing.
    pub fn handle_query(&self, q: &Query) -> (r: QueryResponse)
        requires
            self.wf(),
        ensures
            match (q, r) {
                (Query::GetMarket { market_id }, QueryResponse::Market(m)) => m == if self.has_market(
                    market_id@,
                ) {
                    Some(self.market(market_id@))
                } else {
                    None::<Market>
                },
                (Query::GetAllMarkets, QueryResponse::Markets(v)) => v@ == self.markets@,
                (Query::GetMarketsByCategory { category }, QueryResponse::Markets(v)) => v@
                    == in_category(self.markets@, category@),
                (Query::GetUserStakes { user }, QueryResponse::UserStakes(v)) => v@ == positions_of(
                    self.stakes@,
                    user@,
                ),
                (Query::GetStatistics, QueryResponse::Statistics(s)) => s == self.statistics_spec(),
                _ => false,
            },
    {
        match q {
            Query::GetMarket { market_id } => QueryResponse::Market(self.get_market(market_id)),
            Query::GetAllMarkets => QueryResponse::Markets(self.get_all_markets()),
            Query::GetMarketsByCategory { category } => QueryResponse::Markets(
                self.get_markets_by_category(category),
            ),
            Query::GetUserStakes { user } => QueryResponse::UserStakes(self.get_user_stakes(user)),
            Query::GetStatistics => QueryResponse::Statistics(self.statistics()),
        }
    }
}

} // verus!
