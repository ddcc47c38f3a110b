//! Markets, per-user stakes, and the settlement rule.
use crate::arith::mul_div;
use crate::error::AionError;
use vstd::prelude::*;

verus! {

/// One binary-outcome proposition open for staking until resolved.
#[derive(Debug, Clone)]
pub struct Market {
    pub id: String,
    pub title: String,
    pub description: String,
    pub category: String,
    pub event_date: u64,
    pub creator: String,
    pub total_stake_yes: u128,
    pub total_stake_no: u128,
    pub resolved: bool,
    pub outcome: Option<bool>,
    pub created_at: u64,
}

/// A user's cumulative position in one market.
#[derive(Debug, Clone, Copy, PartialEq, Eq, Structural)]
pub struct UserStake {
    pub amount: u128,
    pub prediction: bool,
    pub claimed: bool,
}

impl Market {
    /// An outcome is present exactly when the market is resolved, and the two
    /// pools together fit in 128 bits.
    pub open spec fn wf(&self) -> bool {
        &&& self.resolved <==> self.outcome.is_some()
        &&& self.total_stake_yes + self.total_stake_no <= u128::MAX
    }

    /// The pool staked on `side`.
    pub open spec fn pool(&self, side: bool) -> u128 {
        if side {
            self.total_stake_yes
        } else {
            self.total_stake_no
        }
    }

    /// A field-by-field copy of the market.
    pub fn snapshot(&self) -> (r: Market)
        ensures
            r == *self,
    {
        Market {
            id: self.id.clone(),
            title: self.title.clone(),
            description: self.description.clone(),
            category: self.category.clone(),
            event_date: self.event_date,
            creator: self.creator.clone(),
            total_stake_yes: self.total_stake_yes,
            total_stake_no: self.total_stake_no,
            resolved: self.resolved,
            outcome: self.outcome,
            created_at: self.created_at,
        }
    }

    /// Sum of both pools.
    pub fn total_stake(&self) -> (r: u128)
        requires
            self.wf(),
        ensures
            r == self.total_stake_yes + self.total_stake_no,
    {
        self.total_stake_yes + self.total_stake_no
    }
}

/// What a stake earns in a resolved market with outcome `outcome`: nothing
/// for a losing side or an empty winning pool; otherwise the stake back plus
/// its floor share of the losing pool.
pub open spec fn reward_value(m: Market, s: UserStake) -> int {
    let outcome = m.outcome.unwrap();
    let winning = m.pool(outcome) as int;
    let losing = m.pool(!outcome) as int;
    if s.prediction != outcome || winning == 0 {
        0
    } else {
        s.amount as int + (s.amount as int * losing) / winning
    }
}

/// The error, if any, that settling `s` in `m` meets before a reward exists.
pub open spec fn reward_error(m: Market, s: UserStake) -> Option<AionError> {
    if !m.resolved {
        Some(AionError::MarketNotResolved)
    } else if s.claimed {
        Some(AionError::AlreadyClaimed)
    } else if reward_value(m, s) > u128::MAX {
        Some(AionError::RewardOverflow)
    } else {
        None
    }
}

/// Computes the reward owed to stake `s` in market `m`.
pub fn compute_reward(m: &Market, s: &UserStake) -> (r: Result<u128, AionError>)
    requires
        m.wf(),
    ensures
        match reward_error(*m, *s) {
            Some(e) => r == Err::<u128, AionError>(e),
            None => r == Ok::<u128, AionError>(reward_value(*m, *s) as u128),
        },
{
    if !m.resolved {
        return Err(AionError::MarketNotResolved);
    }
    if s.claimed {
        return Err(AionError::AlreadyClaimed);
    }
    let outcome = match m.outcome {
        Some(o) => o,
        None => return Err(AionError::MarketNotResolved),
    };
    if s.prediction != outcome {
        return Ok(0);
    }
    let (winning, losing) = if outcome {
        (m.total_stake_yes, m.total_stake_no)
    } else {
        (m.total_stake_no, m.total_stake_yes)
    };
    if winning == 0 {
        return Ok(0);
    }
    let share = match mul_div(s.amount, losing, winning) {
        Some(v) => v,
        None => return Err(AionError::RewardOverflow),
    };
    match s.amount.checked_add(share) {
        Some(v) => Ok(v),
        None => Err(AionError::RewardOverflow),
    }
}

} // verus!
