//! Typed failures of the ledger's operations.
use vstd::prelude::*;

verus! {

/// Why an operation was refused; a refused operation changes nothing.
#[derive(Debug, Clone, Copy, PartialEq, Eq, Structural)]
pub enum AionError {
    MarketNotFound,
    DuplicateMarket,
    InvalidMarketData,
    InvalidStakeAmount,
    MarketAlreadyResolved,
    MarketNotResolved,
    Unauthorized,
    NoRewardsToClaim,
    AlreadyClaimed,
    /// The exact reward does not fit in 128 bits.
    RewardOverflow,
}

impl AionError {
    /// A human-readable description of the failure.
    pub fn message(&self) -> (r: String) {
        match self {
            AionError::MarketNotFound => "Market not found".to_string(),
            AionError::DuplicateMarket => "Market already exists".to_string(),
            AionError::InvalidMarketData => "Invalid market data".to_string(),
            AionError::InvalidStakeAmount => "Invalid stake amount".to_string(),
            AionError::MarketAlreadyResolved => "Market already resolved".to_string(),
            AionError::MarketNotResolved => "Market not resolved".to_string(),
            AionError::Unauthorized => "Unauthorized".to_string(),
            AionError::NoRewardsToClaim => "No rewards to claim".to_string(),
            AionError::AlreadyClaimed => "Already claimed".to_string(),
            AionError::RewardOverflow => "Reward overflow".to_string(),
        }
    }
}

} // verus!
