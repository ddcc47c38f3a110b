//! Accounting core of a binary-outcome prediction market: market registry,
//! stake book, settlement engine and read-only statistics.

pub mod arith;
pub mod book;
pub mod error;
pub mod laws;
pub mod market;
pub mod ops;
pub mod query;
pub mod state;

pub use error::AionError;
pub use market::{compute_reward, Market, UserStake};
pub use ops::{AionAbi, Operation, Query, QueryResponse};
pub use query::PlatformStatistics;
pub use state::{AionState, StakeRecord};
