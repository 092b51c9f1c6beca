//! Accounting and liquidity-rebalancing core of a token-staking contract:
//! a proportional-share ledger with height-indexed history, a bounded claim
//! queue for deferred withdrawals, a hook registry, and the arithmetic that
//! plans seeding of and exits from liquidity pools.
pub mod error;
pub mod numeric;
pub mod liquidity;
pub mod history;
pub mod order;
pub mod ledger;
pub mod config;
pub mod claims;
pub mod hooks;
pub mod rewards;
pub mod contract;
