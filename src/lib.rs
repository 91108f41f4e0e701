//! Accounting and trade-execution core of a shared-liquidity market maker in
//! which every listed asset trades against one hub asset.
//!
//! - `arith`: exact ratios with directional rounding, fractions and
//!   fixed-point prices.
//! - `types`: the records of the asset reserve ledger.
//! - `math`: the curve of one asset against the hub asset, and trade quotes.
//! - `circuit_breaker`: per-block bounds on each asset's liquidity.
//! - `omnipool`: the pool engine (listing, liquidity, trades).
//! - `dca`: the scheduler of recurring trade orders.
//!
//! Balances of accounts, the asset registry and the block clock are kept by
//! the caller: operations take the values they check as arguments and report
//! the amounts to transfer.

pub mod arith;
pub mod types;
pub mod math;
pub mod circuit_breaker;
pub mod omnipool;
pub mod dca;
