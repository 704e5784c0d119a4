//! Accounting core of a two-tier lending protocol: an interest-rate curve, a
//! ledger of debt positions, a per-asset liquidity pool and a router that maps
//! assets to pools and sequences the multi-leg borrow and repay flows.

pub mod types;
pub mod rate;
pub mod ledger;
pub mod metadata;
pub mod pool;
pub mod router;
