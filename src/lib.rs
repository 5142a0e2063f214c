//! Accounting and auction core of a collateralized lending pool.
//!
//! - `reserve` and `interest`: per-asset exchange rates, share conversions that
//!   round in the pool's favour, the utilization curve and interest accrual.
//! - `reserve_usage`: the per-user bitmask of active collateral and liability positions.
//! - `user_data`: valuation of a user's positions in the base asset.
//! - `auction`: creation, pricing on a block-based decay curve, filling and
//!   cancelling of liquidation, bad-debt and interest auctions.
//! - `emissions`: the pool's emission shares and their per-cycle update.
//! - `token`: the ledger of a pool token.
//!
//! The pool's state (reserves, user positions, oracle prices, auctions) is held
//! in plain values in `pool::Pool`; every fixed-point step goes through `fixed_point_math`.

pub mod auction;
pub mod constants;
pub mod emissions;
pub mod errors;
pub mod fixed_math;
pub mod interest;
pub mod pool;
pub mod reserve;
pub mod reserve_usage;
pub mod token;
pub mod user_data;
