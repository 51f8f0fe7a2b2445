//! A leveraged-yield-farming ledger: a lending vault that issues proportional
//! claim shares and debt shares, a linear interest accrual engine, and a farm
//! orchestrator that opens and closes leveraged liquidity positions.

pub mod error;
pub mod math;
pub mod sums;
pub mod asset;
pub mod interest;
pub mod vault;
pub mod events;
pub mod farm;
pub mod game;
pub mod escrow;
