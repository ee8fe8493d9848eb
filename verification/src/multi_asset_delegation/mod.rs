//! The multi-asset delegation pallet: operators, deposits, delegations,
//! slashing and rewards.
pub mod blueprints;
pub mod delegate;
pub mod deposit;
pub mod info;
pub mod laws;
pub mod migration;
pub mod operator;
pub mod pallet;
pub mod rewards;
pub mod slash;
pub mod snapshot;
pub mod unstake;
pub mod types;
