//! The restaking delegation pallet: choosing the operators of a round and
//! splitting an operator's reward among its delegators.
pub mod rewards;
pub mod round;
pub mod selection;
pub mod types;
