//! Scheduled requests of the parachain staking pallet: a delegator asks to
//! revoke or decrease a delegation, may cancel the request before it is
//! due, and has it executed once it is.
pub mod delegation_requests;
pub mod execution;
