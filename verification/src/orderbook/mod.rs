//! The order book of compute resources: operators offer resources, users
//! bid for them, and matching orders are filled against each other.
pub mod book;
pub mod hashing;
pub mod laws;
pub mod types;
pub mod wf;
