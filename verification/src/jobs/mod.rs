//! The jobs pallet: job ids, validator job lookups and rewards, the
//! submission of jobs, the settlement of submitted results, the removal of
//! a validator from a submitted job (also on a report of its inactivity),
//! the read-only queries, and the RPC client handle.
pub mod client;
pub mod removal;
pub mod report;
pub mod results;
pub mod rewards;
pub mod rpc;
pub mod submission;
pub mod submitted;
