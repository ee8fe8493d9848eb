//! Verified core logic of the Tangle restaking, delegation and order-matching pallets.
pub mod asset;
pub mod jobs;
pub mod key_order;
pub mod keyed_map;
pub mod ledger;
pub mod multi_asset_delegation;
pub mod oracle;
pub mod orderbook;
pub mod parachain_staking;
pub mod percent;
pub mod restaking_delegation;
pub mod seq_search;
