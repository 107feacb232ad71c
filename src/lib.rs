//! A ledger for fungible carbon-credit assets, with a role registry for the
//! platform's users.

pub mod accounts;
pub mod asset_id;
pub mod deposits;
pub mod laws;
pub mod model;
pub mod native;
pub mod pallet;
pub mod records;
pub mod registry;
pub mod store;
pub mod types;
