//! Off-chain ledger of wagers kept in step with a betting contract, and the
//! signed settlement permits issued for them.

pub mod amount;
pub mod bets_syncer;
pub mod db;
pub mod error;
pub mod event_listener;
pub mod hash;
pub mod hex;
pub mod models;
pub mod primitives;
pub mod reconcile;
pub mod signer;
