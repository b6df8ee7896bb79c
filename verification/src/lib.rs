//! State engine of a zero-knowledge rollup for a spot exchange.
//!
//! The ledger is a forest of Merkle trees (accounts, and per account its balances and its open
//! orders) summarised by one root. Every state transition is recorded as a witness that holds
//! the Merkle paths a circuit needs to check the transition.

pub mod adapter;
pub mod codec;
pub mod common;
pub mod decimal;
pub mod export;
pub mod field;
pub mod global_state;
pub mod laws;
pub mod ledger;
pub mod merkle;
pub mod messages;
pub mod registry;
pub mod table;
pub mod tx_detail_idx;
