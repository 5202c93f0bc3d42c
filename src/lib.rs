//! Verified core of an off-chain sequencer for a Solana-style ledger: account
//! keys and snapshots, the transfer bundler, escrow delegation, the state
//! store and the per-transaction orchestration of the sequencer.

pub mod bytes;
pub mod key;
pub mod table;
pub mod model;
pub mod bundler;
pub mod delegation;
pub mod delegation_service;
pub mod rollupdb;
pub mod loader;
pub mod sequencer;
pub mod frontend;
pub mod threading;
