//! A deterministic ledger state machine: per-account balances, an append-only
//! numeric log, atomic value transfers and a compound-interest calculator,
//! all over 256-bit unsigned integers.

pub mod address;
pub mod conservation;
pub mod contract;
pub mod engine;
pub mod error;
pub mod interest;
pub mod ledger;
pub mod log;
pub mod store;
pub mod uint;
