//! Two small pieces of contract state: an owned counter and a store of one
//! value and a list of addresses.

pub mod contract;
pub mod storage;
