//! The ledger's data types.

pub mod block;
pub mod blockchain;
