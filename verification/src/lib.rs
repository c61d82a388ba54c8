//! A minimal proof-of-work ledger.
//!
//! A [`Block`] commits to its content by a SHA-256 hash; mining searches for a
//! nonce that makes this hash begin with a given number of zeros. A
//! [`Blockchain`] holds blocks in order, each naming the hash of the one
//! before it, hands out the next block to mine, admits mined blocks and checks
//! the integrity of the whole.
//!
//! Every function carries a contract over the mathematical content of these
//! types, and the laws that tie the functions together are stated as proof
//! functions beside them. SHA-256, the JSON rendering of a string and the
//! clock are taken from outside.

pub mod clock;
pub mod digest;
pub mod encoding;
pub mod models;

pub use models::block::Block;
pub use models::blockchain::{Blockchain, ChainError};
