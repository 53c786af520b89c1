//! A minimal single-process ledger: transactions, blocks sealed by a
//! hash-based proof of work, and a chain that keeps them linked.
pub mod balance;
pub mod block;
pub mod bytes;
pub mod chain;
pub mod hashing;
pub mod showcase;
pub mod transaction;

pub use block::Block;
pub use chain::{
    find_block, BlockChain, BlockSearch, BlockSearchResult, ChainConfig, EmptyChainError,
};
pub use transaction::{DecodeError, Serialization, Transaction};
