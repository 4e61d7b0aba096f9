//! An append-only, hash-linked ledger of monetary transfers: validation and
//! admission of transactions, batch application to balances, block sealing
//! with proof-of-work, and throughput bookkeeping.

pub mod encoding;
pub mod outside;
pub mod error;
pub mod transaction;
pub mod block;
pub mod queue;
pub mod performance;
pub mod accounts;
pub mod ledger;

pub use error::LedgerError;
pub use transaction::Transaction;
pub use block::Block;
pub use ledger::DistributedLedger;
