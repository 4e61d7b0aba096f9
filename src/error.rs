use vstd::prelude::*;

verus! {

/// Every way an operation of the ledger can fail.
#[derive(Debug)]
pub enum LedgerError {
    /// The transaction breaks one of its invariants; the payload says which.
    InvalidTransaction(String),
    /// A block failed its structural checks; the payload says which.
    BlockValidationFailed(String),
    /// The sender's balance is below the amount.
    InsufficientBalance,
    /// A transaction with the same id was already admitted.
    DuplicateTransaction,
    /// A block with the same id already exists.
    DuplicateBlock,
    /// The submission queue is full.
    PerformanceLimitExceeded(String),
    /// An unexpected failure.
    Internal(String),
}

} // verus!
