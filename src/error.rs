use vstd::prelude::*;

verus! {

/// Failure kinds of wallet operations; each keeps its category distinct so
/// that callers can branch on it.
#[derive(Clone, Debug, PartialEq, Eq)]
pub enum WalletError {
    /// A malformed amount, account name or mnemonic.
    InvalidInput,
    /// The spendable outputs cannot cover the amount and its fee.
    InsufficientFunds,
    /// An output that was to be reserved is not currently unspent.
    AlreadyLocked,
    /// A confirmed transaction cannot be changed any more.
    AlreadyConfirmed,
    /// The slate failed verification.
    InvalidSlate,
    /// The slate lacks a participant's contribution.
    IncompleteSlate,
    /// The node could not be reached.
    NodeUnreachable,
    /// The node refused a transaction, with its reason.
    RejectedByNode(String),
    /// An unknown transaction or output id.
    NotFound,
    /// Local persistence failed or ran out of identifiers.
    StorageError,
}

} // verus!
