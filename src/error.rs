use vstd::prelude::*;

verus! {

/// Why an operation on the ledger was refused.
///
/// A refused operation leaves the ledger exactly as it was.
#[derive(Debug, Clone, Copy, PartialEq, Eq, Structural)]
pub enum TokenError {
    /// The sender holds less than the amount asked for.
    InsufficientBalance,
    /// Minting is locked until a time that has not yet come.
    TransferLocked,
    /// The caller is not the owner of the ledger.
    NotAuthorized,
    /// The sender has never held a balance entry.
    InvalidOperation,
    /// The new total supply would not fit in a `u64`.
    Overflow,
}

} // verus!
