//! The ways an operation on the ledger can fail.

use vstd::prelude::*;

verus! {

/// Why an operation was refused. A refused operation changes nothing; after
/// `ExternalTransferFailed` the withdrawal's debit has been given back.
#[derive(Clone, Copy, Debug, PartialEq, Eq, Structural)]
pub enum LedgerError {
    /// A debit asked for more than the account holds.
    InsufficientBalance,
    /// Two parallel lists differ in length.
    LengthMismatch,
    /// A log index at or past the log's length.
    IndexOutOfRange,
    /// A sum or product does not fit in 256 bits.
    Overflow,
    /// The outgoing value transfer reported failure.
    ExternalTransferFailed,
}

} // verus!
