//! Failure kinds shared by the ledgers.

use vstd::prelude::*;

verus! {

/// Why an operation was rejected.  Every failure aborts the whole operation:
/// a rejected call leaves the ledger state exactly as it was.
#[derive(Clone, Copy, PartialEq, Eq, Structural, Debug)]
pub enum LedgerError {
    /// The referenced entity (quest or badge) is absent.
    NotFound,
    /// A quest with this id already exists.
    AlreadyExists,
    /// A badge with this id was already minted.
    AlreadyMinted,
    /// This (user, quest) pair already holds a completion record.
    AlreadyCompleted,
    /// The acting principal is not the one the operation demands.
    Unauthorized,
    /// The quest is in a terminal state (completed or cancelled).
    NotActive,
    /// The quest's expiry time lies in the past.
    Expired,
    /// The quest's completion cap is reached.
    CapReached,
    /// The platform configuration was never initialized.
    Uninitialized,
}

} // verus!
