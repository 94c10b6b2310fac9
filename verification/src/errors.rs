//! The typed errors of the three escrow operations.

use vstd::prelude::*;

verus! {

/// Why an escrow operation was rejected. Every failed precondition aborts
/// the operation with one of these and zero side effects.
#[derive(Clone, Copy, Debug, PartialEq, Eq, Structural)]
pub enum EscrowError {
    /// Open: the deposit amount was zero.
    InvalidAmount,
    /// Open: the deadline was not strictly in the future.
    InvalidDeadline,
    /// Open: a record for the derived identifier already exists.
    DuplicateEscrow,
    /// The source account's balance cannot cover the transfer.
    InsufficientFunds,
    /// Claim: the caller is not the recorded payee.
    Unauthorized,
    /// Claim or refund: the escrow has already settled, either way.
    AlreadySettled,
    /// Claim: the current time is past the deadline.
    DeadlineExpired,
    /// Refund: the deadline has not passed yet.
    DeadlineNotReached,
    /// Claim or refund: no record exists for the identifier.
    NotFound,
}

} // verus!
