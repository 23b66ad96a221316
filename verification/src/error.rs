//! The error kinds of the escrow operations.

use vstd::prelude::*;

verus! {

/// Every way an escrow operation can fail. Each failure is terminal for the
/// call and leaves the record and the ledger exactly as they were.
#[derive(Clone, Copy, Debug, PartialEq, Eq, Structural)]
pub enum PaymentSplitterError {
    /// A record for the same `(creator, description)` key already exists.
    AlreadyExists,
    /// A contribution was made to a record whose goal is already met.
    RequestCompleted,
    /// Adding the contribution to `current_amount` would overflow the counter.
    Overflow,
    /// The underlying value movement could not be completed, for example
    /// because the paying balance is insufficient.
    TransferFailed,
    /// A claim by an identity that is neither the creator nor acting on a
    /// completed record.
    NotAuthorized,
}

} // verus!
