//! The escrow record: one funding request per `(creator, description)` key.

use vstd::prelude::*;
use crate::address::{AddrV, Identity, RecordAddressV};

verus! {

/// One funding request. `creator`, `target_amount` and `description` are
/// immutable after creation; `current_amount` counts the contributions
/// applied so far and never decreases; `is_completed` is set exactly once,
/// the first time `current_amount` reaches `target_amount`, and never reset.
pub struct PaymentRequest {
    pub creator: Identity,
    pub target_amount: u64,
    pub current_amount: u64,
    pub description: String,
    pub is_completed: bool,
}

impl PaymentRequest {
    /// The deterministic address of this record's storage account.
    pub open spec fn key(self) -> AddrV {
        AddrV::Record(RecordAddressV { creator: self.creator, description: self.description@ })
    }

    /// A record never claims completion it has not reached: once
    /// `is_completed` is set, `current_amount` has reached the target.
    pub open spec fn wf(self) -> bool {
        self.is_completed ==> self.current_amount >= self.target_amount
    }

    /// The persisted size of a record with description `description`: a
    /// fixed storage header, the fixed-width creator identity, the two
    /// 8-byte counters, the length-prefixed description (one length prefix
    /// plus its encoded bytes) and the 1-byte completion flag.
    pub open spec fn spec_space(description: Seq<char>) -> int {
        8 + 8 + 8 + 8 + 4 + vstd::utf8::encode_utf8(description).len() as int + 1
    }

    /// [`Self::spec_space`] clamped to what a size can hold.
    pub open spec fn spec_space_clamped(description: Seq<char>) -> int {
        if Self::spec_space(description) <= usize::MAX {
            Self::spec_space(description)
        } else {
            usize::MAX as int
        }
    }

    /// Computes the persisted size of a record with this `description`.
    pub fn space(description: &String) -> (r: usize)
        ensures
            r == Self::spec_space_clamped(description@),
    {
        let description_bytes = description.as_str().as_bytes().len();
        // storage header, creator identity, target_amount, current_amount,
        // description length prefix, is_completed
        description_bytes.saturating_add(8 + 8 + 8 + 8 + 4 + 1)
    }
}

/// Whether a contribution of `amount` to record `r` can be applied: the
/// record is still open and the counter does not overflow. A contribution is
/// successful exactly when this holds and the value transfer itself goes
/// through.
pub open spec fn contribute_ok(r: PaymentRequest, amount: u64) -> bool {
    &&& !r.is_completed
    &&& r.current_amount + amount <= u64::MAX
}

/// The record after a successful contribution of `amount`: the counter grows
/// by exactly `amount`, the completion flag is set when the counter reaches
/// the target, and every other field is unchanged.
pub open spec fn after_contribution(r: PaymentRequest, amount: u64) -> PaymentRequest {
    PaymentRequest {
        current_amount: (r.current_amount + amount) as u64,
        is_completed: r.current_amount + amount >= r.target_amount,
        ..r
    }
}

} // verus!
