//! The escrow operations over the record store and the ledger.
//!
//! [`PaymentSplitter`] holds the record store and the ledger, and exposes the
//! three state transitions: `create_payment_request`, `contribute_payment`
//! and `claim_funds`. Each executes as one indivisible step: it either
//! completes fully or fails with one error kind and leaves both the store and
//! the ledger exactly as they were.

use vstd::prelude::*;
use crate::address::{Address, AddrV, Identity, RecordAddress, RecordAddressV, clone_record_address};
use crate::error::PaymentSplitterError;
use crate::ledger::{Ledger, reserved_minimum, spec_reserved_minimum};
use crate::request::{PaymentRequest, after_contribution};

verus! {

/// The parties to a `create_payment_request` call: the creator signs and
/// pays the allocation cost of the new record.
pub struct CreatePaymentRequest {
    pub creator: Identity,
}

/// The parties to a `contribute_payment` call: the record contributed to,
/// the contributor whose wallet pays, and optionally the record's creator
/// co-signing to trigger auto-settlement.
pub struct ContributePayment {
    pub payment_request: RecordAddress,
    pub contributor: Identity,
    pub creator: Option<Identity>,
}

/// The parties to a `claim_funds` call: the record claimed from and the
/// claimant who receives the payout.
pub struct ClaimFunds {
    pub payment_request: RecordAddress,
    pub creator: Identity,
}

/// The escrow system: every live record, and the ledger holding every real
/// balance.
#[verifier::ext_equal]
pub struct PaymentSplitter {
    pub ledger: Ledger,
    pub requests: Vec<PaymentRequest>,
}

/// The storage reserve of a record with description `description`.
pub open spec fn spec_reserve(description: Seq<char>) -> u64 {
    spec_reserved_minimum(PaymentRequest::spec_space_clamped(description) as nat)
}

impl PaymentSplitter {
    /// Well-formedness: at most one live record per `(creator, description)`
    /// key, and every record's completion flag is honest.
    pub open spec fn wf(self) -> bool {
        &&& forall|i: int, j: int|
            0 <= i < j < self.requests@.len() ==> (#[trigger] self.requests@[i].key())
                != (#[trigger] self.requests@[j].key())
        &&& forall|i: int| 0 <= i < self.requests@.len() ==> (#[trigger] self.requests@[i]).wf()
    }

    /// Whether a live record exists at record address `a`.
    pub open spec fn has_request(self, a: RecordAddressV) -> bool {
        exists|i: int|
            0 <= i < self.requests@.len() && (#[trigger] self.requests@[i].key())
                == AddrV::Record(a)
    }

    /// The index of the record at address `a`, where one exists.
    pub open spec fn index_of(self, a: RecordAddressV) -> int {
        choose|i: int|
            0 <= i < self.requests@.len() && (#[trigger] self.requests@[i].key())
                == AddrV::Record(a)
    }

    /// The record at address `a`, where one exists.
    pub open spec fn request_for(self, a: RecordAddressV) -> PaymentRequest {
        self.requests@[self.index_of(a)]
    }

    /// An empty system: no records, every balance zero.
    pub fn new() -> (r: PaymentSplitter)
        ensures
            r.wf(),
            r.requests@.len() == 0,
            forall|a: AddrV| r.ledger.bal(a) == 0,
            forall|a: RecordAddressV| !r.has_request(a),
    {
        PaymentSplitter { ledger: Ledger::new(), requests: Vec::new() }
    }

    /// The index of the record whose key is `(creator, description)`, if any.
    fn find_index(&self, creator: Identity, description: &String) -> (r: Option<usize>)
        ensures
            match r {
                Some(i) => 0 <= i < self.requests@.len() && self.requests@[i as int].creator
                    == creator && self.requests@[i as int].description@ == description@,
                None => !self.has_request(
                    RecordAddressV { creator, description: description@ },
                ),
            },
    {
        let n = self.requests.len();
        let mut i: usize = 0;
        while i < n
            invariant
                n == self.requests@.len(),
                0 <= i <= n,
                forall|j: int|
                    0 <= j < i ==> !((#[trigger] self.requests@[j]).creator == creator
                        && self.requests@[j].description@ == description@),
            decreases n - i,
        {
            if self.requests[i].creator == creator && self.requests[i].description == *description {
                return Some(i);
            }
            i = i + 1;
        }
        proof {
            let a = RecordAddressV { creator, description: description@ };
            assert forall|j: int|
                0 <= j < self.requests@.len() implies (#[trigger] self.requests@[j].key())
                != AddrV::Record(a) by {
                assert(!(self.requests@[j].creator == creator && self.requests@[j].description@
                    == description@));
            }
        }
        None
    }

    /// Under well-formedness, a record matching key `a` at index `i` is the
    /// record `index_of(a)` names.
    pub proof fn lemma_found_is_the_request(self, i: int, a: RecordAddressV)
        requires
            self.wf(),
            0 <= i < self.requests@.len(),
            self.requests@[i].key() == AddrV::Record(a),
        ensures
            self.has_request(a),
            self.index_of(a) == i,
            self.request_for(a) == self.requests@[i],
    {
        assert(self.has_request(a));
        let k = self.index_of(a);
        if k != i {
            assert(self.requests@[k].key() == self.requests@[i].key());
        }
    }

    /// Creates a new funding request owned by `ctx.creator`, addressable at
    /// the key derived from the creator and the description. The new record
    /// starts at `current_amount == 0`, not completed, with `target_amount`
    /// and `description` set verbatim. The creator funds the new record's
    /// storage reserve. Fails with `AlreadyExists` when a record for the same
    /// key is live, and with `TransferFailed` when the reserve cannot be
    /// moved; a failed call changes nothing.
    pub fn create_payment_request(
        &mut self,
        ctx: CreatePaymentRequest,
        target_amount: u64,
        description: String,
    ) -> (r: Result<(), PaymentSplitterError>)
        requires
            old(self).wf(),
        ensures
            final(self).wf(),
            ({
                let key = RecordAddressV { creator: ctx.creator, description: description@ };
                let reserve = spec_reserve(description@);
                let funded = old(self).ledger.bal(AddrV::Wallet(ctx.creator)) >= reserve
                    && old(self).ledger.bal(AddrV::Record(key)) + reserve <= u64::MAX;
                if old(self).has_request(key) {
                    r == Err::<(), _>(PaymentSplitterError::AlreadyExists) && *final(self)
                        == *old(self)
                } else if !funded {
                    r == Err::<(), _>(PaymentSplitterError::TransferFailed) && *final(self)
                        == *old(self)
                } else {
                    &&& r == Ok::<_, PaymentSplitterError>(())
                    &&& final(self).requests@ == old(self).requests@.push(
                        PaymentRequest {
                            creator: ctx.creator,
                            target_amount,
                            current_amount: 0,
                            description,
                            is_completed: false,
                        },
                    )
                    &&& final(self).ledger.bal(AddrV::Wallet(ctx.creator)) == old(
                        self,
                    ).ledger.bal(AddrV::Wallet(ctx.creator)) - reserve
                    &&& final(self).ledger.bal(AddrV::Record(key)) == old(self).ledger.bal(
                        AddrV::Record(key),
                    ) + reserve
                    &&& forall|b: AddrV|
                        b != AddrV::Wallet(ctx.creator) && b != AddrV::Record(key)
                            ==> #[trigger] final(self).ledger.bal(b) == old(self).ledger.bal(b)
                }
            }),
    {
        let ghost key = RecordAddressV { creator: ctx.creator, description: description@ };
        match self.find_index(ctx.creator, &description) {
            Some(i) => {
                proof {
                    assert(self.requests@[i as int].key() =~= AddrV::Record(key));
                }
                Err(PaymentSplitterError::AlreadyExists)
            },
            None => {
                let space = PaymentRequest::space(&description);
                let reserve = reserved_minimum(space);
                let creator_wallet = Address::Wallet(ctx.creator);
                let record_address = Address::Record(
                    RecordAddress { creator: ctx.creator, description: description.clone() },
                );
                proof {
                    assert(record_address@ == AddrV::Record(key));
                }
                let funded = self.ledger.transfer(&creator_wallet, &record_address, reserve);
                if !funded {
                    return Err(PaymentSplitterError::TransferFailed);
                }
                let record = PaymentRequest {
                    creator: ctx.creator,
                    target_amount,
                    current_amount: 0,
                    description,
                    is_completed: false,
                };
                proof {
                    assert(record.key() == AddrV::Record(key));
                }
                self.requests.push(record);
                proof {
                    assert forall|i: int, j: int|
                        0 <= i < j < self.requests@.len() implies (
                    #[trigger] self.requests@[i].key()) != (#[trigger] self.requests@[j].key()) by {
                        if j == self.requests@.len() - 1 {
                            assert(self.requests@[i] == old(self).requests@[i]);
                        }
                    }
                }
                Ok(())
            },
        }
    }

    /// Contributes `amount` from `ctx.contributor` to the record at
    /// `ctx.payment_request`. On success the amount moves from the
    /// contributor's wallet into the record's balance and `current_amount`
    /// grows by exactly `amount`; the completion flag is set when the counter
    /// reaches the target. If the contribution completes the goal and the
    /// record's creator co-signed the call (`ctx.creator`), the same payout
    /// as `claim_funds` is settled to the creator immediately.
    ///
    /// Fails with `RequestCompleted` on a record whose goal is already met,
    /// with `Overflow` when the counter addition would overflow, and with
    /// `TransferFailed` when the value movement cannot be completed; a failed
    /// call changes nothing.
    pub fn contribute_payment(&mut self, ctx: ContributePayment, amount: u64) -> (r: Result<
        (),
        PaymentSplitterError,
    >)
        requires
            old(self).wf(),
            old(self).has_request(ctx.payment_request@),
            ctx.creator == Some(ctx.payment_request.creator) ==> old(self).ledger.bal(
                AddrV::Wallet(ctx.payment_request.creator),
            ) + old(self).ledger.bal(AddrV::Record(ctx.payment_request@)) + amount <= u64::MAX,
        ensures
            final(self).wf(),
            ({
                let a = ctx.payment_request@;
                let key = AddrV::Record(a);
                let wallet = AddrV::Wallet(ctx.contributor);
                let idx = old(self).index_of(a);
                let req = old(self).request_for(a);
                if req.is_completed {
                    r == Err::<(), _>(PaymentSplitterError::RequestCompleted) && *final(self)
                        == *old(self)
                } else if req.current_amount + amount > u64::MAX {
                    r == Err::<(), _>(PaymentSplitterError::Overflow) && *final(self) == *old(self)
                } else if !(old(self).ledger.bal(wallet) >= amount && old(self).ledger.bal(key)
                    + amount <= u64::MAX) {
                    r == Err::<(), _>(PaymentSplitterError::TransferFailed) && *final(self)
                        == *old(self)
                } else {
                    let updated = after_contribution(req, amount);
                    let settles = updated.is_completed && ctx.creator == Some(req.creator);
                    let reserve = spec_reserve(req.description@);
                    let funded = (old(self).ledger.bal(key) + amount) as u64;
                    let payout: u64 = if settles && funded >= reserve {
                        (funded - reserve) as u64
                    } else {
                        0
                    };
                    &&& r == Ok::<_, PaymentSplitterError>(())
                    &&& final(self).requests@ == old(self).requests@.update(idx, updated)
                    &&& forall|b: AddrV|
                        #[trigger] final(self).ledger.bal(b) == old(self).ledger.bal(b) - (
                        if b == wallet {
                            amount as int
                        } else {
                            0int
                        }) + (
                        if b == key {
                            amount as int
                        } else {
                            0int
                        }) - (
                        if b == key {
                            payout as int
                        } else {
                            0int
                        }) + (
                        if b == AddrV::Wallet(req.creator) {
                            payout as int
                        } else {
                            0int
                        })
                }
            }),
    {
        let ghost a = ctx.payment_request@;
        let i = match self.find_index(ctx.payment_request.creator, &ctx.payment_request.description) {
            Some(i) => i,
            None => {
                return vstd::pervasive::unreached();
            },
        };
        proof {
            assert(self.requests@[i as int].key() =~= AddrV::Record(a));
            self.lemma_found_is_the_request(i as int, a);
        }
        if self.requests[i].is_completed {
            return Err(PaymentSplitterError::RequestCompleted);
        }
        let target = self.requests[i].target_amount;
        let new_amount = match self.requests[i].current_amount.checked_add(amount) {
            None => {
                return Err(PaymentSplitterError::Overflow);
            },
            Some(n) => n,
        };
        let contributor_wallet = Address::Wallet(ctx.contributor);
        let record_address = Address::Record(clone_record_address(&ctx.payment_request));
        let moved = self.ledger.transfer(&contributor_wallet, &record_address, amount);
        if !moved {
            return Err(PaymentSplitterError::TransferFailed);
        }
        let mut req = self.requests.remove(i);
        req.current_amount = new_amount;
        if new_amount >= target {
            req.is_completed = true;
            if let Some(signer) = ctx.creator {
                if signer == req.creator {
                    let record_balance = self.ledger.balance_of(&record_address);
                    let space = PaymentRequest::space(&req.description);
                    let reserve = reserved_minimum(space);
                    let payout = record_balance.saturating_sub(reserve);
                    let creator_wallet = Address::Wallet(signer);
                    let settled = self.ledger.transfer(&record_address, &creator_wallet, payout);
                    proof {
                        assert(settled);
                    }
                }
            }
        }
        self.requests.insert(i, req);
        proof {
            let idx = i as int;
            let old_req = old(self).requests@[idx];
            assert(req == after_contribution(old_req, amount));
            assert(self.requests@ =~= old(self).requests@.update(idx, req));
            assert forall|k: int, j: int|
                0 <= k < j < self.requests@.len() implies (#[trigger] self.requests@[k].key()) != (
            #[trigger] self.requests@[j].key()) by {
                assert(self.requests@[k].key() == old(self).requests@[k].key());
                assert(self.requests@[j].key() == old(self).requests@[j].key());
            }
        }
        Ok(())
    }

    /// Pays the record's balance above its storage reserve out to
    /// `ctx.creator`, the claimant, and returns the payout. The claimant is
    /// authorized when the record is completed, or when the claimant is the
    /// record's creator — the creator may always withdraw early. The payout is
    /// exactly the record balance less the storage reserve, and zero when the
    /// balance is at or below the reserve; the record's fields, its counter
    /// and its flag included, are untouched. Fails with `NotAuthorized`, and
    /// changes nothing, exactly when neither condition holds.
    pub fn claim_funds(&mut self, ctx: ClaimFunds) -> (r: Result<u64, PaymentSplitterError>)
        requires
            old(self).wf(),
            old(self).has_request(ctx.payment_request@),
            old(self).ledger.bal(AddrV::Wallet(ctx.creator)) + old(self).ledger.bal(
                AddrV::Record(ctx.payment_request@),
            ) <= u64::MAX,
        ensures
            final(self).wf(),
            ({
                let a = ctx.payment_request@;
                let key = AddrV::Record(a);
                let wallet = AddrV::Wallet(ctx.creator);
                let req = old(self).request_for(a);
                let reserve = spec_reserve(req.description@);
                let balance = old(self).ledger.bal(key);
                let payout: u64 = if balance >= reserve {
                    (balance - reserve) as u64
                } else {
                    0
                };
                if !(req.is_completed || ctx.creator == req.creator) {
                    r == Err::<u64, _>(PaymentSplitterError::NotAuthorized) && *final(self)
                        == *old(self)
                } else {
                    &&& r == Ok::<_, PaymentSplitterError>(payout)
                    &&& final(self).requests == old(self).requests
                    &&& final(self).ledger.bal(key) == balance - payout
                    &&& final(self).ledger.bal(wallet) == old(self).ledger.bal(wallet) + payout
                    &&& forall|b: AddrV|
                        b != key && b != wallet ==> #[trigger] final(self).ledger.bal(b) == old(
                            self,
                        ).ledger.bal(b)
                }
            }),
    {
        let ghost a = ctx.payment_request@;
        let i = match self.find_index(ctx.payment_request.creator, &ctx.payment_request.description) {
            Some(i) => i,
            None => {
                return vstd::pervasive::unreached();
            },
        };
        proof {
            assert(self.requests@[i as int].key() =~= AddrV::Record(a));
            self.lemma_found_is_the_request(i as int, a);
        }
        let authorized = self.requests[i].is_completed || self.requests[i].creator == ctx.creator;
        if !authorized {
            return Err(PaymentSplitterError::NotAuthorized);
        }
        let record_address = Address::Record(clone_record_address(&ctx.payment_request));
        let record_balance = self.ledger.balance_of(&record_address);
        let space = PaymentRequest::space(&self.requests[i].description);
        let reserve = reserved_minimum(space);
        let payout = record_balance.saturating_sub(reserve);
        let claimant_wallet = Address::Wallet(ctx.creator);
        let moved = self.ledger.transfer(&record_address, &claimant_wallet, payout);
        proof {
            assert(moved);
        }
        Ok(payout)
    }

    /// Reads the record at `payment_request`, if one exists.
    pub fn get_request(&self, payment_request: &RecordAddress) -> (r: Option<&PaymentRequest>)
        requires
            self.wf(),
        ensures
            match r {
                Some(req) => self.has_request(payment_request@) && *req == self.request_for(
                    payment_request@,
                ),
                None => !self.has_request(payment_request@),
            },
    {
        match self.find_index(payment_request.creator, &payment_request.description) {
            Some(i) => {
                proof {
                    assert(self.requests@[i as int].key() =~= AddrV::Record(payment_request@));
                    self.lemma_found_is_the_request(i as int, payment_request@);
                }
                Some(&self.requests[i])
            },
            None => None,
        }
    }
}

} // verus!
