//! A minimal escrow state machine: independent parties contribute value
//! toward a funding goal owned by a creator; once the goal is met, the
//! accumulated value is released to the creator.
//!
//! The library has two layers. The record store ([`splitter::PaymentSplitter`])
//! persists one [`request::PaymentRequest`] per funding goal, keyed by the
//! deterministic address derived from the creator and the description. The
//! operations (`create_payment_request`, `contribute_payment`, `claim_funds`)
//! validate preconditions, mutate the record, and move value on the
//! [`ledger::Ledger`], the balance-holding collaborator.

pub mod address;
pub mod error;
pub mod ledger;
pub mod request;
pub mod splitter;
pub mod laws;
