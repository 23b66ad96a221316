//! Identities and deterministic addresses.
//!
//! Every balance-holding account on the ledger is named by an [`Address`]:
//! either the wallet of an identity, or the storage account of one escrow
//! record. A record's address is a deterministic function of the creator and
//! the description — the namespace (the variant), the fixed-width identity and
//! the description bytes together form the key, so two creators, or one
//! creator with two descriptions, never collide.

use vstd::prelude::*;

verus! {

/// A party that can sign calls and hold a wallet balance: a fixed-width
/// identity standing for a public key.
#[derive(Clone, Copy, Debug, PartialEq, Eq, Structural)]
pub struct Identity {
    pub id: u64,
}

/// The deterministic storage address of one escrow record: the record for
/// `(creator, description)` lives here and nowhere else.
pub struct RecordAddress {
    pub creator: Identity,
    pub description: String,
}

/// The mathematical value of a [`RecordAddress`].
#[verifier::ext_equal]
pub struct RecordAddressV {
    pub creator: Identity,
    pub description: Seq<char>,
}

impl View for RecordAddress {
    type V = RecordAddressV;

    open spec fn view(&self) -> RecordAddressV {
        RecordAddressV { creator: self.creator, description: self.description@ }
    }
}

/// The name of one balance-holding account: a wallet or a record's storage.
/// The two variants are distinct namespaces, so a wallet never collides with
/// a record account.
pub enum Address {
    Wallet(Identity),
    Record(RecordAddress),
}

/// The mathematical value of an [`Address`].
#[verifier::ext_equal]
pub enum AddrV {
    Wallet(Identity),
    Record(RecordAddressV),
}

impl View for Address {
    type V = AddrV;

    open spec fn view(&self) -> AddrV {
        match self {
            Address::Wallet(id) => AddrV::Wallet(*id),
            Address::Record(ra) => AddrV::Record(ra@),
        }
    }
}

/// Copies a record address; the copy denotes the same account.
pub fn clone_record_address(a: &RecordAddress) -> (r: RecordAddress)
    ensures
        r@ == a@,
{
    RecordAddress { creator: a.creator, description: a.description.clone() }
}

/// Copies an address; the copy denotes the same account.
pub fn clone_address(a: &Address) -> (r: Address)
    ensures
        r@ == a@,
{
    match a {
        Address::Wallet(id) => Address::Wallet(*id),
        Address::Record(ra) => Address::Record(clone_record_address(ra)),
    }
}

/// Decides whether two addresses name the same account.
pub fn address_eq(a: &Address, b: &Address) -> (r: bool)
    ensures
        r == (a@ == b@),
{
    match (a, b) {
        (Address::Wallet(x), Address::Wallet(y)) => x == y,
        (Address::Record(x), Address::Record(y)) => {
            let same = x.creator == y.creator && x.description == y.description;
            proof {
                if x@.creator == y@.creator && x@.description == y@.description {
                    assert(x@ =~= y@);
                }
            }
            same
        },
        _ => false,
    }
}

/// Distinct `(creator, description)` pairs derive distinct record addresses,
/// and a record address never equals a wallet address: the derivation is
/// injective and namespaced.
pub proof fn lemma_record_address_injective(a: RecordAddressV, b: RecordAddressV)
    ensures
        (AddrV::Record(a) == AddrV::Record(b)) <==> (a.creator == b.creator
            && a.description == b.description),
        forall|w: Identity| AddrV::Record(a) != AddrV::Wallet(w),
{
    if a.creator == b.creator && a.description == b.description {
        assert(a =~= b);
    }
}

} // verus!
