//! The balance-holding ledger.
//!
//! The ledger is the collaborator that owns every real balance: wallets of
//! identities and the storage accounts of escrow records. The escrow
//! operations never manage raw balances themselves; they orchestrate
//! [`Ledger::transfer`] and [`Ledger::balance_of`]. An address that holds no
//! entry has balance zero. [`reserved_minimum`] gives the balance a record's
//! storage must retain to remain allocated, as a fixed function of its size.

use vstd::prelude::*;
use crate::address::{Address, AddrV, clone_address};

verus! {

/// One balance-holding account: an address and the value it holds.
pub struct AccountEntry {
    pub address: Address,
    pub lamports: u64,
}

/// The balance of address `a` in a sequence of entries: the value of the
/// first entry for `a`, and zero where there is none.
spec fn bal_of(s: Seq<AccountEntry>, a: AddrV) -> u64
    decreases s.len(),
{
    if s.len() == 0 {
        0u64
    } else if s[0].address@ == a {
        s[0].lamports
    } else {
        bal_of(s.drop_first(), a)
    }
}

proof fn lemma_bal_of_first_match(s: Seq<AccountEntry>, i: int, a: AddrV)
    requires
        0 <= i < s.len(),
        s[i].address@ == a,
        forall|j: int| 0 <= j < i ==> s[j].address@ != a,
    ensures
        bal_of(s, a) == s[i].lamports,
    decreases i,
{
    if i > 0 {
        lemma_bal_of_first_match(s.drop_first(), i - 1, a);
    }
}

proof fn lemma_bal_of_absent(s: Seq<AccountEntry>, a: AddrV)
    requires
        forall|j: int| 0 <= j < s.len() ==> s[j].address@ != a,
    ensures
        bal_of(s, a) == 0,
    decreases s.len(),
{
    if s.len() > 0 {
        lemma_bal_of_absent(s.drop_first(), a);
    }
}

proof fn lemma_bal_of_update_other(s: Seq<AccountEntry>, i: int, e: AccountEntry, b: AddrV)
    requires
        0 <= i < s.len(),
        e.address@ == s[i].address@,
        b != s[i].address@,
    ensures
        bal_of(s.update(i, e), b) == bal_of(s, b),
    decreases i,
{
    if i == 0 {
        assert(s.update(0, e)[0] == e);
        assert(s.update(0, e).drop_first() =~= s.drop_first());
        assert(bal_of(s.update(0, e), b) == bal_of(s.update(0, e).drop_first(), b));
        assert(bal_of(s, b) == bal_of(s.drop_first(), b));
    } else {
        assert(s.update(i, e)[0] == s[0]);
        assert(s.update(i, e).drop_first() =~= s.drop_first().update(i - 1, e));
        lemma_bal_of_update_other(s.drop_first(), i - 1, e, b);
        assert(bal_of(s.update(i, e), b) == bal_of(s.update(i, e).drop_first(), b)
            || s[0].address@ == b);
        assert(bal_of(s, b) == bal_of(s.drop_first(), b) || s[0].address@ == b);
    }
}

proof fn lemma_bal_of_update(s: Seq<AccountEntry>, i: int, e: AccountEntry)
    requires
        0 <= i < s.len(),
        e.address@ == s[i].address@,
        forall|j: int| 0 <= j < i ==> s[j].address@ != s[i].address@,
    ensures
        bal_of(s.update(i, e), s[i].address@) == e.lamports,
        forall|b: AddrV|
            b != s[i].address@ ==> #[trigger] bal_of(s.update(i, e), b) == bal_of(s, b),
    decreases i,
{
    if i == 0 {
        assert(s.update(0, e)[0] == e);
    } else {
        assert(s.update(i, e)[0] == s[0]);
        assert(s.update(i, e).drop_first() =~= s.drop_first().update(i - 1, e));
        lemma_bal_of_update(s.drop_first(), i - 1, e);
    }
    assert forall|b: AddrV|
        b != s[i].address@ implies #[trigger] bal_of(s.update(i, e), b) == bal_of(s, b) by {
        lemma_bal_of_update_other(s, i, e, b);
    }
}

proof fn lemma_bal_of_push_other(s: Seq<AccountEntry>, e: AccountEntry, b: AddrV)
    requires
        b != e.address@,
    ensures
        bal_of(s.push(e), b) == bal_of(s, b),
    decreases s.len(),
{
    if s.len() == 0 {
        assert(s.push(e)[0] == e);
        assert(s.push(e).drop_first() =~= Seq::<AccountEntry>::empty());
        assert(bal_of(s.push(e), b) == bal_of(s.push(e).drop_first(), b));
        assert(bal_of(s.push(e).drop_first(), b) == 0);
    } else {
        assert(s.push(e)[0] == s[0]);
        assert(s.push(e).drop_first() =~= s.drop_first().push(e));
        lemma_bal_of_push_other(s.drop_first(), e, b);
    }
}

proof fn lemma_bal_of_push(s: Seq<AccountEntry>, e: AccountEntry)
    requires
        forall|j: int| 0 <= j < s.len() ==> s[j].address@ != e.address@,
    ensures
        bal_of(s.push(e), e.address@) == e.lamports,
        forall|b: AddrV|
            b != e.address@ ==> #[trigger] bal_of(s.push(e), b) == bal_of(s, b),
    decreases s.len(),
{
    if s.len() == 0 {
        assert(s.push(e)[0] == e);
    } else {
        assert(s.push(e)[0] == s[0]);
        assert(s.push(e).drop_first() =~= s.drop_first().push(e));
        lemma_bal_of_push(s.drop_first(), e);
    }
    assert forall|b: AddrV|
        b != e.address@ implies #[trigger] bal_of(s.push(e), b) == bal_of(s, b) by {
        lemma_bal_of_push_other(s, e, b);
    }
}

/// All balances, keyed by address. Absent addresses hold zero.
pub struct Ledger {
    entries: Vec<AccountEntry>,
}

impl Ledger {
    /// The balance held at address `a`.
    pub closed spec fn bal(self, a: AddrV) -> u64 {
        bal_of(self.entries@, a)
    }

    /// An empty ledger: every address holds zero.
    pub fn new() -> (r: Ledger)
        ensures
            forall|a: AddrV| r.bal(a) == 0,
    {
        Ledger { entries: Vec::new() }
    }

    /// The index of the first entry for `address`, where there is one.
    fn find(&self, address: &Address) -> (r: Option<usize>)
        ensures
            match r {
                Some(i) => 0 <= i < self.entries@.len() && self.entries@[i as int].address@
                    == address@ && (forall|j: int|
                    0 <= j < i ==> self.entries@[j].address@ != address@),
                None => forall|j: int|
                    0 <= j < self.entries@.len() ==> self.entries@[j].address@ != address@,
            },
    {
        let n = self.entries.len();
        let mut i: usize = 0;
        while i < n
            invariant
                n == self.entries@.len(),
                0 <= i <= n,
                forall|j: int| 0 <= j < i ==> self.entries@[j].address@ != address@,
            decreases n - i,
        {
            if crate::address::address_eq(&self.entries[i].address, address) {
                return Some(i);
            }
            i = i + 1;
        }
        None
    }

    /// Reads the balance of `address`.
    pub fn balance_of(&self, address: &Address) -> (r: u64)
        ensures
            r == self.bal(address@),
    {
        match self.find(address) {
            Some(i) => {
                proof {
                    lemma_bal_of_first_match(self.entries@, i as int, address@);
                }
                self.entries[i].lamports
            },
            None => {
                proof {
                    lemma_bal_of_absent(self.entries@, address@);
                }
                0
            },
        }
    }

    /// Adds `amount` to the balance of `address`; no other balance changes.
    fn credit(&mut self, address: &Address, amount: u64)
        requires
            old(self).bal(address@) + amount <= u64::MAX,
        ensures
            final(self).bal(address@) == old(self).bal(address@) + amount,
            forall|b: AddrV|
                b != address@ ==> #[trigger] final(self).bal(b) == old(self).bal(b),
    {
        match self.find(address) {
            Some(i) => {
                proof {
                    lemma_bal_of_first_match(self.entries@, i as int, address@);
                }
                let e = self.entries.remove(i);
                let updated = AccountEntry { address: e.address, lamports: e.lamports + amount };
                self.entries.insert(i, updated);
                proof {
                    assert(self.entries@ =~= old(self).entries@.update(i as int, updated));
                    lemma_bal_of_update(old(self).entries@, i as int, updated);
                }
            },
            None => {
                proof {
                    lemma_bal_of_absent(self.entries@, address@);
                }
                let entry = AccountEntry { address: clone_address(address), lamports: amount };
                self.entries.push(entry);
                proof {
                    lemma_bal_of_push(old(self).entries@, entry);
                }
            },
        }
    }

    /// Removes `amount` from the balance of `address`; no other balance
    /// changes.
    fn debit(&mut self, address: &Address, amount: u64)
        requires
            amount <= old(self).bal(address@),
        ensures
            final(self).bal(address@) == old(self).bal(address@) - amount,
            forall|b: AddrV|
                b != address@ ==> #[trigger] final(self).bal(b) == old(self).bal(b),
    {
        match self.find(address) {
            Some(i) => {
                proof {
                    lemma_bal_of_first_match(self.entries@, i as int, address@);
                }
                let e = self.entries.remove(i);
                let updated = AccountEntry { address: e.address, lamports: e.lamports - amount };
                self.entries.insert(i, updated);
                proof {
                    assert(self.entries@ =~= old(self).entries@.update(i as int, updated));
                    lemma_bal_of_update(old(self).entries@, i as int, updated);
                }
            },
            None => {
                proof {
                    lemma_bal_of_absent(self.entries@, address@);
                }
            },
        }
    }

    /// Mints `amount` into the balance of `address`: the way value enters the
    /// ledger from outside (an airdrop). Fails, changing nothing, exactly when
    /// the credited balance would overflow.
    pub fn deposit(&mut self, address: &Address, amount: u64) -> (r: bool)
        ensures
            r == (old(self).bal(address@) + amount <= u64::MAX),
            r ==> final(self).bal(address@) == old(self).bal(address@) + amount,
            r ==> forall|b: AddrV|
                b != address@ ==> #[trigger] final(self).bal(b) == old(self).bal(b),
            !r ==> *final(self) == *old(self),
    {
        let cur = self.balance_of(address);
        if amount > u64::MAX - cur {
            return false;
        }
        self.credit(address, amount);
        true
    }

    /// Moves `amount` atomically from `from` to `to`. Succeeds exactly when
    /// `from` holds at least `amount` and the credited balance does not
    /// overflow; on failure nothing changes.
    pub fn transfer(&mut self, from: &Address, to: &Address, amount: u64) -> (r: bool)
        requires
            from@ != to@,
        ensures
            r == (old(self).bal(from@) >= amount && old(self).bal(to@) + amount <= u64::MAX),
            r ==> final(self).bal(from@) == old(self).bal(from@) - amount,
            r ==> final(self).bal(to@) == old(self).bal(to@) + amount,
            r ==> forall|b: AddrV|
                b != from@ && b != to@ ==> #[trigger] final(self).bal(b) == old(self).bal(b),
            !r ==> *final(self) == *old(self),
    {
        let from_bal = self.balance_of(from);
        if from_bal < amount {
            return false;
        }
        let to_bal = self.balance_of(to);
        if amount > u64::MAX - to_bal {
            return false;
        }
        self.debit(from, amount);
        self.credit(to, amount);
        true
    }
}

/// The base part of the storage reserve, in value units.
pub const RESERVE_BASE: u64 = 1024;

/// The per-byte part of the storage reserve, in value units.
pub const RESERVE_PER_BYTE: u64 = 8;

/// The minimum balance a record of `space` persisted bytes must retain to
/// remain allocated, saturating at the top of the counter's range.
pub open spec fn spec_reserved_minimum(space: nat) -> u64 {
    if RESERVE_BASE + space * RESERVE_PER_BYTE > u64::MAX {
        u64::MAX
    } else {
        (RESERVE_BASE + space * RESERVE_PER_BYTE) as u64
    }
}

/// Computes the storage reserve for a record of `space` persisted bytes.
pub fn reserved_minimum(space: usize) -> (r: u64)
    ensures
        r == spec_reserved_minimum(space as nat),
{
    let s = space as u64;
    match s.checked_mul(RESERVE_PER_BYTE) {
        Some(per_size) => RESERVE_BASE.saturating_add(per_size),
        None => u64::MAX,
    }
}

} // verus!
