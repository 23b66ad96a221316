use payment_splitter::address::{address_eq, Address, Identity, RecordAddress};
use payment_splitter::error::PaymentSplitterError;
use payment_splitter::request::PaymentRequest;
use payment_splitter::splitter::{
    ClaimFunds, ContributePayment, CreatePaymentRequest, PaymentSplitter,
};

fn wallet(id: u64) -> Address {
    Address::Wallet(Identity { id })
}

fn record_address(creator: u64, description: &str) -> RecordAddress {
    RecordAddress { creator: Identity { id: creator }, description: description.to_string() }
}

/// A system with the given wallets funded.
fn funded_system(wallets: &[(u64, u64)]) -> PaymentSplitter {
    let mut ps = PaymentSplitter::new();
    for (id, amount) in wallets {
        assert!(ps.ledger.deposit(&wallet(*id), *amount));
    }
    ps
}

fn create(ps: &mut PaymentSplitter, creator: u64, target: u64, description: &str)
    -> Result<(), PaymentSplitterError>
{
    ps.create_payment_request(
        CreatePaymentRequest { creator: Identity { id: creator } },
        target,
        description.to_string(),
    )
}

fn contribute(
    ps: &mut PaymentSplitter,
    creator: u64,
    description: &str,
    contributor: u64,
    amount: u64,
    auth: Option<u64>,
) -> Result<(), PaymentSplitterError> {
    ps.contribute_payment(
        ContributePayment {
            payment_request: record_address(creator, description),
            contributor: Identity { id: contributor },
            creator: auth.map(|id| Identity { id }),
        },
        amount,
    )
}

fn claim(ps: &mut PaymentSplitter, creator: u64, description: &str, claimant: u64)
    -> Result<u64, PaymentSplitterError>
{
    ps.claim_funds(ClaimFunds {
        payment_request: record_address(creator, description),
        creator: Identity { id: claimant },
    })
}

fn request_of(ps: &PaymentSplitter, creator: u64, description: &str) -> (u64, u64, bool) {
    let addr = record_address(creator, description);
    let req = ps.get_request(&addr).expect("record should exist");
    (req.target_amount, req.current_amount, req.is_completed)
}

// The storage reserve of a record with an ASCII description of `len` bytes,
// by the library's published formula: base 1024 plus 8 per persisted byte,
// where a record takes 37 bytes beside the description.
fn reserve_for(len: u64) -> u64 {
    1024 + (37 + len) * 8
}

#[test]
fn space_and_reserve_formulas() {
    assert_eq!(PaymentRequest::space(&"".to_string()), 37);
    assert_eq!(PaymentRequest::space(&"rent".to_string()), 41);
    assert_eq!(payment_splitter::ledger::reserved_minimum(41), 1352);
    assert_eq!(payment_splitter::ledger::reserved_minimum(37), reserve_for(0));
}

#[test]
fn create_sets_fields_verbatim() {
    let mut ps = funded_system(&[(1, 10_000)]);
    assert_eq!(create(&mut ps, 1, 1000, "rent"), Ok(()));
    let addr = record_address(1, "rent");
    let req = ps.get_request(&addr).expect("record should exist");
    assert_eq!(req.creator, Identity { id: 1 });
    assert_eq!(req.target_amount, 1000);
    assert_eq!(req.current_amount, 0);
    assert_eq!(req.description, "rent".to_string());
    assert!(!req.is_completed);
    // the creator funded exactly the storage reserve
    assert_eq!(ps.ledger.balance_of(&wallet(1)), 10_000 - reserve_for(4));
    assert_eq!(ps.ledger.balance_of(&Address::Record(addr)), reserve_for(4));
}

#[test]
fn scenario_two_contributions_with_auto_settlement() {
    let mut ps = funded_system(&[(1, 10_000), (2, 10_000), (3, 10_000)]);
    assert_eq!(create(&mut ps, 1, 1000, "rent"), Ok(()));
    let creator_after_create = ps.ledger.balance_of(&wallet(1));

    assert_eq!(contribute(&mut ps, 1, "rent", 2, 600, None), Ok(()));
    assert_eq!(request_of(&ps, 1, "rent"), (1000, 600, false));
    assert_eq!(ps.ledger.balance_of(&wallet(2)), 10_000 - 600);

    // the completing contribution carries the creator's authorization:
    // the record balance above the reserve settles to the creator at once
    assert_eq!(contribute(&mut ps, 1, "rent", 3, 500, Some(1)), Ok(()));
    assert_eq!(request_of(&ps, 1, "rent"), (1000, 1100, true));
    assert_eq!(ps.ledger.balance_of(&wallet(1)), creator_after_create + 1100);
    let addr = Address::Record(record_address(1, "rent"));
    assert_eq!(ps.ledger.balance_of(&addr), reserve_for(4));
}

#[test]
fn completing_contribution_without_auth_does_not_settle() {
    let mut ps = funded_system(&[(1, 10_000), (2, 10_000)]);
    assert_eq!(create(&mut ps, 1, 100, "goal"), Ok(()));
    let creator_after_create = ps.ledger.balance_of(&wallet(1));
    assert_eq!(contribute(&mut ps, 1, "goal", 2, 100, None), Ok(()));
    assert_eq!(request_of(&ps, 1, "goal"), (100, 100, true));
    assert_eq!(ps.ledger.balance_of(&wallet(1)), creator_after_create);
    let addr = Address::Record(record_address(1, "goal"));
    assert_eq!(ps.ledger.balance_of(&addr), reserve_for(4) + 100);
}

#[test]
fn completing_contribution_with_wrong_auth_does_not_settle() {
    let mut ps = funded_system(&[(1, 10_000), (2, 10_000)]);
    assert_eq!(create(&mut ps, 1, 100, "goal"), Ok(()));
    // identity 2 co-signs, but is not the record's creator
    assert_eq!(contribute(&mut ps, 1, "goal", 2, 100, Some(2)), Ok(()));
    assert_eq!(request_of(&ps, 1, "goal"), (100, 100, true));
    let addr = Address::Record(record_address(1, "goal"));
    assert_eq!(ps.ledger.balance_of(&addr), reserve_for(4) + 100);
}

#[test]
fn claim_before_any_contribution_pays_zero() {
    let mut ps = funded_system(&[(1, 10_000)]);
    assert_eq!(create(&mut ps, 1, 100, "x"), Ok(()));
    let creator_before = ps.ledger.balance_of(&wallet(1));
    assert_eq!(claim(&mut ps, 1, "x", 1), Ok(0));
    assert_eq!(ps.ledger.balance_of(&wallet(1)), creator_before);
    assert_eq!(request_of(&ps, 1, "x"), (100, 0, false));
}

#[test]
fn duplicate_create_fails_with_already_exists() {
    let mut ps = funded_system(&[(1, 100_000), (2, 100_000)]);
    assert_eq!(create(&mut ps, 1, 1000, "rent"), Ok(()));
    let creator_after_first = ps.ledger.balance_of(&wallet(1));
    assert_eq!(
        create(&mut ps, 1, 2000, "rent"),
        Err(PaymentSplitterError::AlreadyExists)
    );
    // the failed call changed nothing
    assert_eq!(ps.ledger.balance_of(&wallet(1)), creator_after_first);
    assert_eq!(request_of(&ps, 1, "rent"), (1000, 0, false));
    // different description or different creator: distinct addresses, both live
    assert_eq!(create(&mut ps, 1, 2000, "food"), Ok(()));
    assert_eq!(create(&mut ps, 2, 3000, "rent"), Ok(()));
    assert_eq!(request_of(&ps, 1, "rent"), (1000, 0, false));
    assert_eq!(request_of(&ps, 1, "food"), (2000, 0, false));
    assert_eq!(request_of(&ps, 2, "rent"), (3000, 0, false));
}

#[test]
fn contribute_overflow_fails_and_retains_nothing() {
    let mut ps = funded_system(&[(1, 10_000), (2, 10_000)]);
    assert_eq!(create(&mut ps, 1, 10, "big"), Ok(()));
    assert_eq!(contribute(&mut ps, 1, "big", 2, 1, None), Ok(()));
    let contributor_before = ps.ledger.balance_of(&wallet(2));
    let record_before = ps.ledger.balance_of(&Address::Record(record_address(1, "big")));
    // record is completed only at 10; 1 + u64::MAX overflows the counter
    assert_eq!(
        contribute(&mut ps, 1, "big", 2, u64::MAX, None),
        Err(PaymentSplitterError::Overflow)
    );
    assert_eq!(request_of(&ps, 1, "big"), (10, 1, false));
    assert_eq!(ps.ledger.balance_of(&wallet(2)), contributor_before);
    assert_eq!(
        ps.ledger.balance_of(&Address::Record(record_address(1, "big"))),
        record_before
    );
}

#[test]
fn contribute_to_completed_record_fails() {
    let mut ps = funded_system(&[(1, 10_000), (2, 10_000), (3, 10_000)]);
    assert_eq!(create(&mut ps, 1, 5, "done"), Ok(()));
    assert_eq!(contribute(&mut ps, 1, "done", 2, 5, None), Ok(()));
    assert_eq!(request_of(&ps, 1, "done"), (5, 5, true));
    let contributor_before = ps.ledger.balance_of(&wallet(3));
    assert_eq!(
        contribute(&mut ps, 1, "done", 3, 1, None),
        Err(PaymentSplitterError::RequestCompleted)
    );
    assert_eq!(request_of(&ps, 1, "done"), (5, 5, true));
    assert_eq!(ps.ledger.balance_of(&wallet(3)), contributor_before);
}

#[test]
fn contribute_with_insufficient_balance_fails() {
    let mut ps = funded_system(&[(1, 10_000), (2, 50)]);
    assert_eq!(create(&mut ps, 1, 1000, "poor"), Ok(()));
    assert_eq!(
        contribute(&mut ps, 1, "poor", 2, 100, None),
        Err(PaymentSplitterError::TransferFailed)
    );
    assert_eq!(request_of(&ps, 1, "poor"), (1000, 0, false));
    assert_eq!(ps.ledger.balance_of(&wallet(2)), 50);
}

#[test]
fn create_without_funds_for_reserve_fails() {
    let mut ps = funded_system(&[(1, 10)]);
    assert_eq!(
        create(&mut ps, 1, 1000, "rent"),
        Err(PaymentSplitterError::TransferFailed)
    );
    assert!(ps.get_request(&record_address(1, "rent")).is_none());
    assert_eq!(ps.ledger.balance_of(&wallet(1)), 10);
}

#[test]
fn claim_by_stranger_on_open_record_fails() {
    let mut ps = funded_system(&[(1, 10_000), (2, 10_000)]);
    assert_eq!(create(&mut ps, 1, 1000, "mine"), Ok(()));
    assert_eq!(contribute(&mut ps, 1, "mine", 2, 500, None), Ok(()));
    let record_before = ps.ledger.balance_of(&Address::Record(record_address(1, "mine")));
    assert_eq!(claim(&mut ps, 1, "mine", 9), Err(PaymentSplitterError::NotAuthorized));
    assert_eq!(
        ps.ledger.balance_of(&Address::Record(record_address(1, "mine"))),
        record_before
    );
    assert_eq!(request_of(&ps, 1, "mine"), (1000, 500, false));
}

#[test]
fn creator_may_withdraw_early() {
    let mut ps = funded_system(&[(1, 10_000), (2, 10_000)]);
    assert_eq!(create(&mut ps, 1, 1000, "early"), Ok(()));
    assert_eq!(contribute(&mut ps, 1, "early", 2, 400, None), Ok(()));
    let creator_before = ps.ledger.balance_of(&wallet(1));
    assert_eq!(claim(&mut ps, 1, "early", 1), Ok(400));
    assert_eq!(ps.ledger.balance_of(&wallet(1)), creator_before + 400);
    // the record stays live at its reserve, its counter and flag untouched
    assert_eq!(
        ps.ledger.balance_of(&Address::Record(record_address(1, "early"))),
        reserve_for(5)
    );
    assert_eq!(request_of(&ps, 1, "early"), (1000, 400, false));
    // drained to the reserve, a second claim pays exactly zero
    assert_eq!(claim(&mut ps, 1, "early", 1), Ok(0));
}

#[test]
fn claim_on_completed_record_pays_the_claimant() {
    let mut ps = funded_system(&[(1, 10_000), (2, 10_000), (3, 10_000)]);
    assert_eq!(create(&mut ps, 1, 300, "pool"), Ok(()));
    assert_eq!(contribute(&mut ps, 1, "pool", 2, 300, None), Ok(()));
    let claimant_before = ps.ledger.balance_of(&wallet(3));
    assert_eq!(claim(&mut ps, 1, "pool", 3), Ok(300));
    assert_eq!(ps.ledger.balance_of(&wallet(3)), claimant_before + 300);
}

#[test]
fn creator_contributing_with_own_auth_settles_back() {
    let mut ps = funded_system(&[(1, 10_000)]);
    assert_eq!(create(&mut ps, 1, 200, "self"), Ok(()));
    let creator_before = ps.ledger.balance_of(&wallet(1));
    assert_eq!(contribute(&mut ps, 1, "self", 1, 200, Some(1)), Ok(()));
    // the creator paid 200 in and the settlement paid 200 back
    assert_eq!(ps.ledger.balance_of(&wallet(1)), creator_before);
    assert_eq!(request_of(&ps, 1, "self"), (200, 200, true));
}

#[test]
fn zero_target_completes_on_first_contribution() {
    let mut ps = funded_system(&[(1, 10_000), (2, 10_000)]);
    assert_eq!(create(&mut ps, 1, 0, "zero"), Ok(()));
    // a target of zero is not completed at creation...
    assert_eq!(request_of(&ps, 1, "zero"), (0, 0, false));
    // ...but any contribution, a zero-value one included, completes it
    assert_eq!(contribute(&mut ps, 1, "zero", 2, 0, None), Ok(()));
    assert_eq!(request_of(&ps, 1, "zero"), (0, 0, true));
}

#[test]
fn contributions_sum_exactly() {
    let mut ps = funded_system(&[(1, 100_000), (2, 100_000), (3, 100_000)]);
    assert_eq!(create(&mut ps, 1, 1_000_000, "sum"), Ok(()));
    let amounts: [u64; 6] = [1, 20, 300, 4_000, 50_000, 7];
    let mut total: u64 = 0;
    for (k, amount) in amounts.iter().enumerate() {
        let contributor = if k % 2 == 0 { 2 } else { 3 };
        assert_eq!(contribute(&mut ps, 1, "sum", contributor, *amount, None), Ok(()));
        total += amount;
        let (_, current, completed) = request_of(&ps, 1, "sum");
        assert_eq!(current, total);
        assert!(!completed);
        // the counter never exceeds what was transferred into the record
        let record_balance =
            ps.ledger.balance_of(&Address::Record(record_address(1, "sum")));
        assert_eq!(record_balance, reserve_for(3) + total);
    }
}

#[test]
fn ledger_transfer_moves_exact_amounts() {
    let mut ps = funded_system(&[(7, 500), (8, 100)]);
    assert!(ps.ledger.transfer(&wallet(7), &wallet(8), 200));
    assert_eq!(ps.ledger.balance_of(&wallet(7)), 300);
    assert_eq!(ps.ledger.balance_of(&wallet(8)), 300);
    // insufficient funds: nothing moves
    assert!(!ps.ledger.transfer(&wallet(8), &wallet(7), 301));
    assert_eq!(ps.ledger.balance_of(&wallet(7)), 300);
    assert_eq!(ps.ledger.balance_of(&wallet(8)), 300);
    // an address never deposited to holds zero
    assert_eq!(ps.ledger.balance_of(&wallet(9)), 0);
    // a credit that would overflow the receiving balance fails
    assert!(ps.ledger.deposit(&wallet(9), u64::MAX));
    assert!(!ps.ledger.transfer(&wallet(7), &wallet(9), 1));
    assert_eq!(ps.ledger.balance_of(&wallet(9)), u64::MAX);
}

#[test]
fn addresses_compare_by_their_key() {
    assert!(address_eq(&wallet(1), &wallet(1)));
    assert!(!address_eq(&wallet(1), &wallet(2)));
    assert!(!address_eq(&wallet(1), &Address::Record(record_address(1, ""))));
    assert!(address_eq(
        &Address::Record(record_address(1, "a")),
        &Address::Record(record_address(1, "a")),
    ));
    assert!(!address_eq(
        &Address::Record(record_address(1, "a")),
        &Address::Record(record_address(1, "b")),
    ));
    assert!(!address_eq(
        &Address::Record(record_address(1, "a")),
        &Address::Record(record_address(2, "a")),
    ));
}

#[test]
fn completion_flips_exactly_once_at_first_threshold() {
    let mut ps = funded_system(&[(1, 10_000), (2, 10_000)]);
    assert_eq!(create(&mut ps, 1, 100, "once"), Ok(()));
    let mut transitions = 0;
    let mut last_completed = false;
    for amount in [50u64, 49, 1] {
        assert_eq!(contribute(&mut ps, 1, "once", 2, amount, None), Ok(()));
        let (_, current, completed) = request_of(&ps, 1, "once");
        if completed != last_completed {
            transitions += 1;
            // the flag flips at the first contribution reaching the target
            assert_eq!(current, 100);
        }
        last_completed = completed;
    }
    assert_eq!(transitions, 1);
    assert!(last_completed);
    // completed, the record admits no further contribution: the flag is invariant
    assert_eq!(
        contribute(&mut ps, 1, "once", 2, 1, None),
        Err(PaymentSplitterError::RequestCompleted)
    );
    assert_eq!(request_of(&ps, 1, "once"), (100, 100, true));
}
