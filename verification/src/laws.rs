//! Laws of the contribution lifecycle.
//!
//! `contribute_payment` pins each successful contribution to the record
//! transition [`after_contribution`]. These lemmas state what whole sequences
//! of successful contributions do to one record: the counter is the exact sum
//! of the applied amounts, and the completion flag flips false→true exactly
//! once, at the first contribution that lifts the counter to the target.

use vstd::prelude::*;
use crate::request::{PaymentRequest, after_contribution, contribute_ok};

verus! {

/// The exact sum of a sequence of contribution amounts.
pub open spec fn sum_amounts(amounts: Seq<u64>) -> int
    decreases amounts.len(),
{
    if amounts.len() == 0 {
        0
    } else {
        amounts[0] + sum_amounts(amounts.drop_first())
    }
}

/// Whether every contribution in `amounts`, applied in order to `r`,
/// succeeds: at each step the record is still open and the counter does not
/// overflow.
pub open spec fn all_succeed(r: PaymentRequest, amounts: Seq<u64>) -> bool
    decreases amounts.len(),
{
    amounts.len() == 0 || (contribute_ok(r, amounts[0]) && all_succeed(
        after_contribution(r, amounts[0]),
        amounts.drop_first(),
    ))
}

/// The record after the contributions in `amounts` are applied in order.
pub open spec fn apply_contributions(r: PaymentRequest, amounts: Seq<u64>) -> PaymentRequest
    decreases amounts.len(),
{
    if amounts.len() == 0 {
        r
    } else {
        apply_contributions(after_contribution(r, amounts[0]), amounts.drop_first())
    }
}

/// After any sequence of successful contributions to one record,
/// `current_amount` is exactly the starting counter plus the sum of the
/// applied amounts, and the immutable fields are untouched. Each success also
/// moves exactly its amount into the record's balance (the ledger clause of
/// `contribute_payment`), so the counter never exceeds the value actually
/// transferred in.
pub proof fn lemma_current_amount_is_exact_sum(r: PaymentRequest, amounts: Seq<u64>)
    requires
        all_succeed(r, amounts),
    ensures
        apply_contributions(r, amounts).current_amount == r.current_amount + sum_amounts(amounts),
        apply_contributions(r, amounts).creator == r.creator,
        apply_contributions(r, amounts).target_amount == r.target_amount,
        apply_contributions(r, amounts).description == r.description,
    decreases amounts.len(),
{
    if amounts.len() > 0 {
        lemma_current_amount_is_exact_sum(after_contribution(r, amounts[0]), amounts.drop_first());
    }
}

proof fn lemma_sum_take_step(amounts: Seq<u64>, k: int)
    requires
        1 <= k <= amounts.len(),
    ensures
        sum_amounts(amounts.take(k)) == amounts[0] + sum_amounts(amounts.drop_first().take(k - 1)),
{
    assert(amounts.take(k)[0] == amounts[0]);
    assert(amounts.take(k).drop_first() =~= amounts.drop_first().take(k - 1));
}

/// A prefix of a sequence of successful contributions is itself a sequence of
/// successful contributions.
pub proof fn lemma_all_succeed_take(r: PaymentRequest, amounts: Seq<u64>, k: int)
    requires
        all_succeed(r, amounts),
        0 <= k <= amounts.len(),
    ensures
        all_succeed(r, amounts.take(k)),
    decreases k,
{
    if k > 0 {
        assert(amounts.take(k)[0] == amounts[0]);
        assert(amounts.take(k).drop_first() =~= amounts.drop_first().take(k - 1));
        lemma_all_succeed_take(after_contribution(r, amounts[0]), amounts.drop_first(), k - 1);
    }
}

/// After any sequence of successful contributions, the record is completed if
/// and only if it started completed or some non-empty prefix of the amounts
/// lifts the counter to the target. The completion flag therefore transitions
/// false→true exactly once — at the first contribution whose running sum
/// reaches the target — and at no other point.
pub proof fn lemma_completed_iff_target_reached(r: PaymentRequest, amounts: Seq<u64>)
    requires
        all_succeed(r, amounts),
    ensures
        apply_contributions(r, amounts).is_completed <==> (r.is_completed || exists|k: int|
            1 <= k <= amounts.len() && r.current_amount + sum_amounts(
                #[trigger] amounts.take(k),
            ) >= r.target_amount),
    decreases amounts.len(),
{
    if amounts.len() > 0 {
        let first = amounts[0];
        let r1 = after_contribution(r, first);
        let rest = amounts.drop_first();
        lemma_completed_iff_target_reached(r1, rest);
        assert(!r.is_completed);
        assert(sum_amounts(amounts.take(1)) == first) by {
            lemma_sum_take_step(amounts, 1);
            assert(amounts.drop_first().take(0) =~= Seq::<u64>::empty());
        }
        if apply_contributions(r, amounts).is_completed {
            if r1.is_completed {
                assert(r.current_amount + sum_amounts(amounts.take(1)) >= r.target_amount);
            } else {
                let k = choose|k: int|
                    1 <= k <= rest.len() && r1.current_amount + sum_amounts(
                        #[trigger] rest.take(k),
                    ) >= r1.target_amount;
                lemma_sum_take_step(amounts, k + 1);
                assert(r.current_amount + sum_amounts(amounts.take(k + 1)) >= r.target_amount);
            }
        }
        if exists|k: int|
            1 <= k <= amounts.len() && r.current_amount + sum_amounts(#[trigger] amounts.take(k))
                >= r.target_amount {
            let k = choose|k: int|
                1 <= k <= amounts.len() && r.current_amount + sum_amounts(
                    #[trigger] amounts.take(k),
                ) >= r.target_amount;
            if k == 1 {
                assert(r1.is_completed);
            } else {
                lemma_sum_take_step(amounts, k);
                assert(r1.current_amount + sum_amounts(rest.take(k - 1)) >= r1.target_amount);
            }
            assert(apply_contributions(r, amounts).is_completed);
        }
    }
}

/// Once set, the completion flag never resets: if the record is completed
/// after the first `k` of a sequence of successful contributions, it is
/// completed after all of them.
pub proof fn lemma_completion_monotone(r: PaymentRequest, amounts: Seq<u64>, k: int)
    requires
        all_succeed(r, amounts),
        0 <= k <= amounts.len(),
    ensures
        apply_contributions(r, amounts.take(k)).is_completed ==> apply_contributions(
            r,
            amounts,
        ).is_completed,
{
    lemma_all_succeed_take(r, amounts, k);
    lemma_completed_iff_target_reached(r, amounts.take(k));
    lemma_completed_iff_target_reached(r, amounts);
    if apply_contributions(r, amounts.take(k)).is_completed && !r.is_completed {
        let j = choose|j: int|
            1 <= j <= amounts.take(k).len() && r.current_amount + sum_amounts(
                #[trigger] amounts.take(k).take(j),
            ) >= r.target_amount;
        assert(amounts.take(k).take(j) =~= amounts.take(j));
        assert(1 <= j <= amounts.len() && r.current_amount + sum_amounts(
            #[trigger] amounts.take(j),
        ) >= r.target_amount);
    }
}

} // verus!
