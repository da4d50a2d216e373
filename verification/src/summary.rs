//! Totals over the whole record set: earned, spent, net, and the share of
//! earnings that was kept.

use vstd::prelude::*;
use crate::record::{Record, Transaction};

verus! {

/// A ratio of two whole amounts, kept exact. The denominator is positive.
#[derive(Clone, Copy, Debug, PartialEq, Eq, Structural)]
pub struct Ratio {
    pub numerator: i128,
    pub denominator: i128,
}

/// The totals of a record set, in centavos.
#[derive(Clone, Copy, Debug, PartialEq, Eq, Structural)]
pub struct GetTotalEarnedVsSpent {
    /// The sum of the positive amounts.
    pub total_earned: i128,
    /// The sum of the amounts that are zero or negative.
    pub total_spent: i128,
    /// Earned plus spent.
    pub net_income: i128,
    /// Net income over total earned; undefined where nothing was earned.
    pub lifetime_savings_decimal: Option<Ratio>,
}

/// The part of an amount that is an inflow: the amount if positive, else
/// nothing.
pub open spec fn inflow_part(amount: int) -> int {
    if amount > 0 {
        amount
    } else {
        0
    }
}

/// The part of an amount that is an outflow: the amount if zero or
/// negative, else nothing.
pub open spec fn outflow_part(amount: int) -> int {
    if amount > 0 {
        0
    } else {
        amount
    }
}

/// The sum of a sequence of integers.
pub open spec fn sum_of(values: Seq<int>) -> int
    decreases values.len(),
{
    if values.len() == 0 {
        0
    } else {
        sum_of(values.drop_last()) + values.last()
    }
}

/// The sum of the positive amounts of the records.
pub open spec fn total_earned(records: Seq<Record>) -> int {
    sum_of(records.map_values(|r: Record| inflow_part(r.amount)))
}

/// The sum of the amounts of the records that are zero or negative.
pub open spec fn total_spent(records: Seq<Record>) -> int {
    sum_of(records.map_values(|r: Record| outflow_part(r.amount)))
}

/// The totals of a record set.
pub open spec fn summary_of(records: Seq<Record>) -> GetTotalEarnedVsSpent {
    let earned = total_earned(records);
    let spent = total_spent(records);
    GetTotalEarnedVsSpent {
        total_earned: earned as i128,
        total_spent: spent as i128,
        net_income: (earned + spent) as i128,
        lifetime_savings_decimal: if earned == 0 {
            None
        } else {
            Some(Ratio { numerator: (earned + spent) as i128, denominator: earned as i128 })
        },
    }
}

/// What is earned is never negative and what is spent never positive; the
/// net income of the summary is their sum.
pub proof fn lemma_summary_signs(records: Seq<Record>)
    ensures
        total_earned(records) >= 0,
        total_spent(records) <= 0,
        total_earned(records) <= i128::MAX && total_spent(records) >= i128::MIN ==> summary_of(
            records,
        ).net_income == summary_of(records).total_earned + summary_of(records).total_spent,
{
    let ins = records.map_values(|r: Record| inflow_part(r.amount));
    let outs = records.map_values(|r: Record| outflow_part(r.amount));
    assert forall|i: int| 0 <= i < ins.len() implies 0 <= #[trigger] ins[i] by {}
    assert forall|i: int| 0 <= i < outs.len() implies #[trigger] outs[i] <= 0 by {}
    lemma_sum_nonnegative(ins);
    lemma_sum_nonpositive(outs);
}

/// A sum of terms that are not negative is not negative.
pub proof fn lemma_sum_nonnegative(values: Seq<int>)
    requires
        forall|i: int| 0 <= i < values.len() ==> 0 <= #[trigger] values[i],
    ensures
        0 <= sum_of(values),
    decreases values.len(),
{
    if values.len() > 0 {
        let before = values.drop_last();
        assert forall|i: int| 0 <= i < before.len() implies 0 <= #[trigger] before[i] by {
            assert(before[i] == values[i]);
        }
        lemma_sum_nonnegative(before);
    }
}

/// A sum of terms that are not positive is not positive.
pub proof fn lemma_sum_nonpositive(values: Seq<int>)
    requires
        forall|i: int| 0 <= i < values.len() ==> #[trigger] values[i] <= 0,
    ensures
        sum_of(values) <= 0,
    decreases values.len(),
{
    if values.len() > 0 {
        let before = values.drop_last();
        assert forall|i: int| 0 <= i < before.len() implies #[trigger] before[i] <= 0 by {
            assert(before[i] == values[i]);
        }
        lemma_sum_nonpositive(before);
    }
}

/// The totals of a record set: one pass, no record left out.
pub fn summarize(records: &Vec<Transaction>) -> (summary: GetTotalEarnedVsSpent)
    ensures
        summary == summary_of(records.deep_view()),
        summary.total_earned == total_earned(records.deep_view()),
        summary.total_spent == total_spent(records.deep_view()),
        summary.total_earned >= 0,
        summary.total_spent <= 0,
        summary.net_income == summary.total_earned + summary.total_spent,
        summary.lifetime_savings_decimal is None <==> summary.total_earned == 0,
{
    let ghost all = records.deep_view();
    let ghost ins = all.map_values(|r: Record| inflow_part(r.amount));
    let ghost outs = all.map_values(|r: Record| outflow_part(r.amount));
    let mut earned: i128 = 0;
    let mut spent: i128 = 0;
    let mut i: usize = 0;
    assert(ins.take(0) =~= Seq::<int>::empty());
    assert(outs.take(0) =~= Seq::<int>::empty());
    while i < records.len()
        invariant
            i <= records.len(),
            all == records.deep_view(),
            ins == all.map_values(|r: Record| inflow_part(r.amount)),
            outs == all.map_values(|r: Record| outflow_part(r.amount)),
            earned == sum_of(ins.take(i as int)),
            spent == sum_of(outs.take(i as int)),
            0 <= earned <= i * 0x7FFF_FFFF_FFFF_FFFF,
            0 >= spent >= i * (-0x8000_0000_0000_0000),
        decreases records.len() - i,
    {
        let amount: i64 = records[i].amount;
        proof {
            assert(all[i as int] == records@[i as int]@);
            assert(ins.take(i + 1).drop_last() =~= ins.take(i as int));
            assert(outs.take(i + 1).drop_last() =~= outs.take(i as int));
            assert(ins.take(i + 1).last() == inflow_part(amount as int));
            assert(outs.take(i + 1).last() == outflow_part(amount as int));
        }
        if amount > 0 {
            earned = earned + amount as i128;
        } else {
            spent = spent + amount as i128;
        }
        i = i + 1;
    }
    proof {
        assert(ins.take(records.len() as int) =~= ins);
        assert(outs.take(records.len() as int) =~= outs);
    }
    let net: i128 = earned + spent;
    let ratio = if earned == 0 {
        None
    } else {
        Some(Ratio { numerator: net, denominator: earned })
    };
    GetTotalEarnedVsSpent {
        total_earned: earned,
        total_spent: spent,
        net_income: net,
        lifetime_savings_decimal: ratio,
    }
}

} // verus!
