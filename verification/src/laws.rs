//! What holds of the analytics as a whole.

use vstd::prelude::*;
use crate::calendar::CalendarMonth;
use crate::dataframe::{dated_entries, folded_ids};
use crate::debts::{
    debts_of,
    debts_upto,
    direction_of,
    folded_at,
    is_debt_tagged,
    ledger_ids,
    posted,
    selected,
    settled,
    DebtEntry,
};
use crate::monthly::{
    first_month,
    last_month,
    lemma_dated_month_is_observed,
    lemma_earliest_is_least,
    lemma_latest_is_greatest,
    lemma_observed_month_is_dated,
    monthly_series,
    observed_months,
    DatedAmount,
};
use crate::record::Record;
use crate::summary::{sum_of, summary_of};
use crate::text::{first_position, lemma_empty_text_occurs_everywhere, lemma_first_position};

verus! {

/// Some entry has a readable date.
pub open spec fn any_dated(entries: Seq<DatedAmount>) -> bool {
    exists|i: int| 0 <= i < entries.len() && (#[trigger] entries[i]).month is Some
}

/// A month is observed exactly where some entry is dated.
pub proof fn lemma_observed_iff_dated(entries: Seq<DatedAmount>)
    ensures
        observed_months(entries).len() > 0 <==> any_dated(entries),
{
    if observed_months(entries).len() > 0 {
        let m = observed_months(entries)[0];
        lemma_observed_month_is_dated(entries, m);
        let i = choose|i: int| 0 <= i < entries.len() && (#[trigger] entries[i]).month == Some(m);
        assert(entries[i].month is Some);
    }
    if any_dated(entries) {
        let i = choose|i: int| 0 <= i < entries.len() && (#[trigger] entries[i]).month is Some;
        lemma_dated_month_is_observed(entries, i);
    }
}

/// Where some entry is dated, the range starts at the earliest month of a
/// dated entry and ends at the latest: both are months of entries, and the
/// month of every dated entry lies between them.
pub proof fn lemma_range_is_the_span_of_the_dates(entries: Seq<DatedAmount>, today: CalendarMonth)
    requires
        any_dated(entries),
    ensures
        exists|i: int|
            0 <= i < entries.len() && (#[trigger] entries[i]).month == Some(first_month(entries)),
        exists|i: int|
            0 <= i < entries.len() && (#[trigger] entries[i]).month == Some(
                last_month(entries, today),
            ),
        forall|i: int|
            0 <= i < entries.len() && (#[trigger] entries[i]).month is Some ==> first_month(
                entries,
            ).index() <= entries[i].month->0.index() <= last_month(entries, today).index(),
{
    lemma_observed_iff_dated(entries);
    let all = observed_months(entries);
    lemma_earliest_is_least(all);
    lemma_latest_is_greatest(all);
    lemma_observed_month_is_dated(entries, first_month(entries));
    lemma_observed_month_is_dated(entries, last_month(entries, today));
    assert forall|i: int|
        0 <= i < entries.len() && (#[trigger] entries[i]).month is Some implies first_month(
        entries,
    ).index() <= entries[i].month->0.index() <= last_month(entries, today).index() by {
        lemma_dated_month_is_observed(entries, i);
        let m = entries[i].month->0;
        let k = choose|k: int| 0 <= k < all.len() && all[k] == m;
        assert(all[k].index() == m.index());
    }
}

/// Where some entry is dated, the monthly flow does not depend on the
/// current month.
pub proof fn lemma_dated_flow_ignores_today(
    entries: Seq<DatedAmount>,
    today: CalendarMonth,
    another_day: CalendarMonth,
)
    requires
        any_dated(entries),
    ensures
        monthly_series(entries, today) == monthly_series(entries, another_day),
{
    lemma_observed_iff_dated(entries);
    lemma_latest_is_greatest(observed_months(entries));
}

/// The analytics are functions of the record set and of what they are asked:
/// run again on the same record set, with the same search text and the same
/// current month, they give the same results.
pub proof fn lemma_analytics_repeat(
    records: Seq<Record>,
    again: Seq<Record>,
    search: Seq<char>,
    today: CalendarMonth,
)
    requires
        again == records,
    ensures
        summary_of(again) == summary_of(records),
        monthly_series(dated_entries(again), today) == monthly_series(
            dated_entries(records),
            today,
        ),
        debts_of(again, folded_ids(again), search) == debts_of(
            records,
            folded_ids(records),
            search,
        ),
{
}

/// Under the empty search text, a record enters the ledger exactly if it is
/// a debt record and names a counterparty.
pub proof fn lemma_empty_search_selects_every_counterparty(
    r: Record,
    folded_id: Option<Seq<char>>,
)
    ensures
        selected(r, folded_id, Seq::empty()) <==> is_debt_tagged(r.tags) && r.id is Some
            && folded_id is Some,
{
    if folded_id is Some {
        lemma_empty_text_occurs_everywhere(folded_id->0);
    }
}

/// The record enters the ledger under the name `id`.
pub open spec fn enters_as(
    r: Record,
    folded_id: Option<Seq<char>>,
    needle: Seq<char>,
    id: Seq<char>,
) -> bool {
    selected(r, folded_id, needle) && r.id == Some(id)
}

/// Where the first of the first `n` records stands that enters the ledger
/// under the name `id`, or `n` if none does.
pub open spec fn first_record_of(
    records: Seq<Record>,
    folded_ids: Seq<Option<Seq<char>>>,
    needle: Seq<char>,
    id: Seq<char>,
    n: nat,
) -> int {
    first_position(Seq::new(n, |i: int| enters_as(records[i], folded_at(folded_ids, i), needle, id)), true)
}

/// What a record adds to the balance of counterparty `id`: its amount if
/// it enters the ledger under that name, else nothing.
pub open spec fn share_of(
    r: Record,
    folded_id: Option<Seq<char>>,
    needle: Seq<char>,
    id: Seq<char>,
) -> int {
    if enters_as(r, folded_id, needle, id) {
        r.amount
    } else {
        0
    }
}

/// The sum of the amounts of the first `n` records that enter the ledger
/// under the name `id`.
pub open spec fn balance_of(
    records: Seq<Record>,
    folded_ids: Seq<Option<Seq<char>>>,
    needle: Seq<char>,
    id: Seq<char>,
    n: nat,
) -> int {
    sum_of(Seq::new(n, |i: int| share_of(records[i], folded_at(folded_ids, i), needle, id)))
}

/// No counterparty has two entries.
pub open spec fn ids_distinct(ledger: Seq<DebtEntry>) -> bool {
    forall|j: int, k: int|
        0 <= j < k < ledger.len() ==> (#[trigger] ledger[j]).id != (#[trigger] ledger[k]).id
}

/// Some entry of the ledger is for counterparty `id`.
pub open spec fn has_entry(ledger: Seq<DebtEntry>, id: Seq<char>) -> bool {
    exists|k: int| 0 <= k < ledger.len() && (#[trigger] ledger[k]).id == id
}

/// One more record adds its share to the sum.
proof fn lemma_balance_step(
    records: Seq<Record>,
    folded_ids: Seq<Option<Seq<char>>>,
    needle: Seq<char>,
    id: Seq<char>,
    n: nat,
)
    requires
        n > 0,
    ensures
        balance_of(records, folded_ids, needle, id, n) == balance_of(
            records,
            folded_ids,
            needle,
            id,
            (n - 1) as nat,
        ) + share_of(records[n - 1], folded_at(folded_ids, n - 1), needle, id),
{
    let now = Seq::new(n, |i: int| share_of(records[i], folded_at(folded_ids, i), needle, id));
    let before = Seq::new((n - 1) as nat, |i: int| share_of(records[i], folded_at(folded_ids, i), needle, id));
    assert(now.drop_last() =~= before);
}

/// The ledger has one entry for each counterparty, and the entry holds that
/// counterparty's account: its balance is the sum of the amounts of the
/// records that enter under its name, it is paid exactly if that balance is
/// settled in its direction, and a name without an entry has no such record.
pub proof fn lemma_ledger_accounts(
    records: Seq<Record>,
    folded_ids: Seq<Option<Seq<char>>>,
    needle: Seq<char>,
    n: nat,
)
    ensures
        ids_distinct(debts_upto(records, folded_ids, needle, n)),
        forall|k: int|
            0 <= k < debts_upto(records, folded_ids, needle, n).len() ==> {
                let entry = #[trigger] debts_upto(records, folded_ids, needle, n)[k];
                &&& entry.balance == balance_of(records, folded_ids, needle, entry.id, n)
                &&& entry.paid == settled(entry.direction, entry.balance)
                &&& entry.related_rows.len() > 0
            },
        forall|id: Seq<char>|
            !has_entry(debts_upto(records, folded_ids, needle, n), id) ==> #[trigger] balance_of(
                records,
                folded_ids,
                needle,
                id,
                n,
            ) == 0,
    decreases n,
{
    let ledger = debts_upto(records, folded_ids, needle, n);
    if n == 0 {
        assert forall|id: Seq<char>| #[trigger]
            balance_of(records, folded_ids, needle, id, n) == 0 by {
            assert(Seq::new(0nat, |i: int| share_of(records[i], folded_at(folded_ids, i), needle, id)).len()
                == 0);
        }
    } else {
        let m = (n - 1) as nat;
        let before = debts_upto(records, folded_ids, needle, m);
        let r = records[n - 1];
        let f = folded_at(folded_ids, n - 1);
        lemma_ledger_accounts(records, folded_ids, needle, m);
        assert forall|id: Seq<char>| #[trigger]
            balance_of(records, folded_ids, needle, id, n) == balance_of(
                records,
                folded_ids,
                needle,
                id,
                m,
            ) + share_of(r, f, needle, id) by {
            lemma_balance_step(records, folded_ids, needle, id, n);
        }
        if selected(r, f, needle) {
            let id0 = r.id->0;
            let ids = ledger_ids(before);
            let at = first_position(ids, id0);
            lemma_first_position(ids, id0);
            assert(ledger == posted(before, r));
            if at < before.len() {
                assert(ids[at] == before[at].id);
                assert(ledger.len() == before.len());
                assert forall|k: int| 0 <= k < ledger.len() implies (#[trigger] ledger[k]).id
                    == before[k].id by {}
                assert forall|k: int| 0 <= k < ledger.len() implies {
                    let entry = #[trigger] ledger[k];
                    &&& entry.balance == balance_of(records, folded_ids, needle, entry.id, n)
                    &&& entry.paid == settled(entry.direction, entry.balance)
                    &&& entry.related_rows.len() > 0
                } by {
                    let was = before[k];
                    assert(was.balance == balance_of(records, folded_ids, needle, was.id, m));
                    if k != at {
                        assert(ledger[k] == was);
                        if k < at {
                            assert(before[k].id != before[at].id);
                        } else {
                            assert(before[at].id != before[k].id);
                        }
                    }
                }
                assert forall|id: Seq<char>| !has_entry(ledger, id) implies #[trigger] balance_of(
                    records,
                    folded_ids,
                    needle,
                    id,
                    n,
                ) == 0 by {
                    assert(ledger[at].id == id0);
                    if has_entry(before, id) {
                        let k = choose|k: int| 0 <= k < before.len() && (#[trigger] before[k]).id
                            == id;
                        assert(ledger[k].id == id);
                    }
                }
            } else {
                assert(ledger.len() == before.len() + 1);
                assert forall|k: int| 0 <= k < before.len() implies (#[trigger] before[k]).id
                    != id0 by {
                    assert(ids[k] == before[k].id);
                }
                assert forall|k: int| 0 <= k < before.len() implies #[trigger] ledger[k]
                    == before[k] by {}
                assert(ledger[before.len() as int].id == id0);
                assert(!has_entry(before, id0));
                assert forall|j: int, k: int| 0 <= j < k < ledger.len() implies (
                #[trigger] ledger[j]).id != (#[trigger] ledger[k]).id by {
                    if k < before.len() {
                        assert(before[j].id != before[k].id);
                    }
                }
                assert forall|k: int| 0 <= k < ledger.len() implies {
                    let entry = #[trigger] ledger[k];
                    &&& entry.balance == balance_of(records, folded_ids, needle, entry.id, n)
                    &&& entry.paid == settled(entry.direction, entry.balance)
                    &&& entry.related_rows.len() > 0
                } by {
                    if k < before.len() {
                        let was = before[k];
                        assert(was.balance == balance_of(records, folded_ids, needle, was.id, m));
                    } else {
                        assert(balance_of(records, folded_ids, needle, id0, m) == 0);
                    }
                }
                assert forall|id: Seq<char>| !has_entry(ledger, id) implies #[trigger] balance_of(
                    records,
                    folded_ids,
                    needle,
                    id,
                    n,
                ) == 0 by {
                    if has_entry(before, id) {
                        let k = choose|k: int| 0 <= k < before.len() && (#[trigger] before[k]).id
                            == id;
                        assert(ledger[k].id == id);
                    }
                    assert(ledger[before.len() as int].id == id0);
                }
            }
        } else {
            assert(ledger == before);
        }
    }
}

/// One more record leaves the first record of a name where it was, unless
/// there was none: then it is the first if it enters under that name.
proof fn lemma_first_record_step(
    records: Seq<Record>,
    folded_ids: Seq<Option<Seq<char>>>,
    needle: Seq<char>,
    id: Seq<char>,
    n: nat,
)
    requires
        n > 0,
    ensures
        0 <= first_record_of(records, folded_ids, needle, id, (n - 1) as nat) <= n - 1,
        first_record_of(records, folded_ids, needle, id, n) == if first_record_of(
            records,
            folded_ids,
            needle,
            id,
            (n - 1) as nat,
        ) < n - 1 || enters_as(records[n - 1], folded_at(folded_ids, n - 1), needle, id) {
            first_record_of(records, folded_ids, needle, id, (n - 1) as nat)
        } else {
            n as int
        },
{
    let now = Seq::new(n, |i: int| enters_as(records[i], folded_at(folded_ids, i), needle, id));
    let before = Seq::new((n - 1) as nat, |i: int| enters_as(records[i], folded_at(folded_ids, i), needle, id));
    lemma_first_position(now, true);
    lemma_first_position(before, true);
    let a = first_position(before, true);
    let b = first_position(now, true);
    assert(now[n - 1] == enters_as(records[n - 1], folded_at(folded_ids, n - 1), needle, id));
    if a < n - 1 {
        assert(before[a] == now[a]);
        if b < a {
            assert(now[b] == before[b]);
        }
    } else {
        if b < n - 1 {
            assert(now[b] == before[b]);
        }
    }
}

/// Each counterparty keeps the direction of its first record: an entry has
/// the direction that the tags of the first record under its name give, and
/// a name without an entry has no record.
pub proof fn lemma_ledger_directions(
    records: Seq<Record>,
    folded_ids: Seq<Option<Seq<char>>>,
    needle: Seq<char>,
    n: nat,
)
    ensures
        forall|k: int|
            0 <= k < debts_upto(records, folded_ids, needle, n).len() ==> {
                let entry = #[trigger] debts_upto(records, folded_ids, needle, n)[k];
                let first = first_record_of(records, folded_ids, needle, entry.id, n);
                &&& 0 <= first < n
                &&& enters_as(records[first], folded_at(folded_ids, first), needle, entry.id)
                &&& entry.direction == direction_of(records[first].tags)
            },
        forall|id: Seq<char>|
            !has_entry(debts_upto(records, folded_ids, needle, n), id)
                ==> #[trigger] first_record_of(records, folded_ids, needle, id, n) == n,
    decreases n,
{
    let ledger = debts_upto(records, folded_ids, needle, n);
    if n == 0 {
    } else {
        let m = (n - 1) as nat;
        let before = debts_upto(records, folded_ids, needle, m);
        let r = records[n - 1];
        let f = folded_at(folded_ids, n - 1);
        lemma_ledger_directions(records, folded_ids, needle, m);
        if selected(r, f, needle) {
            let id0 = r.id->0;
            let ids = ledger_ids(before);
            let at = first_position(ids, id0);
            lemma_first_position(ids, id0);
            assert(ledger == posted(before, r));
            if at < before.len() {
                assert(ids[at] == before[at].id);
                assert forall|k: int| 0 <= k < ledger.len() implies {
                    let entry = #[trigger] ledger[k];
                    let first = first_record_of(records, folded_ids, needle, entry.id, n);
                    &&& 0 <= first < n
                    &&& enters_as(records[first], folded_at(folded_ids, first), needle, entry.id)
                    &&& entry.direction == direction_of(records[first].tags)
                } by {
                    let was = before[k];
                    assert(ledger[k].id == was.id && ledger[k].direction == was.direction);
                    lemma_first_record_step(records, folded_ids, needle, was.id, n);
                    assert(first_record_of(records, folded_ids, needle, was.id, m) < m);
                }
                assert forall|id: Seq<char>| !has_entry(ledger, id) implies #[trigger]
                    first_record_of(records, folded_ids, needle, id, n) == n by {
                    lemma_first_record_step(records, folded_ids, needle, id, n);
                    assert(ledger[at].id == id0);
                    if has_entry(before, id) {
                        let k = choose|k: int| 0 <= k < before.len() && (#[trigger] before[k]).id
                            == id;
                        assert(ledger[k].id == id);
                    }
                }
            } else {
                assert forall|k: int| 0 <= k < before.len() implies (#[trigger] before[k]).id
                    != id0 by {
                    assert(ids[k] == before[k].id);
                }
                assert(!has_entry(before, id0));
                assert(first_record_of(records, folded_ids, needle, id0, m) == m);
                lemma_first_record_step(records, folded_ids, needle, id0, n);
                assert forall|k: int| 0 <= k < ledger.len() implies {
                    let entry = #[trigger] ledger[k];
                    let first = first_record_of(records, folded_ids, needle, entry.id, n);
                    &&& 0 <= first < n
                    &&& enters_as(records[first], folded_at(folded_ids, first), needle, entry.id)
                    &&& entry.direction == direction_of(records[first].tags)
                } by {
                    if k < before.len() {
                        let was = before[k];
                        assert(ledger[k] == was);
                        lemma_first_record_step(records, folded_ids, needle, was.id, n);
                        assert(first_record_of(records, folded_ids, needle, was.id, m) < m);
                    } else {
                        assert(ledger[k].id == id0);
                    }
                }
                assert forall|id: Seq<char>| !has_entry(ledger, id) implies #[trigger]
                    first_record_of(records, folded_ids, needle, id, n) == n by {
                    lemma_first_record_step(records, folded_ids, needle, id, n);
                    if has_entry(before, id) {
                        let k = choose|k: int| 0 <= k < before.len() && (#[trigger] before[k]).id
                            == id;
                        assert(ledger[k].id == id);
                    }
                    assert(ledger[before.len() as int].id == id0);
                }
            }
        } else {
            assert(ledger == before);
            assert forall|k: int| 0 <= k < ledger.len() implies {
                let entry = #[trigger] ledger[k];
                let first = first_record_of(records, folded_ids, needle, entry.id, n);
                &&& 0 <= first < n
                &&& enters_as(records[first], folded_at(folded_ids, first), needle, entry.id)
                &&& entry.direction == direction_of(records[first].tags)
            } by {
                lemma_first_record_step(records, folded_ids, needle, ledger[k].id, n);
            }
            assert forall|id: Seq<char>| !has_entry(ledger, id) implies #[trigger]
                first_record_of(records, folded_ids, needle, id, n) == n by {
                lemma_first_record_step(records, folded_ids, needle, id, n);
            }
        }
    }
}

} // verus!
