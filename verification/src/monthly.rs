//! Inflow and outflow by calendar month, over a range of months without
//! gaps.
//!
//! The range runs from the earliest to the latest month in which a
//! transaction has a readable date. Where no transaction has one, it runs
//! from the epoch month to the current month. A month of the range without
//! transactions has zero inflow and zero outflow.

use vstd::prelude::*;
use crate::calendar::{
    lemma_month_at_index,
    month_keys,
    month_range,
    months_between,
    CalendarMonth,
};
use crate::summary::{inflow_part, outflow_part, sum_of};

verus! {

/// A signed amount in centavos and the month of its date, if the date
/// could be read.
#[derive(Clone, Copy, Debug, PartialEq, Eq, Structural)]
pub struct DatedAmount {
    pub month: Option<CalendarMonth>,
    pub amount: i64,
}

/// The model of a monthly flow: the months in ascending order, and the
/// inflow and outflow in centavos of each, position by position.
pub struct MonthlySeries {
    pub months: Seq<CalendarMonth>,
    pub inflows: Seq<int>,
    pub outflows: Seq<int>,
}

/// Inflow and outflow by month.
#[derive(Debug)]
pub struct GetInflowsVsOutflows {
    inflows: Vec<i128>,
    outflows: Vec<i128>,
    months: Vec<CalendarMonth>,
}

/// January 1970, where the range starts if no date can be read.
pub open spec fn epoch_month() -> CalendarMonth {
    CalendarMonth { year: 1970, month: 1 }
}

/// The earlier of two months.
pub open spec fn earlier(a: CalendarMonth, b: CalendarMonth) -> CalendarMonth {
    if b.index() < a.index() {
        b
    } else {
        a
    }
}

/// The later of two months.
pub open spec fn later(a: CalendarMonth, b: CalendarMonth) -> CalendarMonth {
    if b.index() > a.index() {
        b
    } else {
        a
    }
}

/// The earliest of `start`, if any, and `months`.
pub open spec fn earliest_from(start: Option<CalendarMonth>, months: Seq<CalendarMonth>) -> Option<
    CalendarMonth,
>
    decreases months.len(),
{
    if months.len() == 0 {
        start
    } else {
        match earliest_from(start, months.drop_last()) {
            None => Some(months.last()),
            Some(m) => Some(earlier(m, months.last())),
        }
    }
}

/// The latest of `start`, if any, and `months`.
pub open spec fn latest_from(start: Option<CalendarMonth>, months: Seq<CalendarMonth>) -> Option<
    CalendarMonth,
>
    decreases months.len(),
{
    if months.len() == 0 {
        start
    } else {
        match latest_from(start, months.drop_last()) {
            None => Some(months.last()),
            Some(m) => Some(later(m, months.last())),
        }
    }
}

/// The earliest of `months`, if there is any.
pub open spec fn earliest_of(months: Seq<CalendarMonth>) -> Option<CalendarMonth> {
    earliest_from(None, months)
}

/// The latest of `months`, if there is any.
pub open spec fn latest_of(months: Seq<CalendarMonth>) -> Option<CalendarMonth> {
    latest_from(None, months)
}

/// The entry has a readable date and is an inflow.
pub open spec fn dated_inflow(e: DatedAmount) -> bool {
    e.month is Some && e.amount > 0
}

/// The entry has a readable date and is an outflow.
pub open spec fn dated_outflow(e: DatedAmount) -> bool {
    e.month is Some && e.amount <= 0
}

/// The months of the inflows with a readable date, in order.
pub open spec fn inflow_months(entries: Seq<DatedAmount>) -> Seq<CalendarMonth> {
    entries.filter(|e: DatedAmount| dated_inflow(e)).map_values(|e: DatedAmount| e.month->0)
}

/// The months of the outflows with a readable date, in order.
pub open spec fn outflow_months(entries: Seq<DatedAmount>) -> Seq<CalendarMonth> {
    entries.filter(|e: DatedAmount| dated_outflow(e)).map_values(|e: DatedAmount| e.month->0)
}

/// The months in which some entry falls.
pub open spec fn observed_months(entries: Seq<DatedAmount>) -> Seq<CalendarMonth> {
    inflow_months(entries) + outflow_months(entries)
}

/// The first month of the range: the earliest observed month, or the epoch
/// month where none is observed.
pub open spec fn first_month(entries: Seq<DatedAmount>) -> CalendarMonth {
    match earliest_of(observed_months(entries)) {
        Some(m) => m,
        None => epoch_month(),
    }
}

/// The last month of the range: the latest observed month, or `today`
/// where none is observed.
pub open spec fn last_month(entries: Seq<DatedAmount>, today: CalendarMonth) -> CalendarMonth {
    match latest_of(observed_months(entries)) {
        Some(m) => m,
        None => today,
    }
}

/// What an entry adds to the inflow of month `m`.
pub open spec fn inflow_in(e: DatedAmount, m: CalendarMonth) -> int {
    if e.month == Some(m) {
        inflow_part(e.amount as int)
    } else {
        0
    }
}

/// What an entry adds to the outflow of month `m`.
pub open spec fn outflow_in(e: DatedAmount, m: CalendarMonth) -> int {
    if e.month == Some(m) {
        outflow_part(e.amount as int)
    } else {
        0
    }
}

/// The sum of the positive amounts dated in month `m`.
pub open spec fn month_inflow(entries: Seq<DatedAmount>, m: CalendarMonth) -> int {
    sum_of(entries.map_values(|e: DatedAmount| inflow_in(e, m)))
}

/// The sum of the amounts dated in month `m` that are zero or negative.
pub open spec fn month_outflow(entries: Seq<DatedAmount>, m: CalendarMonth) -> int {
    sum_of(entries.map_values(|e: DatedAmount| outflow_in(e, m)))
}

/// The monthly flow of the entries, with `today` as the current month.
pub open spec fn monthly_series(entries: Seq<DatedAmount>, today: CalendarMonth) -> MonthlySeries {
    let months = month_range(first_month(entries), last_month(entries, today));
    MonthlySeries {
        months,
        inflows: months.map_values(|m: CalendarMonth| month_inflow(entries, m)),
        outflows: months.map_values(|m: CalendarMonth| month_outflow(entries, m)),
    }
}

/// Every dated entry has a month in 1..=12.
pub open spec fn entries_valid(entries: Seq<DatedAmount>) -> bool {
    forall|i: int|
        0 <= i < entries.len() ==> ((#[trigger] entries[i]).month matches Some(m) ==> m.valid())
}

/// No entry is dated in month `m`.
pub open spec fn month_is_empty(entries: Seq<DatedAmount>, m: CalendarMonth) -> bool {
    forall|i: int| 0 <= i < entries.len() ==> (#[trigger] entries[i]).month != Some(m)
}

/// Every month of the sequence lies in 1..=12.
pub open spec fn months_valid(months: Seq<CalendarMonth>) -> bool {
    forall|i: int| 0 <= i < months.len() ==> (#[trigger] months[i]).valid()
}

/// Taking the earliest over two sequences in turn is taking it over their
/// concatenation.
pub proof fn lemma_earliest_from_append(
    start: Option<CalendarMonth>,
    a: Seq<CalendarMonth>,
    b: Seq<CalendarMonth>,
)
    ensures
        earliest_from(start, a + b) == earliest_from(earliest_from(start, a), b),
    decreases b.len(),
{
    if b.len() == 0 {
        assert(a + b =~= a);
    } else {
        assert((a + b).drop_last() =~= a + b.drop_last());
        assert((a + b).last() == b.last());
        lemma_earliest_from_append(start, a, b.drop_last());
    }
}

/// Taking the latest over two sequences in turn is taking it over their
/// concatenation.
pub proof fn lemma_latest_from_append(
    start: Option<CalendarMonth>,
    a: Seq<CalendarMonth>,
    b: Seq<CalendarMonth>,
)
    ensures
        latest_from(start, a + b) == latest_from(latest_from(start, a), b),
    decreases b.len(),
{
    if b.len() == 0 {
        assert(a + b =~= a);
    } else {
        assert((a + b).drop_last() =~= a + b.drop_last());
        assert((a + b).last() == b.last());
        lemma_latest_from_append(start, a, b.drop_last());
    }
}

/// The earliest of a sequence of months is one of them, and none of them
/// comes before it. There is one exactly where the sequence is not empty.
pub proof fn lemma_earliest_is_least(months: Seq<CalendarMonth>)
    ensures
        earliest_of(months) is None <==> months.len() == 0,
        earliest_of(months) matches Some(m) ==> months.contains(m) && forall|i: int|
            0 <= i < months.len() ==> m.index() <= (#[trigger] months[i]).index(),
    decreases months.len(),
{
    if months.len() > 0 {
        let before = months.drop_last();
        lemma_earliest_is_least(before);
        let m = earliest_of(months)->0;
        assert(months.last() == months[months.len() - 1]);
        if before.len() > 0 {
            let p = earliest_of(before)->0;
            let i = choose|i: int| 0 <= i < before.len() && before[i] == p;
            assert(months[i] == p);
        }
        assert(months.contains(m));
        assert forall|i: int| 0 <= i < months.len() implies m.index() <= (
        #[trigger] months[i]).index() by {
            if i < before.len() {
                assert(before[i] == months[i]);
            }
        }
    }
}

/// The latest of a sequence of months is one of them, and none of them
/// comes after it. There is one exactly where the sequence is not empty.
pub proof fn lemma_latest_is_greatest(months: Seq<CalendarMonth>)
    ensures
        latest_of(months) is None <==> months.len() == 0,
        latest_of(months) matches Some(m) ==> months.contains(m) && forall|i: int|
            0 <= i < months.len() ==> (#[trigger] months[i]).index() <= m.index(),
    decreases months.len(),
{
    if months.len() > 0 {
        let before = months.drop_last();
        lemma_latest_is_greatest(before);
        let m = latest_of(months)->0;
        assert(months.last() == months[months.len() - 1]);
        if before.len() > 0 {
            let p = latest_of(before)->0;
            let i = choose|i: int| 0 <= i < before.len() && before[i] == p;
            assert(months[i] == p);
        }
        assert(months.contains(m));
        assert forall|i: int| 0 <= i < months.len() implies (#[trigger] months[i]).index()
            <= m.index() by {
            if i < before.len() {
                assert(before[i] == months[i]);
            }
        }
    }
}

/// January 1970.
pub fn epoch() -> (m: CalendarMonth)
    ensures
        m == epoch_month(),
{
    CalendarMonth { year: 1970, month: 1 }
}

/// Carries the earliest and latest month so far over one more list.
fn extend_bounds(
    low: Option<CalendarMonth>,
    high: Option<CalendarMonth>,
    months: &Vec<CalendarMonth>,
) -> (bounds: (Option<CalendarMonth>, Option<CalendarMonth>))
    requires
        months_valid(months@),
        low matches Some(m) ==> m.valid(),
        high matches Some(m) ==> m.valid(),
    ensures
        bounds.0 == earliest_from(low, months@),
        bounds.1 == latest_from(high, months@),
        bounds.0 matches Some(m) ==> m.valid(),
        bounds.1 matches Some(m) ==> m.valid(),
{
    let mut first = low;
    let mut last = high;
    let mut i: usize = 0;
    assert(months@.take(0) =~= Seq::<CalendarMonth>::empty());
    while i < months.len()
        invariant
            i <= months.len(),
            months_valid(months@),
            first == earliest_from(low, months@.take(i as int)),
            last == latest_from(high, months@.take(i as int)),
            first matches Some(m) ==> m.valid(),
            last matches Some(m) ==> m.valid(),
        decreases months.len() - i,
    {
        let m = months[i];
        proof {
            assert(months@.take(i + 1).drop_last() =~= months@.take(i as int));
            assert(months@.take(i + 1).last() == m);
            assert(months@[i as int].valid());
        }
        first = match first {
            None => Some(m),
            Some(f) => if f.le(&m) {
                Some(f)
            } else {
                Some(m)
            },
        };
        last = match last {
            None => Some(m),
            Some(l) => if m.le(&l) {
                Some(l)
            } else {
                Some(m)
            },
        };
        i = i + 1;
    }
    assert(months@.take(months.len() as int) =~= months@);
    (first, last)
}

/// The earliest and the latest month of two lists taken together. Where
/// both lists are empty, the earliest is the epoch month and the latest is
/// `today`.
pub fn get_min_max_dates_from_lists(
    list1: &Vec<CalendarMonth>,
    list2: &Vec<CalendarMonth>,
    today: CalendarMonth,
) -> (range: (CalendarMonth, CalendarMonth))
    requires
        months_valid(list1@),
        months_valid(list2@),
        today.valid(),
    ensures
        range.0 == match earliest_of(list1@ + list2@) {
            Some(m) => m,
            None => epoch_month(),
        },
        range.1 == match latest_of(list1@ + list2@) {
            Some(m) => m,
            None => today,
        },
        range.0.valid(),
        range.1.valid(),
{
    let (low, high) = extend_bounds(None, None, list1);
    let (low, high) = extend_bounds(low, high, list2);
    proof {
        lemma_earliest_from_append(None, list1@, list2@);
        lemma_latest_from_append(None, list1@, list2@);
    }
    let first = match low {
        Some(m) => m,
        None => epoch(),
    };
    let last = match high {
        Some(m) => m,
        None => today,
    };
    (first, last)
}

/// Within the years that a month can name, the month at an index has that
/// index.
pub proof fn lemma_index_of_month_at(index: int)
    requires
        i32::MIN * 12 <= index < (i32::MAX + 1) * 12,
    ensures
        CalendarMonth::at(index).valid(),
        CalendarMonth::at(index).index() == index,
{
}

/// One more entry adds its own part to the flows of a month.
pub proof fn lemma_month_flow_push(entries: Seq<DatedAmount>, e: DatedAmount, m: CalendarMonth)
    ensures
        month_inflow(entries.push(e), m) == month_inflow(entries, m) + inflow_in(e, m),
        month_outflow(entries.push(e), m) == month_outflow(entries, m) + outflow_in(e, m),
{
    let ins = entries.push(e).map_values(|x: DatedAmount| inflow_in(x, m));
    assert(ins.drop_last() =~= entries.map_values(|x: DatedAmount| inflow_in(x, m)));
    let outs = entries.push(e).map_values(|x: DatedAmount| outflow_in(x, m));
    assert(outs.drop_last() =~= entries.map_values(|x: DatedAmount| outflow_in(x, m)));
}

/// One more entry appends its month to the inflow months or to the outflow
/// months, if it is dated, and to neither if it is not.
pub proof fn lemma_months_push(entries: Seq<DatedAmount>, e: DatedAmount)
    ensures
        inflow_months(entries.push(e)) == if dated_inflow(e) {
            inflow_months(entries).push(e.month->0)
        } else {
            inflow_months(entries)
        },
        outflow_months(entries.push(e)) == if dated_outflow(e) {
            outflow_months(entries).push(e.month->0)
        } else {
            outflow_months(entries)
        },
{
    entries.lemma_filter_push(e, |x: DatedAmount| dated_inflow(x));
    entries.lemma_filter_push(e, |x: DatedAmount| dated_outflow(x));
    let ins = entries.filter(|x: DatedAmount| dated_inflow(x));
    let outs = entries.filter(|x: DatedAmount| dated_outflow(x));
    if dated_inflow(e) {
        assert(ins.push(e).map_values(|x: DatedAmount| x.month->0) =~= ins.map_values(
            |x: DatedAmount| x.month->0,
        ).push(e.month->0));
    }
    if dated_outflow(e) {
        assert(outs.push(e).map_values(|x: DatedAmount| x.month->0) =~= outs.map_values(
            |x: DatedAmount| x.month->0,
        ).push(e.month->0));
    }
}

/// The month of every dated entry is among the observed months.
pub proof fn lemma_dated_month_is_observed(entries: Seq<DatedAmount>, i: int)
    requires
        0 <= i < entries.len(),
        entries[i].month is Some,
    ensures
        observed_months(entries).contains(entries[i].month->0),
    decreases entries.len(),
{
    let before = entries.drop_last();
    let e = entries.last();
    let m = entries[i].month->0;
    assert(entries =~= before.push(e));
    lemma_months_push(before, e);
    let ins = inflow_months(entries);
    let outs = outflow_months(entries);
    if i == entries.len() - 1 {
        if dated_inflow(e) {
            assert(ins[ins.len() - 1] == m);
            assert(observed_months(entries)[ins.len() - 1] == m);
        } else {
            assert(outs[outs.len() - 1] == m);
            assert(observed_months(entries)[ins.len() + outs.len() - 1] == m);
        }
    } else {
        assert(before[i] == entries[i]);
        lemma_dated_month_is_observed(before, i);
        let all = observed_months(before);
        let k = choose|k: int| 0 <= k < all.len() && all[k] == m;
        let bins = inflow_months(before);
        if k < bins.len() {
            assert(ins[k] == m);
            assert(observed_months(entries)[k] == m);
        } else {
            assert(outs[k - bins.len()] == m);
            assert(observed_months(entries)[ins.len() + (k - bins.len())] == m);
        }
    }
}

/// Every observed month is the month of some dated entry.
pub proof fn lemma_observed_month_is_dated(entries: Seq<DatedAmount>, m: CalendarMonth)
    requires
        observed_months(entries).contains(m),
    ensures
        exists|i: int| 0 <= i < entries.len() && (#[trigger] entries[i]).month == Some(m),
    decreases entries.len(),
{
    if entries.len() == 0 {
        assert(entries.filter(|x: DatedAmount| dated_inflow(x)).len() == 0) by {
            entries.lemma_filter_len(|x: DatedAmount| dated_inflow(x));
        }
        assert(entries.filter(|x: DatedAmount| dated_outflow(x)).len() == 0) by {
            entries.lemma_filter_len(|x: DatedAmount| dated_outflow(x));
        }
        assert(observed_months(entries).len() == 0);
    } else {
        let before = entries.drop_last();
        let e = entries.last();
        assert(entries =~= before.push(e));
        lemma_months_push(before, e);
        if e.month == Some(m) {
            assert(entries[entries.len() - 1].month == Some(m));
        } else {
            let all = observed_months(entries);
            let k = choose|k: int| 0 <= k < all.len() && all[k] == m;
            let ins = inflow_months(entries);
            let bins = inflow_months(before);
            let bouts = outflow_months(before);
            if k < ins.len() {
                assert(ins[k] == m);
                assert(k < bins.len());
                assert(observed_months(before)[k] == m);
            } else {
                let j = k - ins.len();
                assert(outflow_months(entries)[j] == m);
                assert(j < bouts.len());
                assert(observed_months(before)[bins.len() + j] == m);
            }
            lemma_observed_month_is_dated(before, m);
            let i = choose|i: int| 0 <= i < before.len() && (#[trigger] before[i]).month == Some(m);
            assert(entries[i].month == Some(m));
        }
    }
}

/// A month in which no entry is dated has no inflow and no outflow.
pub proof fn lemma_empty_month_has_no_flow(entries: Seq<DatedAmount>, m: CalendarMonth)
    requires
        month_is_empty(entries, m),
    ensures
        month_inflow(entries, m) == 0,
        month_outflow(entries, m) == 0,
    decreases entries.len(),
{
    if entries.len() > 0 {
        let before = entries.drop_last();
        let e = entries.last();
        assert(entries =~= before.push(e));
        assert forall|i: int| 0 <= i < before.len() implies (#[trigger] before[i]).month != Some(
            m,
        ) by {
            assert(before[i] == entries[i]);
        }
        assert(month_is_empty(before, m));
        lemma_empty_month_has_no_flow(before, m);
        lemma_month_flow_push(before, e, m);
        assert(entries[entries.len() - 1].month != Some(m));
    } else {
        assert(entries.map_values(|x: DatedAmount| inflow_in(x, m)).len() == 0);
        assert(entries.map_values(|x: DatedAmount| outflow_in(x, m)).len() == 0);
    }
}

/// The shape of a monthly flow: as many inflows and outflows as months;
/// the months ascend one by one, none left out; a month in which no entry
/// is dated has zero inflow and zero outflow.
pub proof fn lemma_series_shape(entries: Seq<DatedAmount>, today: CalendarMonth)
    requires
        entries_valid(entries),
        today.valid(),
    ensures
        ({
            let series = monthly_series(entries, today);
            &&& series.inflows.len() == series.months.len()
            &&& series.outflows.len() == series.months.len()
            &&& forall|k: int|
                0 <= k < series.months.len() ==> (#[trigger] series.months[k]).valid()
                    && series.months[k].index() == first_month(entries).index() + k
            &&& forall|j: int, k: int|
                0 <= j < k < series.months.len() ==> (#[trigger] series.months[j]).index() < (
                #[trigger] series.months[k]).index()
            &&& forall|k: int|
                0 <= k < series.months.len() && month_is_empty(
                    entries,
                    #[trigger] series.months[k],
                ) ==> series.inflows[k] == 0 && series.outflows[k] == 0
        }),
{
    let series = monthly_series(entries, today);
    lemma_span_valid(entries, today);
    let first = first_month(entries);
    let last = last_month(entries, today);
    assert forall|k: int| 0 <= k < series.months.len() implies (#[trigger] series.months[k]).valid()
        && series.months[k].index() == first.index() + k by {
        lemma_index_of_month_at(first.index() + k);
    }
    assert forall|k: int|
        0 <= k < series.months.len() && month_is_empty(
            entries,
            #[trigger] series.months[k],
        ) implies series.inflows[k] == 0 && series.outflows[k] == 0 by {
        lemma_empty_month_has_no_flow(entries, series.months[k]);
    }
}

/// The first and the last month of the range are months, and where an
/// entry is dated, its month lies between them.
pub proof fn lemma_span_valid(entries: Seq<DatedAmount>, today: CalendarMonth)
    requires
        entries_valid(entries),
        today.valid(),
    ensures
        first_month(entries).valid(),
        last_month(entries, today).valid(),
        forall|i: int|
            0 <= i < entries.len() && (#[trigger] entries[i]).month is Some ==> first_month(
                entries,
            ).index() <= entries[i].month->0.index() <= last_month(entries, today).index(),
{
    let all = observed_months(entries);
    lemma_earliest_is_least(all);
    lemma_latest_is_greatest(all);
    if all.len() > 0 {
        lemma_observed_month_is_dated(entries, first_month(entries));
        lemma_observed_month_is_dated(entries, last_month(entries, today));
    }
    assert forall|i: int|
        0 <= i < entries.len() && (#[trigger] entries[i]).month is Some implies first_month(
        entries,
    ).index() <= entries[i].month->0.index() <= last_month(entries, today).index() by {
        lemma_dated_month_is_observed(entries, i);
        let m = entries[i].month->0;
        let k = choose|k: int| 0 <= k < all.len() && all[k] == m;
        assert(all[k].index() == m.index());
    }
}

impl View for GetInflowsVsOutflows {
    type V = MonthlySeries;

    closed spec fn view(&self) -> MonthlySeries {
        MonthlySeries {
            months: self.months@,
            inflows: self.inflows@.map_values(|v: i128| v as int),
            outflows: self.outflows@.map_values(|v: i128| v as int),
        }
    }
}

impl GetInflowsVsOutflows {
    /// The inflow of each month in centavos, in the order of the months.
    pub fn inflows(&self) -> (sums: Vec<i128>)
        ensures
            sums@.map_values(|v: i128| v as int) == self@.inflows,
    {
        let sums = copy_sums(&self.inflows);
        assert(sums@ =~= self.inflows@);
        sums
    }

    /// The outflow of each month in centavos, in the order of the months.
    pub fn outflows(&self) -> (sums: Vec<i128>)
        ensures
            sums@.map_values(|v: i128| v as int) == self@.outflows,
    {
        let sums = copy_sums(&self.outflows);
        assert(sums@ =~= self.outflows@);
        sums
    }

    /// The keys of the months, such as "2024-1", in ascending order.
    pub fn months(&self) -> (keys: Vec<String>)
        ensures
            keys.deep_view() == month_keys(self@.months),
    {
        let mut keys: Vec<String> = Vec::new();
        let mut i: usize = 0;
        while i < self.months.len()
            invariant
                i <= self.months.len(),
                keys.len() == i,
                forall|k: int| 0 <= k < i ==> (#[trigger] keys@[k])@ == self.months@[k].key(),
            decreases self.months.len() - i,
        {
            keys.push(self.months[i].label());
            i = i + 1;
        }
        assert(keys.deep_view() =~= month_keys(self@.months));
        keys
    }

    /// The months, in ascending order.
    pub fn calendar_months(&self) -> (months: Vec<CalendarMonth>)
        ensures
            months@ == self@.months,
    {
        let mut months: Vec<CalendarMonth> = Vec::new();
        let mut i: usize = 0;
        while i < self.months.len()
            invariant
                i <= self.months.len(),
                months@ == self.months@.take(i as int),
            decreases self.months.len() - i,
        {
            months.push(self.months[i]);
            i = i + 1;
        }
        assert(months@ =~= self.months@);
        months
    }
}

/// A copy of a list of sums.
fn copy_sums(sums: &Vec<i128>) -> (copy: Vec<i128>)
    ensures
        copy@ == sums@,
{
    let mut copy: Vec<i128> = Vec::new();
    let mut i: usize = 0;
    while i < sums.len()
        invariant
            i <= sums.len(),
            copy@ == sums@.take(i as int),
        decreases sums.len() - i,
    {
        copy.push(sums[i]);
        i = i + 1;
    }
    assert(copy@ =~= sums@);
    copy
}

/// As many zeros as asked for.
fn zeros(count: usize) -> (sums: Vec<i128>)
    ensures
        sums.len() == count,
        forall|k: int| 0 <= k < count ==> sums@[k] == 0,
{
    let mut sums: Vec<i128> = Vec::new();
    let mut i: usize = 0;
    while i < count
        invariant
            i <= count,
            sums.len() == i,
            forall|k: int| 0 <= k < i ==> sums@[k] == 0,
        decreases count - i,
    {
        sums.push(0);
        i = i + 1;
    }
    sums
}

/// The months of the dated inflows and of the dated outflows, each in the
/// order of the entries.
fn split_months(entries: &Vec<DatedAmount>) -> (lists: (Vec<CalendarMonth>, Vec<CalendarMonth>))
    requires
        entries_valid(entries@),
    ensures
        lists.0@ == inflow_months(entries@),
        lists.1@ == outflow_months(entries@),
        months_valid(lists.0@),
        months_valid(lists.1@),
{
    let mut ins: Vec<CalendarMonth> = Vec::new();
    let mut outs: Vec<CalendarMonth> = Vec::new();
    let mut i: usize = 0;
    proof {
        let none = entries@.take(0);
        none.lemma_filter_len(|x: DatedAmount| dated_inflow(x));
        none.lemma_filter_len(|x: DatedAmount| dated_outflow(x));
        assert(inflow_months(none) =~= Seq::<CalendarMonth>::empty());
        assert(outflow_months(none) =~= Seq::<CalendarMonth>::empty());
    }
    while i < entries.len()
        invariant
            i <= entries.len(),
            entries_valid(entries@),
            ins@ == inflow_months(entries@.take(i as int)),
            outs@ == outflow_months(entries@.take(i as int)),
            months_valid(ins@),
            months_valid(outs@),
        decreases entries.len() - i,
    {
        let e = entries[i];
        proof {
            assert(entries@.take(i + 1) =~= entries@.take(i as int).push(e));
            lemma_months_push(entries@.take(i as int), e);
            assert(entries@[i as int] == e);
        }
        match e.month {
            Some(m) => {
                if e.amount > 0 {
                    ins.push(m);
                } else {
                    outs.push(m);
                }
            },
            None => {},
        }
        i = i + 1;
    }
    assert(entries@.take(entries.len() as int) =~= entries@);
    (ins, outs)
}

/// The monthly flow of the entries, with `today` as the current month.
///
/// The months run from the earliest to the latest month of a dated entry,
/// none left out; where no entry is dated, from January 1970 to `today`.
/// Each month has the sum of its positive amounts as inflow and the sum of
/// its other amounts as outflow, so zero for both where it has no entry.
/// Entries without a date count for no month.
pub fn monthly_flow(entries: &Vec<DatedAmount>, today: CalendarMonth) -> (series:
    GetInflowsVsOutflows)
    requires
        entries_valid(entries@),
        today.valid(),
    ensures
        series@ == monthly_series(entries@, today),
        series@.inflows.len() == series@.months.len(),
        series@.outflows.len() == series@.months.len(),
        forall|j: int, k: int|
            0 <= j < k < series@.months.len() ==> (#[trigger] series@.months[j]).index() + (k - j)
                == (#[trigger] series@.months[k]).index(),
        forall|k: int|
            0 <= k < series@.months.len() && month_is_empty(
                entries@,
                #[trigger] series@.months[k],
            ) ==> series@.inflows[k] == 0 && series@.outflows[k] == 0,
{
    let (ins, outs) = split_months(entries);
    let (first, last) = get_min_max_dates_from_lists(&ins, &outs, today);
    let months = months_between(first, last);
    let count = months.len();
    let mut inflows = zeros(count);
    let mut outflows = zeros(count);
    let ghost all = entries@;
    proof {
        lemma_span_valid(all, today);
        lemma_series_shape(all, today);
        assert(first == first_month(all));
        assert(last == last_month(all, today));
        assert forall|k: int| 0 <= k < count implies month_inflow(all.take(0), months@[k]) == 0
            && month_outflow(all.take(0), months@[k]) == 0 by {
            assert(month_is_empty(all.take(0), months@[k]));
            lemma_empty_month_has_no_flow(all.take(0), months@[k]);
        }
    }
    let mut i: usize = 0;
    while i < entries.len()
        invariant
            i <= entries.len(),
            all == entries@,
            entries_valid(all),
            today.valid(),
            first == first_month(all),
            last == last_month(all, today),
            first.valid(),
            last.valid(),
            months@ == month_range(first, last),
            count == months.len(),
            inflows.len() == count,
            outflows.len() == count,
            forall|k: int|
                0 <= k < count ==> (#[trigger] months@[k]).index() == first.index() + k,
            forall|x: int|
                0 <= x < all.len() && (#[trigger] all[x]).month is Some ==> first.index()
                    <= all[x].month->0.index() <= last.index(),
            forall|k: int|
                0 <= k < count ==> #[trigger] inflows@[k] == month_inflow(
                    all.take(i as int),
                    months@[k],
                ),
            forall|k: int|
                0 <= k < count ==> #[trigger] outflows@[k] == month_outflow(
                    all.take(i as int),
                    months@[k],
                ),
            forall|k: int| 0 <= k < count ==> 0 <= #[trigger] inflows@[k] <= i * 0x7FFF_FFFF_FFFF_FFFF,
            forall|k: int|
                0 <= k < count ==> 0 >= #[trigger] outflows@[k] >= i * (-0x8000_0000_0000_0000),
        decreases entries.len() - i,
    {
        let e = entries[i];
        proof {
            assert(all.take(i + 1) =~= all.take(i as int).push(e));
            assert forall|k: int| 0 <= k < count implies month_inflow(all.take(i + 1), months@[k])
                == month_inflow(all.take(i as int), months@[k]) + inflow_in(e, months@[k])
                && month_outflow(all.take(i + 1), months@[k]) == month_outflow(
                all.take(i as int),
                months@[k],
            ) + outflow_in(e, months@[k]) by {
                lemma_month_flow_push(all.take(i as int), e, months@[k]);
            }
            assert(all[i as int] == e);
        }
        match e.month {
            Some(m) => {
                assert(m.valid());
                assert(first.index() <= m.index() <= last.index());
                let offset: i64 = (m.year as i64 - first.year as i64) * 12 + (m.month as i64
                    - first.month as i64);
                assert(offset == m.index() - first.index());
                assert(0 <= offset < count);
                let at: usize = offset as usize;
                proof {
                    lemma_month_at_index(m);
                    assert(months@[at as int] == CalendarMonth::at(first.index() + at));
                    assert(months@[at as int] == m);
                    assert forall|k: int| 0 <= k < count && k != at implies months@[k] != m by {
                        assert(months@[k].index() == first.index() + k);
                    }
                }
                if e.amount > 0 {
                    let sum: i128 = inflows[at] + e.amount as i128;
                    inflows.set(at, sum);
                } else {
                    let sum: i128 = outflows[at] + e.amount as i128;
                    outflows.set(at, sum);
                }
            },
            None => {},
        }
        i = i + 1;
    }
    let series = GetInflowsVsOutflows { inflows, outflows, months };
    proof {
        assert(all.take(entries.len() as int) =~= all);
        let model = monthly_series(all, today);
        assert(series@.months =~= model.months);
        assert(series@.inflows =~= model.inflows);
        assert(series@.outflows =~= model.outflows);
        assert forall|j: int, k: int| 0 <= j < k < series@.months.len() implies (
        #[trigger] series@.months[j]).index() + (k - j) == (#[trigger] series@.months[k]).index() by {
            assert(series@.months[j] == months@[j]);
            assert(series@.months[k] == months@[k]);
        }
        assert forall|k: int|
            0 <= k < series@.months.len() && month_is_empty(
                all,
                #[trigger] series@.months[k],
            ) implies series@.inflows[k] == 0 && series@.outflows[k] == 0 by {
            lemma_empty_month_has_no_flow(all, series@.months[k]);
        }
    }
    series
}

} // verus!
