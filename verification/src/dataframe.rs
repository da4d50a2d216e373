//! The engine: a record set held in a `rowboat` dataframe, and the
//! analytics over it.
//!
//! The dataframe stores the records and hands them back; what it holds is
//! named here, not described. Ingestion replaces the record set as a whole.
//! The analytics read it and leave it as it is.

use vstd::prelude::*;
use rowboat::dataframe::{Cell, Dataframe};
use crate::calendar::{current_local_month, month_of_text, parse_datetime_any, CalendarMonth};
use crate::debts::{debt_ledger, debts_of, SearchDebtors};
use crate::ingest::{
    column_map,
    defaulted_count,
    csv_data_rows,
    csv_header_row,
    csv_header_text,
    csv_rows_text,
    first_missing_column,
    ingest_rows,
    ingested,
    rounded_count,
    IngestError,
    IngestReport,
};
use crate::monthly::{
    entries_valid,
    month_is_empty,
    monthly_flow,
    monthly_series,
    DatedAmount,
    GetInflowsVsOutflows,
};
use crate::laws::{any_dated, lemma_dated_flow_ignores_today};
use crate::record::{Record, Transaction};
use crate::summary::{
    summarize,
    summary_of,
    total_earned,
    total_spent,
    GetTotalEarnedVsSpent,
};
use crate::text::{lowercase, lowercase_text};

verus! {

/// `rowboat::dataframe::Dataframe`, the table that stores the records.
/// Nothing of its inside is known here.
#[verifier::external_type_specification]
#[verifier::external_body]
pub struct ExDataframe(Dataframe);

/// The records that a dataframe holds, row by row.
pub uninterp spec fn frame_rows(frame: Dataframe) -> Seq<Record>;

/// Whether a dataframe was made from ledger rows: it has no column at all,
/// as the frame of no rows has, or the six columns of a ledger, all of one
/// length.
pub uninterp spec fn frame_is_ledger(frame: Dataframe) -> bool;

/// The engine. It owns the record set.
pub struct RustDataframe {
    df: Option<Dataframe>,
}

/// The counterparty of each record folded to lower case, where it has one.
pub open spec fn folded_ids(records: Seq<Record>) -> Seq<Option<Seq<char>>> {
    records.map_values(
        |r: Record|
            match r.id {
                Some(id) => Some(lowercase_text(id)),
                None => None,
            },
    )
}

/// The amount of each record with the month of its date, where the date
/// can be read.
pub open spec fn dated_entries(records: Seq<Record>) -> Seq<DatedAmount> {
    records.map_values(
        |r: Record| DatedAmount { month: month_of_text(r.date), amount: r.amount as i64 },
    )
}

/// What ingesting a text gives: the records, or why there are none.
pub open spec fn sheet_records(text: Seq<char>) -> Result<Seq<Record>, IngestError> {
    match csv_header_text(text) {
        None => Err(IngestError::UnreadableHeader),
        Some(header) => {
            let folded = header.map_values(|cell: Seq<char>| lowercase_text(cell));
            match first_missing_column(folded) {
                Some(column) => Err(IngestError::MissingColumn(column)),
                None => Ok(ingested(csv_rows_text(text), column_map(folded))),
            }
        },
    }
}

/// How many records of an ingested text have an amount that counts as zero
/// because its cell could not be read.
pub open spec fn sheet_defaulted(text: Seq<char>) -> nat {
    match csv_header_text(text) {
        None => 0,
        Some(header) => defaulted_count(
            csv_rows_text(text),
            column_map(header.map_values(|cell: Seq<char>| lowercase_text(cell))),
        ),
    }
}

/// How many records of an ingested text have an amount that was rounded to
/// the nearest centavo.
pub open spec fn sheet_rounded(text: Seq<char>) -> nat {
    match csv_header_text(text) {
        None => 0,
        Some(header) => rounded_count(
            csv_rows_text(text),
            column_map(header.map_values(|cell: Seq<char>| lowercase_text(cell))),
        ),
    }
}

/// Calls `rowboat::dataframe::Dataframe::from_rows` with one row of six
/// cells for each record, under the six column names. The source shows
/// that it succeeds on rows of one length whose cells agree in type column
/// by column, as these do, and that the frame then holds the rows in order.
#[verifier::external_body]
fn frame_of(records: &Vec<Transaction>) -> (frame: Option<Dataframe>)
    ensures
        frame is Some,
        frame_is_ledger(frame->0),
        frame_rows(frame->0) == records.deep_view(),
{
    let labels = vec!["date", "transaction", "amount", "tags", "id", "remarks"];
    let rows: Vec<Vec<Cell>> = records.iter().map(|r| vec![
        r.date.clone().into(),
        r.transaction.clone().into(),
        r.amount.into(),
        r.tags.clone().into(),
        r.id.clone().into(),
        r.remarks.clone().into(),
    ]).collect();
    Dataframe::from_rows(labels, rows).ok()
}

/// Calls `rowboat::dataframe::Dataframe::to_rows` on a copy of the frame
/// and turns each row of cells back into a record.
#[verifier::external_body]
fn records_of(frame: &Dataframe) -> (records: Vec<Transaction>)
    requires
        frame_is_ledger(*frame),
    ensures
        records.deep_view() == frame_rows(*frame),
{
    let text = |c: Option<&Cell>| match c {
        Some(Cell::Str(s)) => Some(s.clone()),
        _ => None,
    };
    let (_, rows) = frame.clone().to_rows();
    rows.into_iter().map(|c| Transaction {
        date: text(c.get(0)).unwrap_or_default(),
        transaction: text(c.get(1)).unwrap_or_default(),
        amount: match c.get(2) { Some(Cell::Int(v)) => *v, _ => 0 },
        tags: text(c.get(3)),
        id: text(c.get(4)),
        remarks: text(c.get(5)),
    }).collect()
}

impl View for RustDataframe {
    type V = Seq<Record>;

    closed spec fn view(&self) -> Seq<Record> {
        match self.df {
            Some(frame) => frame_rows(frame),
            None => Seq::empty(),
        }
    }
}

impl RustDataframe {
    #[verifier::type_invariant]
    spec fn holds_a_ledger(self) -> bool {
        self.df matches Some(frame) ==> frame_is_ledger(frame)
    }

    /// An engine with no records.
    pub fn new() -> (engine: RustDataframe)
        ensures
            engine@ == Seq::<Record>::empty(),
    {
        RustDataframe { df: None }
    }

    /// The records held, in order.
    pub fn records(&self) -> (records: Vec<Transaction>)
        ensures
            records.deep_view() == self@,
    {
        proof {
            use_type_invariant(self);
        }
        match &self.df {
            Some(frame) => records_of(frame),
            None => {
                let none: Vec<Transaction> = Vec::new();
                assert(none.deep_view() =~= Seq::<Record>::empty());
                none
            },
        }
    }

    /// Ingests a sheet of comma-separated text and replaces the record set
    /// with its records.
    ///
    /// The first row names the columns, in any order and any case. Fails,
    /// and leaves the record set as it was, if the header row cannot be
    /// read or a column is missing. Otherwise every row that can be read
    /// gives one record, in order; the report counts the rows that were
    /// skipped, the amounts that could not be read and count as zero, and
    /// the amounts that were rounded to the nearest centavo.
    pub fn parse_csv(&mut self, csv: &str) -> (outcome: Result<IngestReport, IngestError>)
        ensures
            match sheet_records(csv@) {
                Ok(records) => {
                    &&& outcome matches Ok(report)
                    &&& report.records.deep_view() == records
                    &&& report.skipped_rows == csv_rows_text(csv@).len() - records.len()
                    &&& report.defaulted_amounts == sheet_defaulted(csv@)
                    &&& report.rounded_amounts == sheet_rounded(csv@)
                    &&& final(self)@ == records
                },
                Err(e) => {
                    &&& outcome == Err::<IngestReport, IngestError>(e)
                    &&& final(self)@ == old(self)@
                },
            },
    {
        let header = match csv_header_row(csv) {
            Some(header) => header,
            None => {
                return Err(IngestError::UnreadableHeader);
            },
        };
        let folded = fold_all(&header);
        let rows = csv_data_rows(csv);
        let report = match ingest_rows(&folded, &rows) {
            Ok(report) => report,
            Err(e) => {
                return Err(e);
            },
        };
        let frame = frame_of(&report.records);
        self.df = frame;
        Ok(report)
    }

    /// The totals of the record set: earned, spent, net, and the share of
    /// earnings kept. The record set stays as it is.
    pub fn get_total_earned_vs_spent(&mut self) -> (summary: GetTotalEarnedVsSpent)
        ensures
            final(self)@ == old(self)@,
            summary == summary_of(old(self)@),
            summary.total_earned == total_earned(old(self)@),
            summary.total_spent == total_spent(old(self)@),
            summary.total_earned >= 0,
            summary.total_spent <= 0,
            summary.net_income == summary.total_earned + summary.total_spent,
            summary.lifetime_savings_decimal is None <==> summary.total_earned == 0,
    {
        let records = self.records();
        summarize(&records)
    }

    /// The debt ledger of the counterparties whose name holds
    /// `search_str`, letter case aside. The empty search text selects every
    /// counterparty.
    pub fn search_debtors(&self, search_str: &str) -> (ledger: Vec<SearchDebtors>)
        ensures
            ledger.deep_view() == debts_of(
                self@,
                folded_ids(self@),
                lowercase_text(search_str@),
            ),
            search_str@.len() == 0 ==> ledger.deep_view() == debts_of(
                self@,
                folded_ids(self@),
                Seq::empty(),
            ),
            forall|k: int| 0 <= k < ledger.len() ==> (#[trigger] ledger@[k]).has_rows(),
    {
        let records = self.records();
        let mut folded: Vec<Option<String>> = Vec::new();
        let mut i: usize = 0;
        while i < records.len()
            invariant
                i <= records.len(),
                folded.len() == i,
                forall|k: int|
                    0 <= k < i ==> (#[trigger] folded@[k]).deep_view() == folded_ids(
                        records.deep_view(),
                    )[k],
            decreases records.len() - i,
        {
            let name = match &records[i].id {
                Some(id) => Some(lowercase(id.as_str())),
                None => None,
            };
            folded.push(name);
            i = i + 1;
        }
        assert(folded.deep_view() =~= folded_ids(records.deep_view()));
        let needle = lowercase(search_str);
        proof {
            if search_str@.len() == 0 {
                assert(needle@ =~= Seq::<char>::empty());
            }
        }
        debt_ledger(&records, &folded, needle.as_str())
    }

    /// Inflow and outflow by month, with the month of the clock of this
    /// machine as the current month. The record set stays as it is.
    ///
    /// The current month matters only where no record has a readable
    /// date: the months then run from January 1970 to it.
    pub fn get_inflows_vs_outflows(&mut self) -> (series: GetInflowsVsOutflows)
        ensures
            final(self)@ == old(self)@,
            exists|today: CalendarMonth|
                today.valid() && series@ == #[trigger] monthly_series(
                    dated_entries(old(self)@),
                    today,
                ),
            forall|today: CalendarMonth|
                any_dated(dated_entries(old(self)@)) ==> series@ == #[trigger] monthly_series(
                    dated_entries(old(self)@),
                    today,
                ),
            series@.inflows.len() == series@.months.len(),
            series@.outflows.len() == series@.months.len(),
            forall|j: int, k: int|
                0 <= j < k < series@.months.len() ==> (#[trigger] series@.months[j]).index() + (k
                    - j) == (#[trigger] series@.months[k]).index(),
            forall|k: int|
                0 <= k < series@.months.len() && month_is_empty(
                    dated_entries(old(self)@),
                    #[trigger] series@.months[k],
                ) ==> series@.inflows[k] == 0 && series@.outflows[k] == 0,
    {
        let today = current_local_month();
        proof {
            let entries = dated_entries(self@);
            assert forall|another_day: CalendarMonth| any_dated(entries) implies monthly_series(
                entries,
                today,
            ) == #[trigger] monthly_series(entries, another_day) by {
                lemma_dated_flow_ignores_today(entries, today, another_day);
            }
        }
        self.inflows_vs_outflows_as_of(today)
    }

    /// Inflow and outflow by month, with `today` as the current month.
    ///
    /// The months run from the earliest to the latest month of a record
    /// with a readable date, none left out, or from January 1970 to
    /// `today` where no record has one. Records without a readable date
    /// count for no month.
    pub fn inflows_vs_outflows_as_of(&self, today: CalendarMonth) -> (series:
        GetInflowsVsOutflows)
        requires
            today.valid(),
        ensures
            series@ == monthly_series(dated_entries(self@), today),
            series@.inflows.len() == series@.months.len(),
            series@.outflows.len() == series@.months.len(),
            forall|j: int, k: int|
                0 <= j < k < series@.months.len() ==> (#[trigger] series@.months[j]).index() + (k
                    - j) == (#[trigger] series@.months[k]).index(),
            forall|k: int|
                0 <= k < series@.months.len() && month_is_empty(
                    dated_entries(self@),
                    #[trigger] series@.months[k],
                ) ==> series@.inflows[k] == 0 && series@.outflows[k] == 0,
    {
        let records = self.records();
        let ghost all = records.deep_view();
        let mut entries: Vec<DatedAmount> = Vec::new();
        let mut i: usize = 0;
        while i < records.len()
            invariant
                i <= records.len(),
                all == records.deep_view(),
                entries.len() == i,
                forall|k: int| 0 <= k < i ==> #[trigger] entries@[k] == dated_entries(all)[k],
                entries_valid(entries@),
            decreases records.len() - i,
        {
            let record = &records[i];
            assert(all[i as int] == records@[i as int]@);
            let month = match parse_datetime_any(record.date.as_str()) {
                Ok(date) => Some(date.calendar_month()),
                Err(_) => None,
            };
            entries.push(DatedAmount { month, amount: record.amount });
            i = i + 1;
        }
        assert(entries@ =~= dated_entries(all));
        monthly_flow(&entries, today)
    }
}

/// Each text folded to lower case.
fn fold_all(texts: &Vec<String>) -> (folded: Vec<String>)
    ensures
        folded.deep_view() == texts.deep_view().map_values(
            |cell: Seq<char>| lowercase_text(cell),
        ),
{
    let mut folded: Vec<String> = Vec::new();
    let mut i: usize = 0;
    while i < texts.len()
        invariant
            i <= texts.len(),
            folded.len() == i,
            forall|k: int| 0 <= k < i ==> (#[trigger] folded@[k])@ == lowercase_text(texts@[k]@),
        decreases texts.len() - i,
    {
        folded.push(lowercase(texts[i].as_str()));
        i = i + 1;
    }
    assert(folded.deep_view() =~= texts.deep_view().map_values(
        |cell: Seq<char>| lowercase_text(cell),
    ));
    folded
}

} // verus!
