//! Turning tokenized rows into transaction records.
//!
//! The text is split into rows by the `csv` crate; what it makes of a text
//! is named here, not described. Everything after that is decided here:
//! which column holds what, which rows are kept, what each cell becomes.

use vstd::prelude::*;
use crate::amount::{cell_centavos, cell_is_amount, cell_is_rounded, read_amount_noting};
use crate::record::{Record, Transaction};
use crate::text::{chars_of, first_position, lemma_first_position, same_chars};

verus! {

/// What `csv::Reader::headers` makes of a text: the cells of its first row,
/// or `None` where it reports an error.
pub uninterp spec fn csv_header_text(text: Seq<char>) -> Option<Seq<Seq<char>>>;

/// What `csv::Reader::records` yields for a text, row by row after the
/// first: the cells of a row, or `None` where it reports an error for it.
pub uninterp spec fn csv_rows_text(text: Seq<char>) -> Seq<Option<Seq<Seq<char>>>>;

/// The six columns of a ledger sheet, in the order in which they are looked
/// for.
#[derive(Clone, Copy, Debug, PartialEq, Eq, Structural)]
pub enum Column {
    Date,
    Transaction,
    Amount,
    Tags,
    Id,
    Remarks,
}

/// Why a sheet was not ingested.
#[derive(Clone, Copy, Debug, PartialEq, Eq, Structural)]
pub enum IngestError {
    /// The header row could not be read.
    UnreadableHeader,
    /// The header row names no such column.
    MissingColumn(Column),
}

/// Where each of the six columns stands in a row.
#[derive(Clone, Copy, Debug, PartialEq, Eq, Structural)]
pub struct ColumnMap {
    pub date: usize,
    pub transaction: usize,
    pub amount: usize,
    pub tags: usize,
    pub id: usize,
    pub remarks: usize,
}

/// What an ingestion produced: the records, and how much was passed over
/// on the way.
#[derive(Debug)]
pub struct IngestReport {
    /// The records, in the order of their rows.
    pub records: Vec<Transaction>,
    /// Rows that gave no record: unreadable, or too short for a column.
    pub skipped_rows: usize,
    /// Records whose amount cell was unreadable and counts as zero.
    pub defaulted_amounts: usize,
    /// Records whose amount was no whole number of centavos and was rounded
    /// to the nearest.
    pub rounded_amounts: usize,
}

impl Column {
    /// The name of the column in lower case.
    pub open spec fn name(self) -> Seq<char> {
        match self {
            Column::Date => seq!['d', 'a', 't', 'e'],
            Column::Transaction => seq!['t', 'r', 'a', 'n', 's', 'a', 'c', 't', 'i', 'o', 'n'],
            Column::Amount => seq!['a', 'm', 'o', 'u', 'n', 't'],
            Column::Tags => seq!['t', 'a', 'g', 's'],
            Column::Id => seq!['i', 'd'],
            Column::Remarks => seq!['r', 'e', 'm', 'a', 'r', 'k', 's'],
        }
    }

    /// The name of the column in lower case.
    pub fn name_chars(self) -> (name: Vec<char>)
        ensures
            name@ == self.name(),
    {
        let name = match self {
            Column::Date => vec!['d', 'a', 't', 'e'],
            Column::Transaction => vec!['t', 'r', 'a', 'n', 's', 'a', 'c', 't', 'i', 'o', 'n'],
            Column::Amount => vec!['a', 'm', 'o', 'u', 'n', 't'],
            Column::Tags => vec!['t', 'a', 'g', 's'],
            Column::Id => vec!['i', 'd'],
            Column::Remarks => vec!['r', 'e', 'm', 'a', 'r', 'k', 's'],
        };
        assert(name@ =~= self.name());
        name
    }
}

/// Where `column` stands among headers already folded to lower case: the
/// first header equal to its name, or the number of headers if none is.
pub open spec fn column_position(headers: Seq<Seq<char>>, column: Column) -> int {
    first_position(headers, column.name())
}

/// Whether some header names `column`.
pub open spec fn has_column(headers: Seq<Seq<char>>, column: Column) -> bool {
    column_position(headers, column) < headers.len()
}

/// The first of the six columns, in their order, that no header names.
pub open spec fn first_missing_column(headers: Seq<Seq<char>>) -> Option<Column> {
    if !has_column(headers, Column::Date) {
        Some(Column::Date)
    } else if !has_column(headers, Column::Transaction) {
        Some(Column::Transaction)
    } else if !has_column(headers, Column::Amount) {
        Some(Column::Amount)
    } else if !has_column(headers, Column::Tags) {
        Some(Column::Tags)
    } else if !has_column(headers, Column::Id) {
        Some(Column::Id)
    } else if !has_column(headers, Column::Remarks) {
        Some(Column::Remarks)
    } else {
        None
    }
}

/// Where the six columns stand, for headers that name them all.
pub open spec fn column_map(headers: Seq<Seq<char>>) -> ColumnMap {
    ColumnMap {
        date: column_position(headers, Column::Date) as usize,
        transaction: column_position(headers, Column::Transaction) as usize,
        amount: column_position(headers, Column::Amount) as usize,
        tags: column_position(headers, Column::Tags) as usize,
        id: column_position(headers, Column::Id) as usize,
        remarks: column_position(headers, Column::Remarks) as usize,
    }
}

/// An optional cell: absent where the cell is empty.
pub open spec fn optional_cell(cell: Seq<char>) -> Option<Seq<char>> {
    if cell.len() == 0 {
        None
    } else {
        Some(cell)
    }
}

/// The row has a cell for each of the six columns.
pub open spec fn row_fits(cells: Seq<Seq<char>>, columns: ColumnMap) -> bool {
    &&& columns.date < cells.len()
    &&& columns.transaction < cells.len()
    &&& columns.amount < cells.len()
    &&& columns.tags < cells.len()
    &&& columns.id < cells.len()
    &&& columns.remarks < cells.len()
}

/// The row was read and has a cell for each of the six columns.
pub open spec fn row_usable(row: Option<Seq<Seq<char>>>, columns: ColumnMap) -> bool {
    row matches Some(cells) && row_fits(cells, columns)
}

/// The row is kept, and its amount cell holds no readable amount.
pub open spec fn row_defaulted(row: Option<Seq<Seq<char>>>, columns: ColumnMap) -> bool {
    row_usable(row, columns) && !cell_is_amount(row->0[columns.amount as int])
}

/// The row is kept, and its amount was rounded to the nearest centavo.
pub open spec fn row_rounded(row: Option<Seq<Seq<char>>>, columns: ColumnMap) -> bool {
    row_usable(row, columns) && cell_is_rounded(row->0[columns.amount as int])
}

/// The record that a row gives.
pub open spec fn record_of_row(cells: Seq<Seq<char>>, columns: ColumnMap) -> Record {
    Record {
        date: cells[columns.date as int],
        transaction: cells[columns.transaction as int],
        amount: cell_centavos(cells[columns.amount as int]),
        tags: optional_cell(cells[columns.tags as int]),
        id: optional_cell(cells[columns.id as int]),
        remarks: optional_cell(cells[columns.remarks as int]),
    }
}

/// The records that a sequence of rows gives: one for each usable row, in
/// the order of the rows.
pub open spec fn ingested(rows: Seq<Option<Seq<Seq<char>>>>, columns: ColumnMap) -> Seq<Record>
    decreases rows.len(),
{
    if rows.len() == 0 {
        Seq::empty()
    } else {
        let before = ingested(rows.drop_last(), columns);
        if row_usable(rows.last(), columns) {
            before.push(record_of_row(rows.last()->0, columns))
        } else {
            before
        }
    }
}

/// How many of the rows are kept with an amount that counts as zero because
/// its cell was unreadable.
pub open spec fn defaulted_count(rows: Seq<Option<Seq<Seq<char>>>>, columns: ColumnMap) -> nat
    decreases rows.len(),
{
    if rows.len() == 0 {
        0
    } else {
        defaulted_count(rows.drop_last(), columns) + if row_defaulted(rows.last(), columns) {
            1nat
        } else {
            0nat
        }
    }
}

/// How many of the rows are kept with an amount that was rounded to the
/// nearest centavo.
pub open spec fn rounded_count(rows: Seq<Option<Seq<Seq<char>>>>, columns: ColumnMap) -> nat
    decreases rows.len(),
{
    if rows.len() == 0 {
        0
    } else {
        rounded_count(rows.drop_last(), columns) + if row_rounded(rows.last(), columns) {
            1nat
        } else {
            0nat
        }
    }
}

/// Where every row was read and has a cell for each column, every row
/// gives a record: as many records as rows.
pub proof fn lemma_every_usable_row_is_ingested(
    rows: Seq<Option<Seq<Seq<char>>>>,
    columns: ColumnMap,
)
    requires
        forall|i: int| 0 <= i < rows.len() ==> row_usable(#[trigger] rows[i], columns),
    ensures
        ingested(rows, columns).len() == rows.len(),
        forall|i: int|
            0 <= i < rows.len() ==> #[trigger] ingested(rows, columns)[i] == record_of_row(
                rows[i]->0,
                columns,
            ),
    decreases rows.len(),
{
    if rows.len() > 0 {
        let before = rows.drop_last();
        assert forall|i: int| 0 <= i < before.len() implies row_usable(
            #[trigger] before[i],
            columns,
        ) by {
            assert(before[i] == rows[i]);
        }
        lemma_every_usable_row_is_ingested(before, columns);
        assert(row_usable(rows.last(), columns));
        assert forall|i: int| 0 <= i < rows.len() implies #[trigger] ingested(rows, columns)[i]
            == record_of_row(rows[i]->0, columns) by {
            if i < before.len() {
                assert(before[i] == rows[i]);
                assert(ingested(rows, columns)[i] == ingested(before, columns)[i]);
            }
        }
    }
}

/// Calls `csv::Reader::headers` on a reader over the text, with a header
/// row expected. The cells are named, not described.
#[verifier::external_body]
pub(crate) fn csv_header_row(text: &str) -> (header: Option<Vec<String>>)
    ensures
        header.deep_view() == csv_header_text(text@),
{
    let mut reader = csv::ReaderBuilder::new().has_headers(true).from_reader(text.as_bytes());
    match reader.headers() {
        Ok(cells) => Some(cells.iter().map(|cell| cell.to_string()).collect()),
        Err(_) => None,
    }
}

/// Calls `csv::Reader::records` on a reader over the text, with a header
/// row expected, and collects what it yields. The rows are named, not
/// described.
#[verifier::external_body]
pub(crate) fn csv_data_rows(text: &str) -> (rows: Vec<Option<Vec<String>>>)
    ensures
        rows.deep_view() == csv_rows_text(text@),
{
    let mut reader = csv::ReaderBuilder::new().has_headers(true).from_reader(text.as_bytes());
    reader.records().map(|row| match row {
        Ok(cells) => Some(cells.iter().map(|cell| cell.to_string()).collect()),
        Err(_) => None,
    }).collect()
}

/// Where `column` stands among the headers, if some header names it.
fn find_column(headers: &Vec<Vec<char>>, column: Column) -> (found: Option<usize>)
    ensures
        found is Some <==> has_column(headers.deep_view(), column),
        found matches Some(i) ==> i == column_position(headers.deep_view(), column),
{
    let name = column.name_chars();
    let ghost all = headers.deep_view();
    let mut i: usize = 0;
    while i < headers.len()
        invariant
            i <= headers.len(),
            name@ == column.name(),
            all == headers.deep_view(),
            forall|j: int| 0 <= j < i ==> all[j] != name@,
        decreases headers.len() - i,
    {
        if same_chars(&headers[i], &name) {
            proof {
                lemma_first_position(all, name@);
                assert(all[i as int] == headers@[i as int]@);
                if first_position(all, name@) > i {
                    assert(all[i as int] != name@);
                }
            }
            return Some(i);
        }
        assert(all[i as int] == headers@[i as int]@);
        i = i + 1;
    }
    proof {
        lemma_first_position(all, name@);
        if first_position(all, name@) < all.len() {
            assert(all[first_position(all, name@)] == name@);
        }
    }
    None
}

/// Finds the six columns among headers already folded to lower case, or
/// says which is the first that is missing.
pub fn resolve_columns(headers: &Vec<String>) -> (resolved: Result<ColumnMap, IngestError>)
    ensures
        match first_missing_column(headers.deep_view()) {
            Some(column) => resolved == Err::<ColumnMap, IngestError>(
                IngestError::MissingColumn(column),
            ),
            None => resolved == Ok::<ColumnMap, IngestError>(column_map(headers.deep_view())),
        },
{
    let mut names: Vec<Vec<char>> = Vec::new();
    let mut i: usize = 0;
    while i < headers.len()
        invariant
            i <= headers.len(),
            names.len() == i,
            forall|k: int| 0 <= k < i ==> (#[trigger] names@[k])@ == headers@[k]@,
        decreases headers.len() - i,
    {
        names.push(chars_of(headers[i].as_str()));
        i = i + 1;
    }
    assert forall|k: int| 0 <= k < names.len() implies #[trigger] names.deep_view()[k]
        == headers.deep_view()[k] by {
        assert(names@[k].deep_view() =~= names@[k]@);
    }
    assert(names.deep_view() =~= headers.deep_view());
    let date = match find_column(&names, Column::Date) {
        Some(at) => at,
        None => {
            return Err(IngestError::MissingColumn(Column::Date));
        },
    };
    let transaction = match find_column(&names, Column::Transaction) {
        Some(at) => at,
        None => {
            return Err(IngestError::MissingColumn(Column::Transaction));
        },
    };
    let amount = match find_column(&names, Column::Amount) {
        Some(at) => at,
        None => {
            return Err(IngestError::MissingColumn(Column::Amount));
        },
    };
    let tags = match find_column(&names, Column::Tags) {
        Some(at) => at,
        None => {
            return Err(IngestError::MissingColumn(Column::Tags));
        },
    };
    let id = match find_column(&names, Column::Id) {
        Some(at) => at,
        None => {
            return Err(IngestError::MissingColumn(Column::Id));
        },
    };
    let remarks = match find_column(&names, Column::Remarks) {
        Some(at) => at,
        None => {
            return Err(IngestError::MissingColumn(Column::Remarks));
        },
    };
    Ok(ColumnMap { date, transaction, amount, tags, id, remarks })
}

/// An optional cell: absent where the cell is empty.
fn optional_text(cell: &String) -> (text: Option<String>)
    ensures
        text.deep_view() == optional_cell(cell@),
{
    if cell.as_str().is_empty() {
        None
    } else {
        Some(cell.clone())
    }
}

/// Whether the row has a cell for each of the six columns.
fn fits(cells: &Vec<String>, columns: &ColumnMap) -> (b: bool)
    ensures
        b == row_fits(cells.deep_view(), *columns),
{
    let n = cells.len();
    columns.date < n && columns.transaction < n && columns.amount < n && columns.tags < n
        && columns.id < n && columns.remarks < n
}

/// The record that a row gives, whether its amount cell was readable, and
/// whether the amount was rounded.
fn record_from_row(cells: &Vec<String>, columns: &ColumnMap) -> (made: (Transaction, bool, bool))
    requires
        row_fits(cells.deep_view(), *columns),
    ensures
        made.0@ == record_of_row(cells.deep_view(), *columns),
        made.1 == cell_is_amount(cells.deep_view()[columns.amount as int]),
        made.2 == cell_is_rounded(cells.deep_view()[columns.amount as int]),
{
    let read = read_amount_noting(cells[columns.amount].as_str());
    let (amount, rounded): (i64, bool) = match read {
        Some((centavos, rounded)) => (centavos, rounded),
        None => (0, false),
    };
    let record = Transaction {
        date: cells[columns.date].clone(),
        transaction: cells[columns.transaction].clone(),
        amount,
        tags: optional_text(&cells[columns.tags]),
        id: optional_text(&cells[columns.id]),
        remarks: optional_text(&cells[columns.remarks]),
    };
    (record, read.is_some(), rounded)
}

/// Ingests tokenized rows under headers already folded to lower case.
///
/// Fails if a column is missing, naming the first that is. Otherwise each
/// row that was read and has a cell for every column gives one record, in
/// order; the others are skipped and counted. An unreadable amount counts
/// as zero and is counted too, and so is an amount that had to be rounded
/// to the nearest centavo.
pub fn ingest_rows(headers: &Vec<String>, rows: &Vec<Option<Vec<String>>>) -> (outcome: Result<
    IngestReport,
    IngestError,
>)
    ensures
        match first_missing_column(headers.deep_view()) {
            Some(column) => outcome == Err::<IngestReport, IngestError>(
                IngestError::MissingColumn(column),
            ),
            None => outcome matches Ok(report) && {
                let columns = column_map(headers.deep_view());
                &&& report.records.deep_view() == ingested(rows.deep_view(), columns)
                &&& report.skipped_rows == rows.len() - report.records.len()
                &&& report.defaulted_amounts == defaulted_count(rows.deep_view(), columns)
                &&& report.rounded_amounts == rounded_count(rows.deep_view(), columns)
            },
        },
{
    let columns = match resolve_columns(headers) {
        Ok(columns) => columns,
        Err(e) => {
            return Err(e);
        },
    };
    let ghost all = rows.deep_view();
    let mut records: Vec<Transaction> = Vec::new();
    let mut skipped: usize = 0;
    let mut defaulted: usize = 0;
    let mut rounded: usize = 0;
    let mut i: usize = 0;
    assert(all.take(0) =~= Seq::<Option<Seq<Seq<char>>>>::empty());
    while i < rows.len()
        invariant
            i <= rows.len(),
            all == rows.deep_view(),
            records.deep_view() == ingested(all.take(i as int), columns),
            skipped == i - records.len(),
            defaulted == defaulted_count(all.take(i as int), columns),
            rounded == rounded_count(all.take(i as int), columns),
            defaulted <= records.len() <= i,
            rounded <= records.len(),
        decreases rows.len() - i,
    {
        proof {
            assert(all.take(i + 1).drop_last() =~= all.take(i as int));
            assert(all.take(i + 1).last() == all[i as int]);
            assert(all[i as int] == rows@[i as int].deep_view());
        }
        let ghost before = records.deep_view();
        match &rows[i] {
            Some(cells) => {
                if fits(cells, &columns) {
                    let (record, readable, inexact) = record_from_row(cells, &columns);
                    records.push(record);
                    if !readable {
                        defaulted = defaulted + 1;
                    }
                    if inexact {
                        rounded = rounded + 1;
                    }
                    assert(records.deep_view() =~= before.push(
                        record_of_row(cells.deep_view(), columns),
                    ));
                } else {
                    skipped = skipped + 1;
                }
            },
            None => {
                skipped = skipped + 1;
            },
        }
        i = i + 1;
    }
    assert(all.take(rows.len() as int) =~= all);
    Ok(
        IngestReport {
            records,
            skipped_rows: skipped,
            defaulted_amounts: defaulted,
            rounded_amounts: rounded,
        },
    )
}

} // verus!
