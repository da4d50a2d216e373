use finance_ledger::ingest::{ingest_rows, resolve_columns, ColumnMap};
use finance_ledger::{Column, IngestError, RustDataframe, Transaction};

fn strings(cells: &[&str]) -> Vec<String> {
    cells.iter().map(|c| c.to_string()).collect()
}

fn some(text: &str) -> Option<String> {
    Some(text.to_string())
}

const SHEET: &str = "\
Date,Transaction,Amount,Tags,ID,Remarks
\"January 1, 2024\",Salary,\"\u{20B1}1,000.00\",Income,,first pay
\"February 1, 2024\",Rent,-500,,landlord,
\"March 5, 2024\",Loan to Ana,-100.50,Debt:Out,Ana,until June
";

#[test]
fn columns_in_sheet_order() {
    let headers = strings(&["date", "transaction", "amount", "tags", "id", "remarks"]);
    assert_eq!(
        resolve_columns(&headers),
        Ok(ColumnMap { date: 0, transaction: 1, amount: 2, tags: 3, id: 4, remarks: 5 })
    );
}

#[test]
fn columns_in_any_order_first_match_wins() {
    let headers = strings(&["id", "x", "remarks", "amount", "date", "tags", "transaction", "date"]);
    assert_eq!(
        resolve_columns(&headers),
        Ok(ColumnMap { date: 4, transaction: 6, amount: 3, tags: 5, id: 0, remarks: 2 })
    );
}

#[test]
fn column_names_must_match_exactly() {
    let headers = strings(&["date ", "transaction", "amount", "tags", "id", "remarks"]);
    assert_eq!(resolve_columns(&headers), Err(IngestError::MissingColumn(Column::Date)));
    let headers = strings(&["Date", "transaction", "amount", "tags", "id", "remarks"]);
    assert_eq!(resolve_columns(&headers), Err(IngestError::MissingColumn(Column::Date)));
}

#[test]
fn first_missing_column_is_named() {
    let all = ["date", "transaction", "amount", "tags", "id", "remarks"];
    let columns = [
        Column::Date,
        Column::Transaction,
        Column::Amount,
        Column::Tags,
        Column::Id,
        Column::Remarks,
    ];
    for (k, column) in columns.iter().enumerate() {
        let headers: Vec<String> =
            all.iter().enumerate().filter(|(i, _)| *i != k).map(|(_, h)| h.to_string()).collect();
        assert_eq!(resolve_columns(&headers), Err(IngestError::MissingColumn(*column)));
    }
    assert_eq!(resolve_columns(&strings(&[])), Err(IngestError::MissingColumn(Column::Date)));
    assert_eq!(
        resolve_columns(&strings(&["date", "amount"])),
        Err(IngestError::MissingColumn(Column::Transaction))
    );
}

#[test]
fn rows_become_records() {
    let headers = strings(&["date", "transaction", "amount", "tags", "id", "remarks"]);
    let rows = vec![
        Some(strings(&["January 1, 2024", "Salary", "\u{20B1}1,000.00", "Income", "", "pay"])),
        Some(strings(&["February 1, 2024", "Rent", "-500", "", "landlord", ""])),
    ];
    let report = ingest_rows(&headers, &rows).unwrap();
    assert_eq!(
        report.records,
        vec![
            Transaction {
                date: "January 1, 2024".to_string(),
                transaction: "Salary".to_string(),
                amount: 100_000,
                tags: some("Income"),
                id: None,
                remarks: some("pay"),
            },
            Transaction {
                date: "February 1, 2024".to_string(),
                transaction: "Rent".to_string(),
                amount: -50_000,
                tags: None,
                id: some("landlord"),
                remarks: None,
            },
        ]
    );
    assert_eq!(report.skipped_rows, 0);
    assert_eq!(report.defaulted_amounts, 0);
}

#[test]
fn every_well_formed_row_gives_a_record() {
    let headers = strings(&["date", "transaction", "amount", "tags", "id", "remarks"]);
    let rows: Vec<Option<Vec<String>>> =
        (0..25).map(|k| Some(strings(&["d", "t", &k.to_string(), "", "", ""]))).collect();
    let report = ingest_rows(&headers, &rows).unwrap();
    assert_eq!(report.records.len(), 25);
    assert_eq!(report.skipped_rows, 0);
    assert_eq!(report.records[24].amount, 2_400);
}

#[test]
fn unreadable_and_short_rows_are_skipped_and_counted() {
    let headers = strings(&["date", "transaction", "amount", "tags", "id", "remarks"]);
    let rows = vec![
        None,
        Some(strings(&["a", "b", "1", "", "", ""])),
        Some(strings(&["a", "b", "1"])),
        Some(strings(&[])),
        Some(strings(&["c", "d", "2", "", "", "", "extra"])),
        None,
    ];
    let report = ingest_rows(&headers, &rows).unwrap();
    assert_eq!(report.records.len(), 2);
    assert_eq!(report.records[0].date, "a");
    assert_eq!(report.records[1].date, "c");
    assert_eq!(report.skipped_rows, 4);
}

#[test]
fn unreadable_amount_counts_as_zero_and_is_counted() {
    let headers = strings(&["date", "transaction", "amount", "tags", "id", "remarks"]);
    let rows = vec![
        Some(strings(&["a", "b", "n/a", "", "", ""])),
        Some(strings(&["a", "b", "12", "", "", ""])),
        Some(strings(&["a", "b", "", "", "", ""])),
        Some(strings(&["a", "b", "0", "", "", ""])),
    ];
    let report = ingest_rows(&headers, &rows).unwrap();
    let amounts: Vec<i64> = report.records.iter().map(|r| r.amount).collect();
    assert_eq!(amounts, vec![0, 1_200, 0, 0]);
    assert_eq!(report.defaulted_amounts, 2);
    assert_eq!(report.rounded_amounts, 0);
    assert_eq!(report.skipped_rows, 0);
}

#[test]
fn amount_in_exponent_notation_is_read() {
    let headers = strings(&["date", "transaction", "amount", "tags", "id", "remarks"]);
    let rows = vec![
        Some(strings(&["a", "b", "1e3", "", "", ""])),
        Some(strings(&["a", "b", "-2.5E-1", "", "", ""])),
        Some(strings(&["a", "b", "1.005", "", "", ""])),
    ];
    let report = ingest_rows(&headers, &rows).unwrap();
    let amounts: Vec<i64> = report.records.iter().map(|r| r.amount).collect();
    assert_eq!(amounts, vec![100_000, -25, 101]);
    assert_eq!(report.defaulted_amounts, 0);
    assert_eq!(report.rounded_amounts, 1);
    let mut engine = RustDataframe::new();
    let report = engine
        .parse_csv("date,transaction,amount,tags,id,remarks\nx,y,1e3,,,\n")
        .unwrap();
    assert_eq!(report.records[0].amount, 100_000);
    assert_eq!(engine.get_total_earned_vs_spent().total_earned, 100_000);
}

#[test]
fn rounded_amounts_are_counted() {
    let mut engine = RustDataframe::new();
    let report = engine
        .parse_csv(
            "date,transaction,amount,tags,id,remarks\n\
             a,b,0.001,,,\n\
             a,b,\"1,000.999\",,,\n\
             a,b,12.50,,,\n\
             a,b,oops,,,\n\
             a,b,5e-3,,,\n",
        )
        .unwrap();
    let amounts: Vec<i64> = report.records.iter().map(|r| r.amount).collect();
    assert_eq!(amounts, vec![0, 100_100, 1_250, 0, 1]);
    assert_eq!(report.rounded_amounts, 3);
    assert_eq!(report.defaulted_amounts, 1);
    assert_eq!(report.skipped_rows, 0);
}

#[test]
fn missing_column_stops_ingestion_of_rows() {
    let headers = strings(&["date", "transaction", "amount", "tags", "remarks"]);
    let rows = vec![Some(strings(&["a", "b", "1", "", ""]))];
    assert_eq!(
        ingest_rows(&headers, &rows).map(|r| r.records),
        Err(IngestError::MissingColumn(Column::Id))
    );
}

#[test]
fn sheet_is_ingested_whatever_the_case_of_its_headers() {
    let mut engine = RustDataframe::new();
    let report = engine.parse_csv(SHEET).unwrap();
    assert_eq!(report.records.len(), 3);
    assert_eq!(report.skipped_rows, 0);
    assert_eq!(report.defaulted_amounts, 0);
    assert_eq!(report.records[0].amount, 100_000);
    assert_eq!(report.records[0].id, None);
    assert_eq!(report.records[2].amount, -10_050);
    assert_eq!(report.records[2].tags, some("Debt:Out"));
    let shouted = SHEET.replacen("Date,Transaction,Amount,Tags,ID,Remarks", "DATE,TRANSACTION,AMOUNT,TAGS,ID,REMARKS", 1);
    let mut other = RustDataframe::new();
    assert_eq!(other.parse_csv(&shouted).unwrap().records, report.records);
}

#[test]
fn engine_holds_what_was_ingested() {
    let mut engine = RustDataframe::new();
    assert_eq!(engine.records(), Vec::<Transaction>::new());
    let report = engine.parse_csv(SHEET).unwrap();
    assert_eq!(engine.records(), report.records);
    assert_eq!(engine.records()[1].remarks, None);
    assert_eq!(engine.records()[1].id, some("landlord"));
}

#[test]
fn ingestion_replaces_the_record_set() {
    let mut engine = RustDataframe::new();
    engine.parse_csv(SHEET).unwrap();
    let report = engine
        .parse_csv("remarks,id,tags,amount,transaction,date\n,,,5,Coffee,\"May 1, 2024\"\n")
        .unwrap();
    assert_eq!(report.records.len(), 1);
    assert_eq!(engine.records(), report.records);
    assert_eq!(engine.records()[0].transaction, "Coffee");
    assert_eq!(engine.records()[0].amount, 500);
    engine.parse_csv("date,transaction,amount,tags,id,remarks\n").unwrap();
    assert_eq!(engine.records(), Vec::<Transaction>::new());
}

#[test]
fn failed_ingestion_keeps_the_record_set() {
    let mut engine = RustDataframe::new();
    let report = engine.parse_csv(SHEET).unwrap();
    let outcome = engine.parse_csv("Date,Transaction,Amount,Tags,Remarks\na,b,1,,\n");
    assert_eq!(outcome.map(|r| r.records), Err(IngestError::MissingColumn(Column::Id)));
    assert_eq!(engine.records(), report.records);
    let outcome = engine.parse_csv("");
    assert_eq!(outcome.map(|r| r.records), Err(IngestError::MissingColumn(Column::Date)));
    assert_eq!(engine.records(), report.records);
}

#[test]
fn quoted_cells_keep_their_commas() {
    let mut engine = RustDataframe::new();
    let report = engine
        .parse_csv("date,transaction,amount,tags,id,remarks\nd,\"Smith, John\",\"1,234.5\",,,\n")
        .unwrap();
    assert_eq!(report.records[0].transaction, "Smith, John");
    assert_eq!(report.records[0].amount, 123_450);
}

#[test]
fn rows_of_another_length_are_skipped() {
    let mut engine = RustDataframe::new();
    let report = engine
        .parse_csv("date,transaction,amount,tags,id,remarks\na,b,1,,,\nshort,row\nc,d,2,,,\n")
        .unwrap();
    assert_eq!(report.records.len(), 2);
    assert_eq!(report.skipped_rows, 1);
    assert_eq!(report.records[1].date, "c");
}
