use finance_ledger::monthly::{epoch, get_min_max_dates_from_lists, monthly_flow};
use finance_ledger::{CalendarMonth, DatedAmount, RustDataframe};

fn month(year: i32, month: u32) -> CalendarMonth {
    CalendarMonth::new(year, month).unwrap()
}

fn dated(year: i32, m: u32, amount: i64) -> DatedAmount {
    DatedAmount { month: Some(month(year, m)), amount }
}

fn undated(amount: i64) -> DatedAmount {
    DatedAmount { month: None, amount }
}

#[test]
fn epoch_is_january_1970() {
    assert_eq!(epoch(), month(1970, 1));
}

#[test]
fn least_and_greatest_of_two_lists() {
    let a = vec![month(2024, 3), month(2023, 11), month(2024, 1)];
    let b = vec![month(2024, 7), month(2023, 12)];
    let today = month(2030, 1);
    assert_eq!(get_min_max_dates_from_lists(&a, &b, today), (month(2023, 11), month(2024, 7)));
    assert_eq!(get_min_max_dates_from_lists(&b, &a, today), (month(2023, 11), month(2024, 7)));
    assert_eq!(get_min_max_dates_from_lists(&a, &vec![], today), (month(2023, 11), month(2024, 3)));
    assert_eq!(get_min_max_dates_from_lists(&vec![], &b, today), (month(2023, 12), month(2024, 7)));
    let one = vec![month(2024, 5)];
    assert_eq!(get_min_max_dates_from_lists(&one, &vec![], today), (month(2024, 5), month(2024, 5)));
}

#[test]
fn without_months_the_range_runs_from_the_epoch_to_today() {
    let none: Vec<CalendarMonth> = Vec::new();
    assert_eq!(
        get_min_max_dates_from_lists(&none, &none, month(2025, 6)),
        (month(1970, 1), month(2025, 6))
    );
}

#[test]
fn flows_by_month_with_gaps_filled() {
    let entries = vec![
        dated(2024, 1, 100_000),
        dated(2024, 4, -2_500),
        dated(2024, 1, -300),
        undated(999),
        dated(2024, 4, 700),
        dated(2024, 1, 50),
        dated(2024, 2, 0),
    ];
    let series = monthly_flow(&entries, month(2030, 1));
    assert_eq!(series.months(), vec!["2024-1", "2024-2", "2024-3", "2024-4"]);
    assert_eq!(series.inflows(), vec![100_050, 0, 0, 700]);
    assert_eq!(series.outflows(), vec![-300, 0, 0, -2_500]);
    assert_eq!(
        series.calendar_months(),
        vec![month(2024, 1), month(2024, 2), month(2024, 3), month(2024, 4)]
    );
}

#[test]
fn range_crosses_years() {
    let entries = vec![dated(2024, 2, 5), dated(2022, 11, -7)];
    let series = monthly_flow(&entries, month(1999, 1));
    let months = series.months();
    assert_eq!(months.len(), 16);
    assert_eq!(months[0], "2022-11");
    assert_eq!(months[1], "2022-12");
    assert_eq!(months[2], "2023-1");
    assert_eq!(months[15], "2024-2");
    let mut inflows = vec![0i128; 16];
    inflows[15] = 5;
    let mut outflows = vec![0i128; 16];
    outflows[0] = -7;
    assert_eq!(series.inflows(), inflows);
    assert_eq!(series.outflows(), outflows);
}

#[test]
fn series_have_one_length_and_months_ascend_without_gaps() {
    let entries = vec![dated(2021, 12, 1), dated(2019, 3, -1), undated(5), dated(2020, 6, 9)];
    let series = monthly_flow(&entries, month(2024, 1));
    let months = series.calendar_months();
    assert_eq!(series.inflows().len(), months.len());
    assert_eq!(series.outflows().len(), months.len());
    assert_eq!(series.months().len(), months.len());
    for pair in months.windows(2) {
        assert_eq!(pair[0].next(), pair[1]);
    }
    assert_eq!(months.first(), Some(&month(2019, 3)));
    assert_eq!(months.last(), Some(&month(2021, 12)));
}

#[test]
fn without_dates_the_months_run_from_the_epoch_to_today() {
    let series = monthly_flow(&Vec::new(), month(1970, 1));
    assert_eq!(series.months(), vec!["1970-1"]);
    assert_eq!(series.inflows(), vec![0]);
    assert_eq!(series.outflows(), vec![0]);
    let series = monthly_flow(&vec![undated(5), undated(-5)], month(1970, 3));
    assert_eq!(series.months(), vec!["1970-1", "1970-2", "1970-3"]);
    assert_eq!(series.inflows(), vec![0, 0, 0]);
    assert_eq!(series.outflows(), vec![0, 0, 0]);
    let series = monthly_flow(&Vec::new(), month(1969, 12));
    assert_eq!(series.months(), Vec::<String>::new());
    assert_eq!(series.inflows(), Vec::<i128>::new());
    assert_eq!(series.outflows(), Vec::<i128>::new());
}

#[test]
fn today_is_ignored_where_a_date_is_known() {
    let entries = vec![dated(2024, 2, 5)];
    let early = monthly_flow(&entries, month(1900, 1));
    let late = monthly_flow(&entries, month(2900, 1));
    assert_eq!(early.months(), vec!["2024-2"]);
    assert_eq!(late.months(), vec!["2024-2"]);
    assert_eq!(early.inflows(), late.inflows());
}

#[test]
fn sums_do_not_overflow_at_the_limits() {
    let entries = vec![
        dated(2024, 1, i64::MAX),
        dated(2024, 1, i64::MAX),
        dated(2024, 1, i64::MIN),
        dated(2024, 1, i64::MIN),
    ];
    let series = monthly_flow(&entries, month(2024, 1));
    assert_eq!(series.inflows(), vec![2 * (i64::MAX as i128)]);
    assert_eq!(series.outflows(), vec![2 * (i64::MIN as i128)]);
}

#[test]
fn two_rows_two_months() {
    let mut engine = RustDataframe::new();
    engine
        .parse_csv(
            "Date,Transaction,Amount,Tags,ID,Remarks\n\
             \"January 1, 2024\",pay,\"\u{20B1}1,000.00\",,,\n\
             \"February 1, 2024\",rent,-500,,,\n",
        )
        .unwrap();
    let series = engine.get_inflows_vs_outflows();
    assert_eq!(series.months(), vec!["2024-1", "2024-2"]);
    assert_eq!(series.inflows(), vec![100_000, 0]);
    assert_eq!(series.outflows(), vec![0, -50_000]);
    let pesos: Vec<f64> = series.inflows().iter().map(|c| *c as f64 / 100.0).collect();
    assert_eq!(pesos, vec![1000.0, 0.0]);
    let pesos: Vec<f64> = series.outflows().iter().map(|c| *c as f64 / 100.0).collect();
    assert_eq!(pesos, vec![0.0, -500.0]);
}

#[test]
fn unreadable_dates_count_for_no_month() {
    let mut engine = RustDataframe::new();
    engine
        .parse_csv(
            "date,transaction,amount,tags,id,remarks\n\
             someday,a,10,,,\n\
             \"Friday, March 1, 2024\",b,-4,,,\n\
             2024-05-31T23:00:00-03:00,c,7,,,\n",
        )
        .unwrap();
    let series = engine.inflows_vs_outflows_as_of(month(2000, 1));
    assert_eq!(series.months(), vec!["2024-3", "2024-4", "2024-5", "2024-6"]);
    assert_eq!(series.inflows(), vec![0, 0, 0, 700]);
    assert_eq!(series.outflows(), vec![-400, 0, 0, 0]);
    assert_eq!(engine.get_total_earned_vs_spent().total_earned, 1_700);
}

#[test]
fn empty_engine_falls_back_to_the_epoch() {
    let mut engine = RustDataframe::new();
    let summary = engine.get_total_earned_vs_spent();
    assert_eq!((summary.total_earned, summary.total_spent, summary.net_income), (0, 0, 0));
    let series = engine.inflows_vs_outflows_as_of(month(1970, 1));
    assert_eq!(series.months(), vec!["1970-1"]);
    assert_eq!(series.inflows(), vec![0]);
    assert_eq!(series.outflows(), vec![0]);
    let series = engine.get_inflows_vs_outflows();
    let months = series.months();
    assert!(months.len() > 600);
    assert_eq!(months[0], "1970-1");
    assert_eq!(months[12], "1971-1");
    assert_eq!(series.inflows(), vec![0; months.len()]);
    assert_eq!(series.outflows(), vec![0; months.len()]);
}

#[test]
fn monthly_flow_twice_is_the_same() {
    let mut engine = RustDataframe::new();
    engine
        .parse_csv("date,transaction,amount,tags,id,remarks\n\"May 1, 2024\",a,10,,,\n\"July 9, 2024\",b,-4,,,\n")
        .unwrap();
    let before = engine.records();
    let first = engine.get_inflows_vs_outflows();
    let second = engine.get_inflows_vs_outflows();
    assert_eq!(first.months(), second.months());
    assert_eq!(first.inflows(), second.inflows());
    assert_eq!(first.outflows(), second.outflows());
    assert_eq!(first.months(), vec!["2024-5", "2024-6", "2024-7"]);
    assert_eq!(engine.records(), before);
}
