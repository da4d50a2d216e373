use finance_ledger::calendar::{get_months_str_by_range, months_between, parse_datetime_any};
use finance_ledger::{CalendarDate, CalendarMonth, DateParseError};

fn month(year: i32, month: u32) -> CalendarMonth {
    CalendarMonth::new(year, month).unwrap()
}

#[test]
fn month_must_lie_in_the_year() {
    assert_eq!(CalendarMonth::new(2024, 0), None);
    assert_eq!(CalendarMonth::new(2024, 13), None);
    assert_eq!(CalendarMonth::new(2024, 1), Some(CalendarMonth { year: 2024, month: 1 }));
    assert_eq!(CalendarMonth::new(-5, 12), Some(CalendarMonth { year: -5, month: 12 }));
}

#[test]
fn months_are_ordered_by_year_then_month() {
    assert!(month(2023, 12).le(&month(2024, 1)));
    assert!(month(2024, 1).le(&month(2024, 1)));
    assert!(!month(2024, 2).le(&month(2024, 1)));
    assert!(!month(2024, 1).le(&month(2023, 12)));
    assert!(month(-1, 12).le(&month(0, 1)));
}

#[test]
fn next_month_rolls_over_the_year() {
    assert_eq!(month(2024, 1).next(), month(2024, 2));
    assert_eq!(month(2024, 12).next(), month(2025, 1));
    assert_eq!(month(-1, 12).next(), month(0, 1));
}

#[test]
fn month_keys_are_not_padded() {
    assert_eq!(month(2024, 1).label(), "2024-1");
    assert_eq!(month(2024, 12).label(), "2024-12");
    assert_eq!(month(1970, 1).label(), "1970-1");
    assert_eq!(month(-44, 3).label(), "-44-3");
}

#[test]
fn range_of_months() {
    assert_eq!(
        months_between(month(2023, 11), month(2024, 2)),
        vec![month(2023, 11), month(2023, 12), month(2024, 1), month(2024, 2)]
    );
    assert_eq!(months_between(month(2024, 5), month(2024, 5)), vec![month(2024, 5)]);
    assert_eq!(months_between(month(2024, 5), month(2024, 4)), Vec::<CalendarMonth>::new());
    assert_eq!(months_between(month(2020, 1), month(2029, 12)).len(), 120);
}

#[test]
fn range_of_month_keys() {
    assert_eq!(
        get_months_str_by_range(month(2023, 11), month(2024, 2)),
        vec!["2023-11", "2023-12", "2024-1", "2024-2"]
    );
    assert_eq!(get_months_str_by_range(month(2024, 2), month(2024, 1)), Vec::<String>::new());
}

#[test]
fn date_in_month_day_year() {
    assert_eq!(
        parse_datetime_any("January 2, 2024"),
        Ok(CalendarDate { year: 2024, month: 1, day: 2 })
    );
    assert_eq!(
        parse_datetime_any("December 31, 1999"),
        Ok(CalendarDate { year: 1999, month: 12, day: 31 })
    );
}

#[test]
fn date_with_weekday() {
    assert_eq!(
        parse_datetime_any("Tuesday, January 2, 2024"),
        Ok(CalendarDate { year: 2024, month: 1, day: 2 })
    );
}

#[test]
fn date_from_rfc3339_is_taken_in_utc() {
    assert_eq!(
        parse_datetime_any("2024-01-02T10:30:00Z"),
        Ok(CalendarDate { year: 2024, month: 1, day: 2 })
    );
    assert_eq!(
        parse_datetime_any("2024-01-01T00:30:00+08:00"),
        Ok(CalendarDate { year: 2023, month: 12, day: 31 })
    );
    assert_eq!(
        parse_datetime_any("2023-12-31T23:30:00-02:00"),
        Ok(CalendarDate { year: 2024, month: 1, day: 1 })
    );
}

#[test]
fn date_from_iso_8601_without_colon_in_offset() {
    assert_eq!(
        parse_datetime_any("2024-01-02T00:00:00+0000"),
        Ok(CalendarDate { year: 2024, month: 1, day: 2 })
    );
}

#[test]
fn four_conventions_one_date() {
    let expected = Ok(CalendarDate { year: 2024, month: 1, day: 2 });
    assert_eq!(parse_datetime_any("January 2, 2024"), expected);
    assert_eq!(parse_datetime_any("Tuesday, January 2, 2024"), expected);
    assert_eq!(parse_datetime_any("2024-01-02T00:00:00+00:00"), expected);
    assert_eq!(parse_datetime_any("2024-01-02 00:00:00 +0000"), expected);
}

#[test]
fn what_is_no_date() {
    assert_eq!(parse_datetime_any(""), Err(DateParseError::Invalid));
    assert_eq!(parse_datetime_any("yesterday"), Err(DateParseError::Invalid));
    assert_eq!(parse_datetime_any("2024-01-02"), Err(DateParseError::Invalid));
    assert_eq!(parse_datetime_any("February 30, 2024"), Err(DateParseError::Invalid));
    assert_eq!(parse_datetime_any("Monday, January 2, 2024"), Err(DateParseError::Invalid));
    assert_eq!(parse_datetime_any("January 2, 2024 extra"), Err(DateParseError::Invalid));
}
