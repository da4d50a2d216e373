//! Calendar dates and months, and the reading of dates from ledger text.
//!
//! Dates are read by the `chrono` crate in four conventions, tried in a
//! fixed order. What `chrono` makes of a text is named here, not described:
//! the contracts say which convention wins, and that a date that was read
//! is a calendar date.

use vstd::prelude::*;
use chrono::Datelike;
use crate::text::{int_text, nat_text, push_int, push_nat, string_of};

verus! {

/// A day of the proleptic Gregorian calendar.
#[derive(Clone, Copy, Debug, PartialEq, Eq, Structural)]
pub struct CalendarDate {
    pub year: i32,
    pub month: u32,
    pub day: u32,
}

/// A month of a year: the key under which transactions are grouped.
#[derive(Clone, Copy, Debug, PartialEq, Eq, Structural)]
pub struct CalendarMonth {
    pub year: i32,
    pub month: u32,
}

/// Why a text could not be read as a date.
#[derive(Clone, Copy, Debug, PartialEq, Eq, Structural)]
pub enum DateParseError {
    /// The text follows none of the supported conventions.
    Invalid,
}

/// "Month Day, Year", as in "January 2, 2024".
pub const MONTH_DAY_YEAR: &'static str = "%B %d, %Y";

/// "Weekday, Month Day, Year", as in "Tuesday, January 2, 2024".
pub const WEEKDAY_MONTH_DAY_YEAR: &'static str = "%A, %B %d, %Y";

/// An ISO 8601 timestamp with an offset.
pub const ISO_8601: &'static str = "%+";

/// What `chrono::NaiveDate::parse_from_str` makes of `text` under `format`:
/// the year, month and day of the date, or `None` where it reports an error.
pub uninterp spec fn naive_date_parse(text: Seq<char>, format: Seq<char>) -> Option<
    (int, int, int),
>;

/// What `chrono::DateTime::parse_from_rfc3339` makes of `text`: the year,
/// month and day in UTC of the instant, or `None` where it reports an error.
pub uninterp spec fn rfc3339_parse(text: Seq<char>) -> Option<(int, int, int)>;

/// What `chrono::DateTime::parse_from_str` makes of `text` under `format`:
/// the year, month and day in UTC of the instant, or `None` where it reports
/// an error.
pub uninterp spec fn offset_datetime_parse(text: Seq<char>, format: Seq<char>) -> Option<
    (int, int, int),
>;

impl CalendarDate {
    /// The month lies in 1..=12 and the day in 1..=31.
    pub open spec fn valid(self) -> bool {
        1 <= self.month <= 12 && 1 <= self.day <= 31
    }

    /// The year, month and day as mathematical integers.
    pub open spec fn parts(self) -> (int, int, int) {
        (self.year as int, self.month as int, self.day as int)
    }

    /// The month in which the date falls.
    pub open spec fn month_of(self) -> CalendarMonth {
        CalendarMonth { year: self.year, month: self.month }
    }

    /// The month in which the date falls.
    pub fn calendar_month(&self) -> (m: CalendarMonth)
        ensures
            m == self.month_of(),
    {
        CalendarMonth { year: self.year, month: self.month }
    }
}

impl CalendarMonth {
    /// The month lies in 1..=12.
    pub open spec fn valid(self) -> bool {
        1 <= self.month <= 12
    }

    /// The number of months from January of year 0 to this month. Months
    /// are ordered by it.
    pub open spec fn index(self) -> int {
        self.year * 12 + self.month - 1
    }

    /// The month with the given index.
    pub open spec fn at(index: int) -> CalendarMonth {
        CalendarMonth { year: (index / 12) as i32, month: (index % 12 + 1) as u32 }
    }

    /// The key under which the month is reported: year, hyphen, month
    /// number, neither padded.
    pub open spec fn key(self) -> Seq<char> {
        int_text(self.year as int) + seq!['-'] + nat_text(self.month as nat)
    }

    /// A month, if `month` lies in 1..=12.
    pub fn new(year: i32, month: u32) -> (made: Option<CalendarMonth>)
        ensures
            made is Some <==> 1 <= month <= 12,
            made matches Some(m) ==> m.year == year && m.month == month,
    {
        if 1 <= month && month <= 12 {
            Some(CalendarMonth { year, month })
        } else {
            None
        }
    }

    /// Whether this month is `other` or comes before it.
    pub fn le(&self, other: &CalendarMonth) -> (b: bool)
        requires
            self.valid(),
            other.valid(),
        ensures
            b == (self.index() <= other.index()),
    {
        self.year < other.year || (self.year == other.year && self.month <= other.month)
    }

    /// The month after this one.
    pub fn next(&self) -> (following: CalendarMonth)
        requires
            self.valid(),
            !(self.year == i32::MAX && self.month == 12),
        ensures
            following.valid(),
            following.index() == self.index() + 1,
            following == CalendarMonth::at(self.index() + 1),
    {
        if self.month == 12 {
            CalendarMonth { year: self.year + 1, month: 1 }
        } else {
            CalendarMonth { year: self.year, month: self.month + 1 }
        }
    }

    /// The key of the month as a string, such as "2024-1".
    pub fn label(&self) -> (text: String)
        ensures
            text@ == self.key(),
    {
        let mut out: Vec<char> = Vec::new();
        push_int(&mut out, self.year as i64);
        out.push('-');
        push_nat(&mut out, self.month as u64);
        assert(out@ =~= self.key());
        string_of(&out)
    }
}

/// A valid month is the month at its own index, so that two valid months
/// with the same index are the same month.
pub proof fn lemma_month_at_index(m: CalendarMonth)
    requires
        m.valid(),
    ensures
        CalendarMonth::at(m.index()) == m,
{
}

/// The months from `first` to `last`, both included, in ascending order;
/// empty if `last` comes before `first`.
pub open spec fn month_range(first: CalendarMonth, last: CalendarMonth) -> Seq<CalendarMonth> {
    Seq::new(
        if last.index() < first.index() {
            0nat
        } else {
            (last.index() - first.index() + 1) as nat
        },
        |k: int| CalendarMonth::at(first.index() + k),
    )
}

/// The keys of a sequence of months.
pub open spec fn month_keys(months: Seq<CalendarMonth>) -> Seq<Seq<char>> {
    months.map_values(|m: CalendarMonth| m.key())
}

/// The date, if any, that the three numbers stand for.
pub open spec fn date_from_parts(parts: Option<(int, int, int)>) -> Option<CalendarDate> {
    match parts {
        Some((year, month, day)) => Some(
            CalendarDate { year: year as i32, month: month as u32, day: day as u32 },
        ),
        None => None,
    }
}

/// The date that a text stands for: the first of the four conventions that
/// reads it decides.
pub open spec fn date_of_text(text: Seq<char>) -> Option<CalendarDate> {
    if naive_date_parse(text, MONTH_DAY_YEAR@) is Some {
        date_from_parts(naive_date_parse(text, MONTH_DAY_YEAR@))
    } else if naive_date_parse(text, WEEKDAY_MONTH_DAY_YEAR@) is Some {
        date_from_parts(naive_date_parse(text, WEEKDAY_MONTH_DAY_YEAR@))
    } else if rfc3339_parse(text) is Some {
        date_from_parts(rfc3339_parse(text))
    } else {
        date_from_parts(offset_datetime_parse(text, ISO_8601@))
    }
}

/// The month under which a text's date falls, if it has a date.
pub open spec fn month_of_text(text: Seq<char>) -> Option<CalendarMonth> {
    match date_of_text(text) {
        Some(d) => Some(d.month_of()),
        None => None,
    }
}

/// Calls `chrono::NaiveDate::parse_from_str` and takes the year, month and
/// day of the date with `Datelike`. The date is named, not described;
/// `Datelike` documents the ranges of month and day.
#[verifier::external_body]
fn naive_date_from_str(text: &str, format: &str) -> (parsed: Option<CalendarDate>)
    ensures
        parsed is Some <==> naive_date_parse(text@, format@) is Some,
        parsed matches Some(d) ==> naive_date_parse(text@, format@) == Some(d.parts()) && d.valid(),
{
    match chrono::NaiveDate::parse_from_str(text, format) {
        Ok(d) => Some(CalendarDate { year: d.year(), month: d.month(), day: d.day() }),
        Err(_) => None,
    }
}

/// Calls `chrono::DateTime::parse_from_rfc3339` and takes the year, month
/// and day of the instant in UTC with `Datelike`. The date is named, not
/// described; `Datelike` documents the ranges of month and day.
#[verifier::external_body]
fn utc_date_from_rfc3339(text: &str) -> (parsed: Option<CalendarDate>)
    ensures
        parsed is Some <==> rfc3339_parse(text@) is Some,
        parsed matches Some(d) ==> rfc3339_parse(text@) == Some(d.parts()) && d.valid(),
{
    match chrono::DateTime::parse_from_rfc3339(text) {
        Ok(at) => {
            let utc = at.to_utc();
            Some(CalendarDate { year: utc.year(), month: utc.month(), day: utc.day() })
        },
        Err(_) => None,
    }
}

/// Calls `chrono::DateTime::parse_from_str` and takes the year, month and
/// day of the instant in UTC with `Datelike`. The date is named, not
/// described; `Datelike` documents the ranges of month and day.
#[verifier::external_body]
fn utc_date_from_str(text: &str, format: &str) -> (parsed: Option<CalendarDate>)
    ensures
        parsed is Some <==> offset_datetime_parse(text@, format@) is Some,
        parsed matches Some(d) ==> offset_datetime_parse(text@, format@) == Some(d.parts())
            && d.valid(),
{
    match chrono::DateTime::parse_from_str(text, format) {
        Ok(at) => {
            let utc = at.to_utc();
            Some(CalendarDate { year: utc.year(), month: utc.month(), day: utc.day() })
        },
        Err(_) => None,
    }
}

/// Calls `chrono::Local::now` and takes the year and month of the local
/// date with `Datelike`. Nothing is promised of the answer but that it is a
/// month: it depends on the clock and the time zone of the machine.
#[verifier::external_body]
pub(crate) fn current_local_month() -> (today: CalendarMonth)
    ensures
        today.valid(),
{
    let now = chrono::Local::now();
    CalendarMonth { year: now.year(), month: now.month() }
}

/// Reads a date in any of the four supported conventions: "Month Day,
/// Year", "Weekday, Month Day, Year", an RFC 3339 timestamp, an ISO 8601
/// timestamp. The first that reads the text decides; timestamps give their
/// date in UTC.
pub fn parse_datetime_any(datetime_str: &str) -> (parsed: Result<CalendarDate, DateParseError>)
    ensures
        parsed is Ok <==> date_of_text(datetime_str@) is Some,
        parsed matches Ok(d) ==> date_of_text(datetime_str@) == Some(d) && d.valid(),
        parsed is Err ==> parsed == Err::<CalendarDate, DateParseError>(DateParseError::Invalid),
{
    if let Some(d) = naive_date_from_str(datetime_str, MONTH_DAY_YEAR) {
        return Ok(d);
    }
    if let Some(d) = naive_date_from_str(datetime_str, WEEKDAY_MONTH_DAY_YEAR) {
        return Ok(d);
    }
    if let Some(d) = utc_date_from_rfc3339(datetime_str) {
        return Ok(d);
    }
    if let Some(d) = utc_date_from_str(datetime_str, ISO_8601) {
        return Ok(d);
    }
    Err(DateParseError::Invalid)
}

/// The months from `start` to `end`, both included, in ascending order.
pub fn months_between(start: CalendarMonth, end: CalendarMonth) -> (months: Vec<CalendarMonth>)
    requires
        start.valid(),
        end.valid(),
    ensures
        months@ == month_range(start, end),
{
    let mut months: Vec<CalendarMonth> = Vec::new();
    if !start.le(&end) {
        assert(months@ =~= month_range(start, end));
        return months;
    }
    let mut current = start;
    proof {
        lemma_month_at_index(start);
    }
    loop
        invariant
            start.valid(),
            end.valid(),
            current.valid(),
            start.index() <= current.index() <= end.index(),
            current == CalendarMonth::at(current.index()),
            months@ == month_range(start, end).take(current.index() - start.index()),
        decreases end.index() - current.index(),
    {
        months.push(current);
        assert(months@ =~= month_range(start, end).take(current.index() - start.index() + 1));
        if current.year == end.year && current.month == end.month {
            assert(months@ =~= month_range(start, end));
            return months;
        }
        current = current.next();
    }
}

/// The keys of the months from `start` to `end`, both included, in
/// ascending order.
pub fn get_months_str_by_range(start: CalendarMonth, end: CalendarMonth) -> (keys: Vec<String>)
    requires
        start.valid(),
        end.valid(),
    ensures
        keys.deep_view() == month_keys(month_range(start, end)),
{
    let months = months_between(start, end);
    let mut keys: Vec<String> = Vec::new();
    let mut i: usize = 0;
    while i < months.len()
        invariant
            i <= months.len(),
            months@ == month_range(start, end),
            keys.len() == i,
            forall|k: int| 0 <= k < i ==> (#[trigger] keys@[k])@ == months@[k].key(),
        decreases months.len() - i,
    {
        keys.push(months[i].label());
        i = i + 1;
    }
    assert(keys.deep_view() =~= month_keys(month_range(start, end)));
    keys
}

} // verus!
