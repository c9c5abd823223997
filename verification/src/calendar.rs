//! Calendar dates and the serial day numbers of spreadsheets.

use chrono::{Datelike, NaiveDate, TimeDelta};
use vstd::prelude::*;
use vstd::string::StringExecFns;

use crate::text::{decimal, push_two_columns, two_columns};

verus! {

broadcast use vstd::string::group_string_axioms;

/// The first year that a date can have.
pub const FIRST_YEAR: i32 = -262_143;

/// The last year that a date can have.
pub const LAST_YEAR: i32 = 262_142;

/// The most days that a time span can have, forwards or backwards.
pub const MAX_SPAN_DAYS: i64 = 106_751_991_167;

/// A day of the proleptic Gregorian calendar.
#[derive(Debug, Clone, Copy, PartialEq, Eq)]
pub struct CivilDate {
    pub year: i32,
    pub month: u32,
    pub day: u32,
}

pub open spec fn is_leap(year: int) -> bool {
    year % 4 == 0 && (year % 100 != 0 || year % 400 == 0)
}

pub open spec fn days_in_year(year: int) -> int {
    if is_leap(year) {
        366
    } else {
        365
    }
}

pub open spec fn days_in_month(year: int, month: int) -> int {
    if month == 2 {
        if is_leap(year) {
            29
        } else {
            28
        }
    } else if month == 4 || month == 6 || month == 9 || month == 11 {
        30
    } else {
        31
    }
}

/// The days of the years from 1 up to the one before `year`, negative for earlier years.
pub open spec fn days_before_year(year: int) -> int {
    365 * (year - 1) + (year - 1) / 4 - (year - 1) / 100 + (year - 1) / 400
}

/// The days of the months before `month` in a year.
pub open spec fn days_before_month(year: int, month: int) -> int
    decreases month,
{
    if month <= 1 {
        0
    } else {
        days_before_month(year, month - 1) + days_in_month(year, month - 1)
    }
}

impl CivilDate {
    /// Whether the calendar has this day, in a year that is supported.
    pub open spec fn valid(self) -> bool {
        &&& FIRST_YEAR <= self.year <= LAST_YEAR
        &&& 1 <= self.month <= 12
        &&& 1 <= self.day <= days_in_month(self.year as int, self.month as int)
    }

    /// The number of the day, where the first day of year 1 has number 1.
    pub open spec fn day_number(self) -> int {
        days_before_year(self.year as int) + days_before_month(self.year as int, self.month as int)
            + self.day
    }
}

/// The number of the first supported day.
pub open spec fn first_day() -> int {
    days_before_year(FIRST_YEAR as int) + 1
}

/// The number of the last supported day.
pub open spec fn last_day() -> int {
    days_before_year(LAST_YEAR + 1)
}

/// The supported date with this day number.
pub open spec fn date_of(day_number: int) -> CivilDate {
    choose|date: CivilDate| date.valid() && #[trigger] date.day_number() == day_number
}

/// A number with zeros in front of it up to four digits.
pub open spec fn four_digits(n: nat) -> Seq<char> {
    if decimal(n).len() < 4 {
        Seq::new((4 - decimal(n).len()) as nat, |i: int| '0') + decimal(n)
    } else {
        decimal(n)
    }
}

/// A year in at least four digits, with a sign unless it has just four.
pub open spec fn year_text(year: int) -> Seq<char> {
    if 0 <= year <= 9999 {
        four_digits(year as nat)
    } else if year < 0 {
        seq!['-'] + four_digits((-year) as nat)
    } else {
        seq!['+'] + four_digits(year as nat)
    }
}

/// A date as year, month and day.
pub open spec fn date_text(date: CivilDate) -> Seq<char> {
    year_text(date.year as int).push('-') + two_columns(date.month as int).push('-') + two_columns(
        date.day as int,
    )
}

/// A date some days later, or earlier if `days` is negative: `NaiveDate::checked_add_signed` with
/// the `TimeDelta` that `TimeDelta::days` makes, which panics beyond `MAX_SPAN_DAYS`. The
/// sum is the calendar day that lies so many days from `date`, and missing exactly if that day
/// is before the first or after the last day that a `NaiveDate` can have.
#[verifier::external_body]
fn checked_add_days(date: CivilDate, days: i64) -> (sum: Option<CivilDate>)
    requires
        date.valid(),
        -MAX_SPAN_DAYS <= days <= MAX_SPAN_DAYS,
    ensures
        sum is Some <==> first_day() <= date.day_number() + days <= last_day(),
        sum matches Some(sum) ==> sum.valid() && sum.day_number() == date.day_number() + days,
{
    let start = NaiveDate::from_ymd_opt(date.year, date.month, date.day).unwrap();
    match start.checked_add_signed(TimeDelta::days(days)) {
        Some(sum) => Some(CivilDate { year: sum.year(), month: sum.month(), day: sum.day() }),
        None => None,
    }
}

/// The text of a date: what `NaiveDate` writes through `Display`, which is the year in four
/// digits (with a sign if it needs more or is negative), the month and the day in two, joined
/// by hyphens.
#[verifier::external_body]
fn display_date(date: CivilDate) -> (text: String)
    requires
        date.valid(),
    ensures
        text@ == date_text(date),
{
    NaiveDate::from_ymd_opt(date.year, date.month, date.day).unwrap().to_string()
}

/// The text of a date after a pattern: `NaiveDate::format` for the pattern `%Y-%m-%d`, which
/// writes the same as `Display`. Nothing is said of other patterns.
#[verifier::external_body]
fn format_date(date: CivilDate, pattern: &str) -> (text: String)
    requires
        date.valid(),
        pattern@ == "%Y-%m-%d"@,
    ensures
        text@ == date_text(date),
{
    NaiveDate::from_ymd_opt(date.year, date.month, date.day).unwrap().format(pattern).to_string()
}

/// The day with serial number 0.
pub open spec fn epoch() -> CivilDate {
    CivilDate { year: 1899, month: 12, day: 31 }
}

/// The days from the epoch to the day with serial number `serial`. Spreadsheets count a
/// 29 February 1900 that never was, so numbers beyond it are one too high.
pub open spec fn adjusted(serial: int) -> int {
    if serial > 60 {
        serial - 1
    } else {
        serial
    }
}

/// The day number of the day with serial number `serial`.
pub open spec fn serial_day(serial: int) -> int {
    epoch().day_number() + adjusted(serial)
}

/// Whether the day with serial number `serial` is a supported date.
pub open spec fn serial_is_date(serial: int) -> bool {
    first_day() <= serial_day(serial) <= last_day()
}

/// Whether a time span can reach the day with serial number `serial` from the epoch.
pub open spec fn serial_in_span(serial: int) -> bool {
    -MAX_SPAN_DAYS <= adjusted(serial) <= MAX_SPAN_DAYS
}

/// The date with serial number `serial`.
pub open spec fn serial_date(serial: int) -> CivilDate {
    date_of(serial_day(serial))
}

/// The quotient of a division that rounds towards zero.
pub open spec fn quotient(a: int, b: int) -> int {
    if a < 0 {
        -((-a) / b)
    } else {
        a / b
    }
}

/// The remainder of a division that rounds towards zero.
pub open spec fn remainder(a: int, b: int) -> int {
    a - b * quotient(a, b)
}

/// Seconds as hours, minutes and seconds, each in at least two columns and with its own sign.
pub open spec fn clock_text(seconds: int) -> Seq<char> {
    two_columns(quotient(seconds, 3600)).push(':') + two_columns(
        quotient(remainder(seconds, 3600), 60),
    ).push(':') + two_columns(remainder(seconds, 60))
}

/// Appends seconds as hours, minutes and seconds to `out`.
pub fn push_clock(out: &mut String, seconds: i64)
    ensures
        final(out)@ == old(out)@ + clock_text(seconds as int),
{
    let hours: i64 = seconds / 3600;
    let minutes: i64 = (seconds % 3600) / 60;
    push_two_columns(out, hours);
    out.push(':');
    push_two_columns(out, minutes);
    out.push(':');
    push_two_columns(out, seconds % 60);
}

/// A year has the days that lie between it and the next.
proof fn lemma_year_length(year: int)
    ensures
        days_before_year(year + 1) == days_before_year(year) + days_in_year(year),
{
}

/// A later year starts after the whole of an earlier one.
proof fn lemma_years_in_order(earlier: int, later: int)
    requires
        earlier < later,
    ensures
        days_before_year(earlier) + days_in_year(earlier) <= days_before_year(later),
    decreases later - earlier,
{
    lemma_year_length(earlier);
    if earlier + 1 < later {
        lemma_years_in_order(earlier + 1, later);
    }
}

/// The months of a year follow each other and fill it.
proof fn lemma_months_in_order(year: int, earlier: int, later: int)
    requires
        1 <= earlier <= later <= 12,
    ensures
        earlier < later ==> days_before_month(year, earlier) + days_in_month(year, earlier)
            <= days_before_month(year, later),
        0 <= days_before_month(year, earlier),
        days_before_month(year, later) + days_in_month(year, later) <= days_in_year(year),
{
    reveal_with_fuel(days_before_month, 13);
}

/// A later date of the same or a later year has a higher day number.
pub proof fn lemma_dates_in_order(earlier: CivilDate, later: CivilDate)
    requires
        earlier.valid(),
        later.valid(),
        earlier.year < later.year || earlier.year == later.year && (earlier.month < later.month
            || earlier.month == later.month && earlier.day < later.day),
    ensures
        earlier.day_number() < later.day_number(),
{
    let year = earlier.year as int;
    if earlier.year < later.year {
        lemma_years_in_order(year, later.year as int);
        lemma_months_in_order(year, earlier.month as int, earlier.month as int);
        lemma_months_in_order(later.year as int, later.month as int, later.month as int);
    } else if earlier.month < later.month {
        lemma_months_in_order(year, earlier.month as int, later.month as int);
    }
}

/// No two dates have the same day number.
pub proof fn lemma_day_number_is_unique(a: CivilDate, b: CivilDate)
    requires
        a.valid(),
        b.valid(),
        a.day_number() == b.day_number(),
    ensures
        a == b,
{
    if a.year < b.year || a.year == b.year && (a.month < b.month || a.month == b.month && a.day
        < b.day) {
        lemma_dates_in_order(a, b);
    } else if a != b {
        lemma_dates_in_order(b, a);
    }
}

/// A day number from the first day of a year on, and before that of the year after the last, falls
/// into some year between them.
proof fn lemma_day_has_a_year(first: int, last: int, day_number: int) -> (year: int)
    requires
        first <= last,
        days_before_year(first) < day_number <= days_before_year(last + 1),
    ensures
        first <= year <= last,
        days_before_year(year) < day_number <= days_before_year(year) + days_in_year(year),
    decreases last - first,
{
    lemma_year_length(last);
    if day_number > days_before_year(last) {
        last
    } else {
        lemma_day_has_a_year(first, last - 1, day_number)
    }
}

/// A day of a year falls into one of its months.
proof fn lemma_day_has_a_month(year: int, day: int) -> (month: int)
    requires
        1 <= day <= days_in_year(year),
    ensures
        1 <= month <= 12,
        1 <= day - days_before_month(year, month) <= days_in_month(year, month),
{
    reveal_with_fuel(days_before_month, 13);
    if day <= days_before_month(year, 2) {
        1
    } else if day <= days_before_month(year, 3) {
        2
    } else if day <= days_before_month(year, 4) {
        3
    } else if day <= days_before_month(year, 5) {
        4
    } else if day <= days_before_month(year, 6) {
        5
    } else if day <= days_before_month(year, 7) {
        6
    } else if day <= days_before_month(year, 8) {
        7
    } else if day <= days_before_month(year, 9) {
        8
    } else if day <= days_before_month(year, 10) {
        9
    } else if day <= days_before_month(year, 11) {
        10
    } else if day <= days_before_month(year, 12) {
        11
    } else {
        12
    }
}

/// Every day number from the first supported day to the last has a date, and the dates have no
/// other day numbers.
pub proof fn law_supported_days_have_dates(day_number: int)
    ensures
        first_day() <= day_number <= last_day() ==> date_of(day_number).valid() && date_of(
            day_number,
        ).day_number() == day_number,
        forall|date: CivilDate| #[trigger]
            date.day_number() == day_number && date.valid() ==> first_day() <= day_number
                <= last_day(),
{
    if first_day() <= day_number <= last_day() {
        let year = lemma_day_has_a_year(FIRST_YEAR as int, LAST_YEAR as int, day_number);
        let rest = day_number - days_before_year(year);
        let month = lemma_day_has_a_month(year, rest);
        let day = rest - days_before_month(year, month);
        let date = CivilDate { year: year as i32, month: month as u32, day: day as u32 };
        assert(date.valid() && date.day_number() == day_number);
    }
    assert forall|date: CivilDate| #[trigger]
        date.day_number() == day_number && date.valid() implies first_day() <= day_number
        <= last_day() by {
        let year = date.year as int;
        lemma_months_in_order(year, date.month as int, date.month as int);
        if year > FIRST_YEAR {
            lemma_years_in_order(FIRST_YEAR as int, year);
        }
        lemma_years_in_order(year, LAST_YEAR + 1);
    }
}

/// A date is the one that its day number gives.
pub proof fn lemma_date_of(date: CivilDate)
    requires
        date.valid(),
    ensures
        date_of(date.day_number()) == date,
{
    lemma_day_number_is_unique(date_of(date.day_number()), date);
}

/// The date with serial number `serial`, if it is a supported one.
pub fn date_of_serial(serial: i64) -> (date: Option<CivilDate>)
    requires
        serial_in_span(serial as int),
    ensures
        date is Some <==> serial_is_date(serial as int),
        date matches Some(date) ==> date.valid() && date == serial_date(serial as int),
{
    let days: i64 = if serial > 60 {
        serial - 1
    } else {
        serial
    };
    let date = checked_add_days(CivilDate { year: 1899, month: 12, day: 31 }, days);
    proof {
        if let Some(date) = date {
            lemma_date_of(date);
        }
    }
    date
}

/// Whether a time span can reach the day with serial number `serial` from the epoch.
pub fn is_serial_in_span(serial: i64) -> (reached: bool)
    ensures
        reached == serial_in_span(serial as int),
{
    if serial > 60 {
        serial - 1 <= MAX_SPAN_DAYS
    } else {
        -MAX_SPAN_DAYS <= serial
    }
}

/// Appends a date to `out`.
pub fn push_date(out: &mut String, date: CivilDate)
    requires
        date.valid(),
    ensures
        final(out)@ == old(out)@ + date_text(date),
{
    let text = display_date(date);
    out.append(text.as_str());
}

/// Appends a date to `out` as the pattern `%Y-%m-%d` gives it.
pub fn push_formatted_date(out: &mut String, date: CivilDate)
    requires
        date.valid(),
    ensures
        final(out)@ == old(out)@ + date_text(date),
{
    let text = format_date(date, "%Y-%m-%d");
    out.append(text.as_str());
}

/// Every supported date is within a time span of the epoch.
pub proof fn lemma_dates_are_in_span(serial: int)
    requires
        serial_is_date(serial),
    ensures
        serial_in_span(serial),
{
    reveal_with_fuel(days_before_month, 13);
}

}
