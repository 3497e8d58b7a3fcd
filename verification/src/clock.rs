//! Timestamps as the user's clock and calendar show them.

use chrono::{Datelike, TimeZone, Timelike};
use vstd::prelude::*;

use crate::text::digit;

verus! {

/// The last timestamp whose local time the calendar covers in every time zone, in milliseconds
/// since the start of 1970.
pub const MAX_TIMESTAMP: u64 = 8_210_266_790_399_999;

/// The last day that the calendar covers, counted from the first day of year 1.
pub const MAX_DAY: i32 = 95_745_399;

/// A local time: the day, where 1 is the first day of year 1, and the second of that day.
#[derive(Clone, Copy, Debug, PartialEq, Eq, Structural)]
pub struct LocalTime {
    pub day: i32,
    pub second: u32,
}

impl LocalTime {
    /// Whether the day and the second exist.
    pub open spec fn wf(self) -> bool {
        1 <= self.day <= MAX_DAY && self.second < 86_400
    }

    /// Whether this is the time of `timestamp` in some time zone: less than a day away from UTC.
    pub open spec fn is_time_of(self, timestamp: u64) -> bool {
        &&& self.wf()
        &&& -86_400 < (self.day - 719_163) * 86_400 + self.second - timestamp / 1000 < 86_400
    }
}

/// Calls `chrono::TimeZone::timestamp_millis_opt` for UTC and `chrono::DateTime::with_timezone`
/// for the local time zone of the machine.
///
/// Taken on trust: the result is the time of the timestamp in a time zone less than a day away
/// from UTC, whichever time zone the machine is set to.
#[verifier::external_body]
pub(crate) fn utc_timestamp_msec_to_local(timestamp: u64) -> (local: LocalTime)
    requires
        timestamp <= MAX_TIMESTAMP,
    ensures
        local.is_time_of(timestamp),
{
    let utc = chrono::Utc.timestamp_millis_opt(timestamp as i64).unwrap();
    let local = utc.with_timezone(&chrono::Local).naive_local();
    LocalTime { day: local.num_days_from_ce(), second: local.num_seconds_from_midnight() }
}

/// A number below 100 with two digits.
pub open spec fn two_digits(n: nat) -> Seq<char> {
    seq![digit(n / 10), digit(n % 10)]
}

/// Hours and minutes of a second of the day, as in "07:30 ".
pub open spec fn clock_text(second: nat) -> Seq<char> {
    two_digits(second / 3600) + seq![':'] + two_digits(second / 60 % 60) + seq![' ']
}

/// Calls `chrono::NaiveTime::format` with the format "%R ".
///
/// Taken on trust: hours and minutes appear with two digits each.
#[verifier::external_body]
fn format_clock(second: u32) -> (s: String)
    requires
        second < 86_400,
    ensures
        s@ == clock_text(second as nat),
{
    let time = chrono::NaiveTime::from_num_seconds_from_midnight_opt(second, 0).unwrap();
    time.format("%R ").to_string()
}

/// Whether a year of the Gregorian calendar is a leap year.
pub open spec fn is_leap(year: int) -> bool {
    year % 4 == 0 && (year % 100 != 0 || year % 400 == 0)
}

/// The number of days of a month.
pub open spec fn month_days(year: int, month: int) -> int {
    if month == 2 {
        if is_leap(year) {
            29
        } else {
            28
        }
    } else if month == 4 || month == 6 || month == 9 || month == 11 {
        30
    } else {
        31
    }
}

/// The days of a year before the first of a month.
pub open spec fn days_before_month(year: int, month: int) -> int
    decreases month,
{
    if month <= 1 {
        0
    } else {
        days_before_month(year, month - 1) + month_days(year, month - 1)
    }
}

/// The days of the calendar before the first of January of a year.
pub open spec fn days_before_year(year: int) -> int {
    365 * (year - 1) + (year - 1) / 4 - (year - 1) / 100 + (year - 1) / 400
}

/// Whether a date exists.
pub open spec fn is_date(year: int, month: int, day: int) -> bool {
    1 <= year && 1 <= month <= 12 && 1 <= day <= month_days(year, month)
}

/// The number of a date, where the first of January of year 1 has number 1.
pub open spec fn day_number(year: int, month: int, day: int) -> int {
    days_before_year(year) + days_before_month(year, month) + day
}

/// The year, the month and the day of the month of the day with a given number.
pub open spec fn date_of(n: int) -> (int, int, int) {
    choose|year: int, month: int, day: int| #[trigger]
        is_date(year, month, day) && day_number(year, month, day) == n
}

/// The name of the weekday of a day; the first day of year 1 was a Monday.
pub open spec fn weekday_name(n: int) -> Seq<char> {
    if n % 7 == 1 {
        "Monday"@
    } else if n % 7 == 2 {
        "Tuesday"@
    } else if n % 7 == 3 {
        "Wednesday"@
    } else if n % 7 == 4 {
        "Thursday"@
    } else if n % 7 == 5 {
        "Friday"@
    } else if n % 7 == 6 {
        "Saturday"@
    } else {
        "Sunday"@
    }
}

/// Weekday and date of a day, as in " Friday, 12/31/99 ".
pub open spec fn date_text(n: int) -> Seq<char> {
    let (year, month, day) = date_of(n);
    seq![' '] + weekday_name(n) + seq![',', ' '] + two_digits(month as nat) + seq!['/']
        + two_digits(day as nat) + seq!['/'] + two_digits((year % 100) as nat) + seq![' ']
}

/// Calls `chrono::NaiveDate::format` with the format " %A, %x ".
///
/// Taken on trust: the English name of the weekday, then month, day and year of the date in the
/// Gregorian calendar with two digits each.
#[verifier::external_body]
pub(crate) fn format_date(day: i32) -> (s: String)
    requires
        1 <= day <= MAX_DAY,
    ensures
        s@ == date_text(day as int),
{
    let date = chrono::NaiveDate::from_num_days_from_ce_opt(day).unwrap();
    date.format(" %A, %x ").to_string()
}

/// The clock of a local time.
pub fn clock(local: LocalTime) -> (s: String)
    requires
        local.second < 86_400,
    ensures
        s@ == clock_text(local.second as nat),
{
    format_clock(local.second)
}

/// The clock at which something happened, in the time zone of the machine.
pub fn display_time(timestamp: u64) -> (s: String)
    requires
        timestamp <= MAX_TIMESTAMP,
    ensures
        exists|local: LocalTime| #[trigger]
            local.is_time_of(timestamp) && s@ == clock_text(local.second as nat),
{
    let local = utc_timestamp_msec_to_local(timestamp);
    clock(local)
}

/// Every date is the date of its own number: no two dates share one.
pub proof fn law_date_of_day_number(year: int, month: int, day: int)
    requires
        is_date(year, month, day),
    ensures
        date_of(day_number(year, month, day)) == (year, month, day),
{
    let (y, m, d) = date_of(day_number(year, month, day));
    if y < year || (y == year && (m < month || (m == month && d < day))) {
        lemma_later_date(y, m, d, year, month, day);
    } else if (y, m, d) != (year, month, day) {
        lemma_later_date(year, month, day, y, m, d);
    }
}

proof fn lemma_later_date(y1: int, m1: int, d1: int, y2: int, m2: int, d2: int)
    requires
        is_date(y1, m1, d1),
        is_date(y2, m2, d2),
        y1 < y2 || (y1 == y2 && (m1 < m2 || (m1 == m2 && d1 < d2))),
    ensures
        day_number(y1, m1, d1) < day_number(y2, m2, d2),
{
    reveal_with_fuel(days_before_month, 13);
    if y1 < y2 {
        lemma_years(y1 + 1, y2);
        lemma_next_year(y1);
    }
}

proof fn lemma_next_year(y: int)
    requires
        1 <= y,
    ensures
        days_before_year(y + 1) == days_before_year(y) + (if is_leap(y) {
            366int
        } else {
            365
        }),
{
}

proof fn lemma_years(a: int, b: int)
    requires
        1 <= a <= b,
    ensures
        days_before_year(a) <= days_before_year(b),
    decreases b - a,
{
    if a < b {
        lemma_years(a, b - 1);
        lemma_next_year(b - 1);
    }
}

} // verus!
