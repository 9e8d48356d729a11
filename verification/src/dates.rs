//! Calendar dates.
//!
//! A date is held as plain year, month and day numbers.  Day-marker text of
//! the form `YYYY-MM-DD` is parsed by verified code; whether the day exists
//! in the proleptic Gregorian calendar, and which ISO 8601 week it falls in,
//! is answered by chrono behind trusted wrappers.

use vstd::prelude::*;
use chrono::Datelike;
use crate::text::{is_ascii_digit, digit_val, digit_char};

verus! {

/// A calendar date, year 0 through 9999.
#[derive(Clone, Copy, Debug, PartialEq, Eq, Structural)]
pub struct Date {
    pub year: u32,
    pub month: u32,
    pub day: u32,
}

pub open spec fn is_leap_year(y: int) -> bool {
    (y % 4 == 0 && y % 100 != 0) || y % 400 == 0
}

pub open spec fn days_in_month(y: int, m: int) -> int {
    if m == 2 {
        if is_leap_year(y) {
            29
        } else {
            28
        }
    } else if m == 4 || m == 6 || m == 9 || m == 11 {
        30
    } else {
        31
    }
}

/// The day exists in the proleptic Gregorian calendar (year restricted to
/// four digits).
pub open spec fn valid_ymd(y: int, m: int, d: int) -> bool {
    0 <= y <= 9999 && 1 <= m <= 12 && 1 <= d <= days_in_month(y, m)
}

impl Date {
    pub open spec fn wf(self) -> bool {
        valid_ymd(self.year as int, self.month as int, self.day as int)
    }
}

/// `a` is on or before `b` in calendar order.
pub open spec fn date_le_spec(a: Date, b: Date) -> bool {
    a.year < b.year || (a.year == b.year && (a.month < b.month || (a.month == b.month
        && a.day <= b.day)))
}

pub fn date_le(a: &Date, b: &Date) -> (r: bool)
    ensures
        r == date_le_spec(*a, *b),
{
    a.year < b.year || (a.year == b.year && (a.month < b.month || (a.month == b.month
        && a.day <= b.day)))
}

/// Relies on chrono's `NaiveDate::from_ymd_opt`: for a four-digit year it
/// returns `Some` exactly when the calendar day exists (month 1 to 12, day
/// within the month's length, with the proleptic Gregorian leap-year rule).
#[verifier::external_body]
fn chrono_date_exists(y: u32, m: u32, d: u32) -> (r: bool)
    requires
        y <= 9999,
    ensures
        r == valid_ymd(y as int, m as int, d as int),
{
    chrono::NaiveDate::from_ymd_opt(y as i32, m, d).is_some()
}

/// The ISO 8601 week number of a calendar date, as chrono computes it.  A
/// function of the date alone; between 1 and 53.
pub uninterp spec fn iso_week_num(y: int, m: int, d: int) -> int;

/// Relies on chrono's `Datelike::iso_week` for `NaiveDate`: the ISO 8601
/// week number of the date, between 1 and 53, a function of the date alone.
#[verifier::external_body]
fn chrono_iso_week(y: u32, m: u32, d: u32) -> (r: u32)
    requires
        y <= 9999,
        valid_ymd(y as int, m as int, d as int),
    ensures
        r == iso_week_num(y as int, m as int, d as int),
        1 <= r <= 53,
{
    match chrono::NaiveDate::from_ymd_opt(y as i32, m, d) {
        Some(date) => date.iso_week().week(),
        None => 1,
    }
}

/// The ISO 8601 week-based year of a calendar date, as chrono computes it.
/// A function of the date alone; within one of the calendar year.
pub uninterp spec fn iso_year_num(y: int, m: int, d: int) -> int;

/// Relies on chrono's `Datelike::iso_week` for `NaiveDate`: the ISO 8601
/// week-based year of the date, a function of the date alone.  Its source
/// shows it is the calendar year, the year before, or the year after.
#[verifier::external_body]
fn chrono_iso_year(y: u32, m: u32, d: u32) -> (r: i32)
    requires
        y <= 9999,
        valid_ymd(y as int, m as int, d as int),
    ensures
        r == iso_year_num(y as int, m as int, d as int),
        y as int - 1 <= r as int <= y as int + 1,
{
    match chrono::NaiveDate::from_ymd_opt(y as i32, m, d) {
        Some(date) => date.iso_week().year(),
        None => 0,
    }
}

/// The calendar day exists.
pub fn date_exists(y: u32, m: u32, d: u32) -> (r: bool)
    requires
        y <= 9999,
    ensures
        r == valid_ymd(y as int, m as int, d as int),
{
    chrono_date_exists(y, m, d)
}

/// The ISO 8601 week number of a well-formed date.
pub fn iso_week_of(date: &Date) -> (r: u32)
    requires
        date.wf(),
    ensures
        r == iso_week_num(date.year as int, date.month as int, date.day as int),
        1 <= r <= 53,
{
    chrono_iso_week(date.year, date.month, date.day)
}

/// The ISO 8601 week-based year of a well-formed date.
pub fn iso_year_of(date: &Date) -> (r: i32)
    requires
        date.wf(),
    ensures
        r == iso_year_num(date.year as int, date.month as int, date.day as int),
        date.year as int - 1 <= r as int <= date.year as int + 1,
{
    chrono_iso_year(date.year, date.month, date.day)
}

// ---------------------------------------------------------------------------
// `YYYY-MM-DD` text
// ---------------------------------------------------------------------------

/// The first ten characters of `s` have the shape `DDDD-DD-DD` with ASCII
/// digits.
pub open spec fn date_shape(s: Seq<char>) -> bool {
    s.len() >= 10 && is_ascii_digit(s[0]) && is_ascii_digit(s[1]) && is_ascii_digit(s[2])
        && is_ascii_digit(s[3]) && s[4] == '-' && is_ascii_digit(s[5]) && is_ascii_digit(s[6])
        && s[7] == '-' && is_ascii_digit(s[8]) && is_ascii_digit(s[9])
}

pub open spec fn shaped_year(s: Seq<char>) -> int {
    digit_val(s[0]) * 1000 + digit_val(s[1]) * 100 + digit_val(s[2]) * 10 + digit_val(s[3])
}

pub open spec fn shaped_month(s: Seq<char>) -> int {
    digit_val(s[5]) * 10 + digit_val(s[6])
}

pub open spec fn shaped_day(s: Seq<char>) -> int {
    digit_val(s[8]) * 10 + digit_val(s[9])
}

/// `s` is exactly a well-formed `YYYY-MM-DD` naming an existing calendar
/// day.
pub open spec fn day_date_ok(s: Seq<char>) -> bool {
    s.len() == 10 && date_shape(s) && valid_ymd(shaped_year(s), shaped_month(s), shaped_day(s))
}

/// The date named by `s`; meaningful when `day_date_ok(s)`.
pub open spec fn date_of(s: Seq<char>) -> Date {
    Date { year: shaped_year(s) as u32, month: shaped_month(s) as u32, day: shaped_day(s) as u32 }
}

/// Whether the first ten characters of `v` have the `DDDD-DD-DD` shape.
pub fn date_shape_at_start(v: &Vec<char>) -> (r: bool)
    ensures
        r == date_shape(v@),
{
    v.len() >= 10 && digit_char(v[0]) && digit_char(v[1]) && digit_char(v[2]) && digit_char(v[3])
        && v[4] == '-' && digit_char(v[5]) && digit_char(v[6]) && v[7] == '-' && digit_char(v[8])
        && digit_char(v[9])
}

/// Parse `v` as an exact `YYYY-MM-DD` calendar date.  `None` when the text
/// has the wrong shape or names no existing day.
pub fn parse_day_date(v: &Vec<char>) -> (r: Option<Date>)
    ensures
        day_date_ok(v@) ==> r == Some(date_of(v@)),
        !day_date_ok(v@) ==> r is None,
        r is Some ==> r->0.wf(),
{
    if v.len() != 10 || !date_shape_at_start(v) {
        return None;
    }
    let y: u32 = (v[0] as u32 - 0x30) * 1000 + (v[1] as u32 - 0x30) * 100 + (v[2] as u32 - 0x30)
        * 10 + (v[3] as u32 - 0x30);
    let m: u32 = (v[5] as u32 - 0x30) * 10 + (v[6] as u32 - 0x30);
    let d: u32 = (v[8] as u32 - 0x30) * 10 + (v[9] as u32 - 0x30);
    if date_exists(y, m, d) {
        Some(Date { year: y, month: m, day: d })
    } else {
        None
    }
}

} // verus!
