//! Calendar days as plain day numbers, and what only the calendar library
//! can compute about them. Days are numbered from 0001-01-01 (day 1) of the
//! proleptic Gregorian calendar, so that day 0 is 0000-12-31.
use vstd::prelude::*;

use chrono::{Datelike, NaiveDate};

verus! {

/// Lowest day number the engine handles.
pub const MIN_DAY: i32 = -90_000_000;

/// Highest day number the engine handles; both bounds lie well inside the
/// calendar library's own range of about 262000 years either side of year 0.
pub const DAY_LIMIT: i32 = 90_000_000;

/// Day number of 9999-12-31, the last day that the interval stream visits.
pub const LAST_DAY: i32 = 3_652_059;

pub open spec fn in_domain(d: int) -> bool {
    MIN_DAY <= d <= DAY_LIMIT
}

/// Calendar year of a day number.
pub uninterp spec fn year_of(d: int) -> int;

/// Month (1 to 12) of a day number.
pub uninterp spec fn month_of(d: int) -> int;

/// Day of the month (1 to 31) of a day number.
pub uninterp spec fn day_of(d: int) -> int;

/// ISO 8601 week number (1 to 53) of a day number.
pub uninterp spec fn iso_week_of(d: int) -> int;

/// Day number of a year, month and day, when that date exists.
pub uninterp spec fn days_of_ymd(y: int, m: int, d: int) -> Option<int>;

/// Day of the week, 0 for Monday up to 6 for Sunday: day 1 was a Monday.
pub open spec fn weekday_of(d: int) -> int {
    (d + 6) % 7
}

/// Relies on chrono's `NaiveDate::from_num_days_from_ce_opt` (defined on the
/// whole domain) and `Datelike::year`.
#[verifier::external_body]
pub(crate) fn year_of_day(d: i32) -> (r: i32)
    requires
        in_domain(d as int),
    ensures
        r == year_of(d as int),
{
    NaiveDate::from_num_days_from_ce_opt(d).unwrap().year()
}

/// Relies on chrono's `NaiveDate::from_num_days_from_ce_opt` and
/// `Datelike::month`, documented to lie in 1 to 12.
#[verifier::external_body]
pub(crate) fn month_of_day(d: i32) -> (r: u32)
    requires
        in_domain(d as int),
    ensures
        r == month_of(d as int),
        1 <= r <= 12,
{
    NaiveDate::from_num_days_from_ce_opt(d).unwrap().month()
}

/// Relies on chrono's `NaiveDate::from_num_days_from_ce_opt` and
/// `Datelike::day`, documented to lie in 1 to 31.
#[verifier::external_body]
pub(crate) fn day_of_day(d: i32) -> (r: u32)
    requires
        in_domain(d as int),
    ensures
        r == day_of(d as int),
        1 <= r <= 31,
{
    NaiveDate::from_num_days_from_ce_opt(d).unwrap().day()
}

/// Relies on chrono's `NaiveDate::from_num_days_from_ce_opt` and
/// `IsoWeek::week`, documented to lie in 1 to 53.
#[verifier::external_body]
pub(crate) fn iso_week_of_day(d: i32) -> (r: u32)
    requires
        in_domain(d as int),
    ensures
        r == iso_week_of(d as int),
        1 <= r <= 53,
{
    NaiveDate::from_num_days_from_ce_opt(d).unwrap().iso_week().week()
}

/// Relies on chrono's `NaiveDate::from_ymd_opt`, which is `None` exactly for
/// dates that do not exist, and `Datelike::num_days_from_ce`.
#[verifier::external_body]
pub(crate) fn day_from_ymd(y: i32, m: u32, d: u32) -> (r: Option<i32>)
    ensures
        r matches Some(x) ==> days_of_ymd(y as int, m as int, d as int) == Some(x as int),
        r is None ==> days_of_ymd(y as int, m as int, d as int) is None,
{
    match NaiveDate::from_ymd_opt(y, m, d) {
        Some(x) => Some(x.num_days_from_ce()),
        None => None,
    }
}

/// Day of the week of a day number, 0 for Monday up to 6 for Sunday.
pub fn weekday_index(d: i32) -> (r: u8)
    requires
        in_domain(d as int),
    ensures
        r as int == weekday_of(d as int),
{
    // 91_000_000 is a multiple of 7 that lifts every day of the domain above 0.
    let lifted: i64 = d as i64 + 91_000_006;
    assert(lifted % 7 == weekday_of(d as int)) by {
        assert(lifted == (d + 6) + 7 * 13_000_000);
    }
    (lifted % 7) as u8
}

/// Month and day of Easter Sunday in the Gregorian calendar (anonymous
/// Gregorian computus).
pub open spec fn easter_spec(y: int) -> (int, int) {
    let a = y % 19;
    let b = y / 100;
    let c = y % 100;
    let d = b / 4;
    let e = b % 4;
    let f = (b + 8) / 25;
    let g = (b - f + 1) / 3;
    let h = (19 * a + b - d - g + 15) % 30;
    let i = c / 4;
    let k = c % 4;
    let l = (32 + 2 * e + 2 * i - h - k) % 7;
    let m = (a + 11 * h + 22 * l) / 451;
    let month = (h + l - 7 * m + 114) / 31;
    let day = (h + l - 7 * m + 114) % 31 + 1;
    (month, day)
}

/// Month and day of Easter Sunday of the given year.
pub fn easter(y: u16) -> (r: (u8, u8))
    ensures
        r.0 as int == easter_spec(y as int).0,
        r.1 as int == easter_spec(y as int).1,
{
    let y: i64 = y as i64;
    let a = y % 19;
    let b = y / 100;
    let c = y % 100;
    let d = b / 4;
    let e = b % 4;
    let f = (b + 8) / 25;
    let g = (b - f + 1) / 3;
    let h = (19 * a + b - d - g + 15) % 30;
    let i = c / 4;
    let k = c % 4;
    let l = (32 + 2 * e + 2 * i - h - k) % 7;
    let m = (a + 11 * h + 22 * l) / 451;
    let month = (h + l - 7 * m + 114) / 31;
    let day = (h + l - 7 * m + 114) % 31 + 1;
    (month as u8, day as u8)
}

} // verus!
