//! Civil-calendar arithmetic on day indexes.
//!
//! A point in time is an epoch second (seconds since 1970-01-01 00:00:00,
//! no timezone offset); a day index counts whole days since 1970-01-01.
//! Aggregation buckets start at day boundaries: the day itself, the first
//! day of its month, or the Monday of its week.

use vstd::prelude::*;

verus! {

pub const SECS_PER_DAY: i64 = 86400;

/// Day index of the first day of the year 10000, the end of the
/// supported range.
pub const MAX_DAY: i64 = 2_932_897;

/// Epoch second of the first instant of the year 10000; every stored
/// timestamp lies strictly below it.
pub const MAX_TIME: i64 = 253_402_300_800;

/// A civil calendar date.
#[derive(Clone, Copy, PartialEq, Eq, Structural, Debug)]
pub struct Date {
    pub year: u32,
    pub month: u32,
    pub day: u32,
}

pub open spec fn is_leap_year(y: int) -> bool {
    (y % 4 == 0 && y % 100 != 0) || y % 400 == 0
}

pub open spec fn days_in_year(y: int) -> int {
    if is_leap_year(y) {
        366
    } else {
        365
    }
}

pub open spec fn days_in_month(y: int, m: int) -> int {
    if m == 2 {
        if is_leap_year(y) {
            29
        } else {
            28
        }
    } else if m == 4 || m == 6 || m == 9 || m == 11 {
        30
    } else {
        31
    }
}

/// Days from 1970-01-01 to the first day of year `y`.
pub open spec fn days_before_year(y: int) -> int
    decreases y when y >= 1970
{
    if y <= 1970 {
        0
    } else {
        days_before_year(y - 1) + days_in_year(y - 1)
    }
}

/// Days from the first day of year `y` to the first day of its month `m`.
pub open spec fn days_before_month(y: int, m: int) -> int
    decreases m when m >= 1
{
    if m <= 1 {
        0
    } else {
        days_before_month(y, m - 1) + days_in_month(y, m - 1)
    }
}

pub open spec fn valid_date(d: Date) -> bool {
    &&& 1970 <= d.year
    &&& 1 <= d.month <= 12
    &&& 1 <= d.day <= days_in_month(d.year as int, d.month as int)
}

/// The day index a date denotes.
pub open spec fn day_of_date(d: Date) -> int {
    days_before_year(d.year as int) + days_before_month(d.year as int, d.month as int) + d.day - 1
}

/// Peel whole years off a day count: the year containing the day, and
/// the remaining days within that year.
pub open spec fn year_rem_of_day(y: int, rem: int) -> (int, int)
    decreases rem when rem >= 0
{
    if rem < days_in_year(y) {
        (y, rem)
    } else {
        year_rem_of_day(y + 1, rem - days_in_year(y))
    }
}

/// Peel whole months off a day count within year `y`: the month
/// containing the day, and the remaining days within that month.
pub open spec fn month_rem_of_day(y: int, m: int, rem: int) -> (int, int)
    decreases 12 - m when 1 <= m <= 12
{
    if m >= 12 || rem < days_in_month(y, m) {
        (m, rem)
    } else {
        month_rem_of_day(y, m + 1, rem - days_in_month(y, m))
    }
}

/// The civil date of a day index.
pub open spec fn date_spec(day: int) -> Date {
    let yr = year_rem_of_day(1970, day);
    let mr = month_rem_of_day(yr.0, 1, yr.1);
    Date { year: yr.0 as u32, month: mr.0 as u32, day: (mr.1 + 1) as u32 }
}

/// Day index of the first day of the month containing `day`.
pub open spec fn month_start_of_day(day: int) -> int {
    day - (date_spec(day).day - 1)
}

/// Day index of the Monday on or before `day`. 1970-01-01 (day 0) was a
/// Thursday, so Mondays are the days congruent to 4 modulo 7.
pub open spec fn week_start_of_day(day: int) -> int {
    day - ((day + 3) % 7)
}

pub proof fn lemma_days_before_year_lower(y: int)
    requires
        y >= 1970,
    ensures
        days_before_year(y) >= 365 * (y - 1970),
    decreases y,
{
    if y > 1970 {
        lemma_days_before_year_lower(y - 1);
    }
}

fn is_leap_exec(y: u32) -> (r: bool)
    ensures
        r == is_leap_year(y as int),
{
    (y % 4 == 0 && y % 100 != 0) || y % 400 == 0
}

fn days_in_year_exec(y: u32) -> (r: i64)
    ensures
        r == days_in_year(y as int),
{
    if is_leap_exec(y) {
        366
    } else {
        365
    }
}

fn days_in_month_exec(y: u32, m: u32) -> (r: i64)
    ensures
        r == days_in_month(y as int, m as int),
{
    if m == 2 {
        if is_leap_exec(y) {
            29
        } else {
            28
        }
    } else if m == 4 || m == 6 || m == 9 || m == 11 {
        30
    } else {
        31
    }
}

/// The civil date of a day index: the unique valid date whose day index
/// is `day`.
#[verifier::loop_isolation(false)]
pub fn date_of_day(day: i64) -> (d: Date)
    requires
        0 <= day < MAX_DAY,
    ensures
        d == date_spec(day as int),
        valid_date(d),
        day_of_date(d) == day,
        d.day - 1 <= day,
{
    let mut y: u32 = 1970;
    let mut rem: i64 = day;
    while rem >= days_in_year_exec(y)
        invariant
            1970 <= y <= 10006,
            0 <= rem <= day,
            days_before_year(y as int) + rem == day,
            year_rem_of_day(1970, day as int) == year_rem_of_day(y as int, rem as int),
        decreases rem,
    {
        let step = days_in_year_exec(y);
        rem = rem - step;
        y = y + 1;
        proof {
            lemma_days_before_year_lower(y as int);
        }
    }
    proof {
        assert(year_rem_of_day(y as int, rem as int) == (y as int, rem as int));
    }
    let mut m: u32 = 1;
    let ghost rem0 = rem as int;
    while m < 12 && rem >= days_in_month_exec(y, m)
        invariant
            1 <= m <= 12,
            0 <= rem,
            rem0 < days_in_year(y as int),
            days_before_month(y as int, m as int) + rem == rem0,
            month_rem_of_day(y as int, 1, rem0) == month_rem_of_day(y as int, m as int, rem as int),
        decreases 12 - m,
    {
        let dim = days_in_month_exec(y, m);
        rem = rem - dim;
        m = m + 1;
    }
    proof {
        if m == 12 {
            reveal_with_fuel(days_before_month, 13);
            assert(days_before_month(y as int, 13) == days_in_year(y as int));
            assert(rem < days_in_month(y as int, 12));
        }
        assert(month_rem_of_day(y as int, m as int, rem as int) == (m as int, rem as int));
    }
    Date { year: y, month: m, day: (rem + 1) as u32 }
}

/// Day index of the first day of the month containing `day`.
pub fn month_start_day(day: i64) -> (b: i64)
    requires
        0 <= day < MAX_DAY,
    ensures
        b == month_start_of_day(day as int),
        0 <= b <= day,
{
    let d = date_of_day(day);
    day - ((d.day as i64) - 1)
}

/// Day index of the Monday on or before `day`; at most six days below
/// `day`, so never before 1969-12-29.
pub fn week_start_day(day: i64) -> (b: i64)
    requires
        0 <= day < MAX_DAY,
    ensures
        b == week_start_of_day(day as int),
        day - 6 <= b <= day,
{
    day - ((day + 3) % 7)
}

} // verus!
