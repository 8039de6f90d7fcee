//! Calendar arithmetic over nanosecond Unix timestamps.
//!
//! Every timestamp in the pipeline is an `i64` count of nanoseconds since
//! 1970-01-01T00:00:00. The transform derives hour-of-day and ordinal
//! day-of-year from pickup timestamps, and the weather reader turns civil
//! date-time text into the nanosecond join key. The supported civil range is
//! 1970 through 2200, comfortably inside what an `i64` of nanoseconds can
//! hold.

use vstd::prelude::*;

verus! {

pub const NS_PER_SECOND: u64 = 1_000_000_000;
pub const SECONDS_PER_DAY: u64 = 86_400;
pub const SECONDS_PER_HOUR: u64 = 3_600;

/// Gregorian leap-year rule.
pub open spec fn is_leap_year(y: int) -> bool {
    y % 4 == 0 && (y % 100 != 0 || y % 400 == 0)
}

pub open spec fn year_length(y: int) -> int {
    if is_leap_year(y) {
        366
    } else {
        365
    }
}

/// Days from 1970-01-01 up to January 1 of year `y` (for `y >= 1970`).
pub open spec fn days_before_year(y: int) -> int
    decreases y - 1970,
{
    if y <= 1970 {
        0
    } else {
        days_before_year(y - 1) + year_length(y - 1)
    }
}

/// Length of month `m` (1-based) in year `y`.
pub open spec fn days_in_month(y: int, m: int) -> int {
    if m == 2 {
        if is_leap_year(y) {
            29
        } else {
            28
        }
    } else if m == 4 || m == 6 || m == 9 || m == 11 {
        30
    } else {
        31
    }
}

/// Days from January 1 of year `y` up to the first of month `m` (1-based).
pub open spec fn days_before_month(y: int, m: int) -> int
    decreases m,
{
    if m <= 1 {
        0
    } else {
        days_before_month(y, m - 1) + days_in_month(y, m - 1)
    }
}

/// The year that day number `d` (days since 1970-01-01) falls in, counting
/// forward from year `y`.
pub open spec fn civil_year(d: int, y: int) -> int
    decreases d,
{
    if d < year_length(y) {
        y
    } else {
        civil_year(d - year_length(y), y + 1)
    }
}

/// Zero-based day within its year of day number `d`, counting forward from
/// year `y`.
pub open spec fn civil_day_in_year(d: int, y: int) -> int
    decreases d,
{
    if d < year_length(y) {
        d
    } else {
        civil_day_in_year(d - year_length(y), y + 1)
    }
}

/// Hour of day (0..24) of a non-negative nanosecond timestamp.
pub open spec fn hour_of(ns: int) -> int {
    ((ns / 1_000_000_000) % 86_400) / 3_600
}

/// Ordinal day of year (1..=366) of a non-negative nanosecond timestamp.
pub open spec fn ordinal_day_of(ns: int) -> int {
    civil_day_in_year(ns / 1_000_000_000 / 86_400, 1970) + 1
}

/// Nanosecond timestamp of the civil instant `y-m-d h:mi:s`.
pub open spec fn civil_ns(y: int, m: int, d: int, h: int, mi: int, s: int) -> int {
    ((days_before_year(y) + days_before_month(y, m) + d - 1) * 86_400 + h * 3_600 + mi * 60
        + s) * 1_000_000_000
}

fn year_length_x(y: u32) -> (r: u32)
    ensures
        r == year_length(y as int),
{
    if y % 4 == 0 && (y % 100 != 0 || y % 400 == 0) {
        366
    } else {
        365
    }
}

pub(crate) fn days_in_month_x(y: u32, m: u32) -> (r: u32)
    ensures
        r == days_in_month(y as int, m as int),
{
    if m == 2 {
        if y % 4 == 0 && (y % 100 != 0 || y % 400 == 0) {
            29
        } else {
            28
        }
    } else if m == 4 || m == 6 || m == 9 || m == 11 {
        30
    } else {
        31
    }
}

/// Hour of day of a non-negative pickup timestamp.
pub fn hour_of_timestamp(ns: i64) -> (h: u32)
    requires
        ns >= 0,
    ensures
        h == hour_of(ns as int),
        h < 24,
{
    let nsu: u64 = ns as u64;
    let second_of_day: u64 = (nsu / NS_PER_SECOND) % SECONDS_PER_DAY;
    (second_of_day / SECONDS_PER_HOUR) as u32
}

/// Ordinal day of year of a non-negative pickup timestamp.
pub fn ordinal_day_of_timestamp(ns: i64) -> (d: u32)
    requires
        ns >= 0,
    ensures
        d == ordinal_day_of(ns as int),
        1 <= d <= 366,
{
    let nsu: u64 = ns as u64;
    let days: u64 = nsu / NS_PER_SECOND / SECONDS_PER_DAY;
    let mut y: u64 = 1970;
    let mut rem: u64 = days;
    assert(days <= 106_751_991);
    while year_length_x(y as u32) as u64 <= rem
        invariant
            1970 <= y,
            y - 1970 <= days - rem,
            rem <= days,
            days <= 106_751_991,
            civil_day_in_year(days as int, 1970) == civil_day_in_year(rem as int, y as int),
        decreases rem,
    {
        let len: u64 = year_length_x(y as u32) as u64;
        rem = rem - len;
        y = y + 1;
    }
    assert(civil_day_in_year(rem as int, y as int) == rem as int);
    (rem + 1) as u32
}

/// Day number (days since 1970-01-01) of the civil date `y-m-d`.
pub fn day_number_of_date(y: u32, m: u32, d: u32) -> (r: u32)
    requires
        1970 <= y <= 2200,
        1 <= m <= 12,
        1 <= d <= days_in_month(y as int, m as int),
    ensures
        r == days_before_year(y as int) + days_before_month(y as int, m as int) + d - 1,
        r < 84_600,
{
    let mut acc: u32 = 0;
    let mut yy: u32 = 1970;
    while yy < y
        invariant
            1970 <= yy <= y,
            y <= 2200,
            acc == days_before_year(yy as int),
            acc <= 366 * (yy - 1970),
        decreases y - yy,
    {
        acc = acc + year_length_x(yy);
        yy = yy + 1;
    }
    let mut mm: u32 = 1;
    let mut macc: u32 = 0;
    while mm < m
        invariant
            1 <= mm <= m,
            m <= 12,
            macc == days_before_month(y as int, mm as int),
            macc <= 31 * (mm - 1),
        decreases m - mm,
    {
        macc = macc + days_in_month_x(y, mm);
        mm = mm + 1;
    }
    acc + macc + (d - 1)
}

/// Nanosecond timestamp of the civil instant `y-m-d h:mi:s`.
pub fn ns_of_civil(y: u32, m: u32, d: u32, h: u32, mi: u32, s: u32) -> (r: i64)
    requires
        1970 <= y <= 2200,
        1 <= m <= 12,
        1 <= d <= days_in_month(y as int, m as int),
        h < 24,
        mi < 60,
        s < 60,
    ensures
        r == civil_ns(y as int, m as int, d as int, h as int, mi as int, s as int),
        r >= 0,
{
    let day: u32 = day_number_of_date(y, m, d);
    let secs: u64 = (day as u64) * SECONDS_PER_DAY + (h as u64) * SECONDS_PER_HOUR + (mi as u64)
        * 60 + (s as u64);
    assert(secs < 84_600 * 86_400 + 86_400);
    let ns: u64 = secs * NS_PER_SECOND;
    ns as i64
}

} // verus!
