//! Wall-clock times: the calendar date and time of day of an instant, as
//! chrono gives it in UTC, moved to a fixed offset and written out as
//! `%y-%m-%d %H:%M:%S`.

use kovi::chrono::{Datelike, TimeZone, Timelike, Utc};
use vstd::prelude::*;

use crate::message::join2;
use crate::text::{decimal, decimal_text, digit_char, digit_value, digits_of, is_digit};

verus! {

/// A date of the proleptic Gregorian calendar and a time of day.
#[derive(Clone, Copy, Debug, PartialEq, Eq, Structural)]
pub struct CivilTime {
    pub year: i32,
    pub month: u32,
    pub day: u32,
    pub hour: u32,
    pub minute: u32,
    pub second: u32,
}

/// The years that chrono's dates span.
pub open spec fn year_in_range(y: int) -> bool {
    -262_143 <= y <= 262_142
}

/// The fields are in their ranges: a year that chrono knows, a month of
/// 1..=12, a day of 1..=31, and a time of day without leap second.
pub open spec fn in_ranges(c: CivilTime) -> bool {
    &&& year_in_range(c.year as int)
    &&& 1 <= c.month <= 12
    &&& 1 <= c.day <= 31
    &&& c.hour < 24
    &&& c.minute < 60
    &&& c.second < 60
}

/// The fields of a tuple `(year, month, day, hour, minute, second)`.
pub open spec fn civil_of(t: (i32, u32, u32, u32, u32, u32)) -> CivilTime {
    CivilTime { year: t.0, month: t.1, day: t.2, hour: t.3, minute: t.4, second: t.5 }
}

/// What chrono gives for the instant `ts` seconds after the epoch in UTC:
/// its `(year, month, day, hour, minute, second)`, or `None` when the instant
/// is out of chrono's range.
pub uninterp spec fn chrono_utc_time(ts: i64) -> Option<(i32, u32, u32, u32, u32, u32)>;

/// Calls chrono (through kovi's re-export): `Utc.timestamp_opt(ts, 0)` and,
/// when that is a single instant, its `year`, `month`, `day`, `hour`,
/// `minute` and `second`. Claimed: the result depends on `ts` alone; a date
/// lies in chrono's years (`NaiveDate::MIN` to `MAX`), its month in 1..=12
/// and its day in 1..=31; with no nanoseconds there is no leap second, so the
/// time of day is below 24:00:00. Which instants are in range, and the
/// calendar arithmetic itself, are chrono's and not stated.
#[verifier::external_body]
fn utc_time(ts: i64) -> (r: Option<(i32, u32, u32, u32, u32, u32)>)
    ensures
        r == chrono_utc_time(ts),
        r matches Some(t) ==> in_ranges(civil_of(t)),
{
    match Utc.timestamp_opt(ts, 0).single() {
        Some(d) => Some((d.year(), d.month(), d.day(), d.hour(), d.minute(), d.second())),
        None => None,
    }
}

/// The start of the epoch, 1970-01-01 00:00:00.
pub open spec fn epoch() -> CivilTime {
    CivilTime { year: 1970, month: 1, day: 1, hour: 0, minute: 0, second: 0 }
}

/// `y` is a leap year of the Gregorian calendar.
pub open spec fn is_leap(y: int) -> bool {
    y % 4 == 0 && (y % 100 != 0 || y % 400 == 0)
}

/// The number of days of month `m` of year `y`.
pub open spec fn days_in_month(y: int, m: int) -> int {
    if m == 2 {
        if is_leap(y) {
            29
        } else {
            28
        }
    } else if m == 4 || m == 6 || m == 9 || m == 11 {
        30
    } else {
        31
    }
}

/// The day after `(y, m, d)`.
pub open spec fn next_day(y: int, m: int, d: int) -> (int, int, int) {
    if d < days_in_month(y, m) {
        (y, m, d + 1)
    } else if m < 12 {
        (y, m + 1, 1)
    } else {
        (y + 1, 1, 1)
    }
}

/// The day before `(y, m, d)`.
pub open spec fn prev_day(y: int, m: int, d: int) -> (int, int, int) {
    if d > 1 {
        (y, m, d - 1)
    } else if m > 1 {
        (y, m - 1, days_in_month(y, m - 1))
    } else {
        (y - 1, 12, 31)
    }
}

/// The wall-clock time at `offset` seconds east of UTC, for the UTC time
/// `c`: the time of day moves by the offset, and the date by the day it
/// crosses into, if any.
pub open spec fn at_offset(c: CivilTime, offset: int) -> CivilTime {
    let secs = c.hour * 3600 + c.minute * 60 + c.second + offset;
    let days = secs / 86_400;
    let rest = secs % 86_400;
    let (y, m, d) = if days == -1 {
        prev_day(c.year as int, c.month as int, c.day as int)
    } else if days == 1 {
        next_day(c.year as int, c.month as int, c.day as int)
    } else {
        (c.year as int, c.month as int, c.day as int)
    };
    CivilTime {
        year: y as i32,
        month: m as u32,
        day: d as u32,
        hour: (rest / 3600) as u32,
        minute: (rest % 3600 / 60) as u32,
        second: (rest % 60) as u32,
    }
}

/// The wall-clock time at `offset` of the instant `ts` seconds after the
/// epoch; the epoch itself when chrono has no such instant.
pub open spec fn wall_time(ts: i64, offset: int) -> CivilTime {
    let utc = match chrono_utc_time(ts) {
        Some(t) => civil_of(t),
        None => epoch(),
    };
    at_offset(utc, offset)
}

/// A number below 100 as two digits (`"07"`, `"42"`).
pub open spec fn two_digits(n: int) -> Seq<char> {
    if n < 10 {
        seq!['0'] + decimal(n)
    } else {
        decimal(n)
    }
}

/// `c` written as `%y-%m-%d %H:%M:%S`: the year's last two digits (of the
/// year taken modulo 100), then month, day, hour, minute and second, each
/// as two digits.
pub open spec fn time_text(c: CivilTime) -> Seq<char> {
    two_digits((c.year as int) % 100) + "-"@ + two_digits(c.month as int) + "-"@ + two_digits(c.day as int)
        + " "@ + two_digits(c.hour as int) + ":"@ + two_digits(c.minute as int) + ":"@ + two_digits(
        c.second as int,
    )
}

/// Whether `y` is a leap year.
fn leap_year(y: i32) -> (r: bool)
    requires
        -400_000 < y < 400_000,
    ensures
        r == is_leap(y as int),
{
    let u: u32 = (y as i64 + 400_000) as u32;
    proof {
        let yi = y as int;
        assert((yi + 400_000) % 4 == yi % 4);
        assert((yi + 400_000) % 100 == yi % 100);
        assert((yi + 400_000) % 400 == yi % 400);
    }
    u % 4 == 0 && (u % 100 != 0 || u % 400 == 0)
}

/// The number of days of month `m` of year `y`.
fn month_days(y: i32, m: u32) -> (r: u32)
    requires
        -400_000 < y < 400_000,
    ensures
        r == days_in_month(y as int, m as int),
{
    if m == 2 {
        if leap_year(y) {
            29
        } else {
            28
        }
    } else if m == 4 || m == 6 || m == 9 || m == 11 {
        30
    } else {
        31
    }
}

/// The wall-clock time at `offset` seconds east of UTC for the UTC time `c`
/// (see `at_offset`).
pub fn shift_time(c: CivilTime, offset: i32) -> (r: CivilTime)
    requires
        in_ranges(c),
        -86_400 < offset < 86_400,
    ensures
        r == at_offset(c, offset as int),
        -262_144 <= r.year <= 262_143,
        1 <= r.month <= 12,
        1 <= r.day <= 31,
        r.hour < 24,
        r.minute < 60,
        r.second < 60,
{
    let v: u32 = ((c.hour * 3600 + c.minute * 60 + c.second) as i64 + offset as i64 + 86_400) as u32;
    let crossing = v / 86_400;
    let rest = v % 86_400;
    proof {
        let secs = c.hour * 3600 + c.minute * 60 + c.second + offset;
        assert(secs == v - 86_400);
        assert(secs / 86_400 == crossing - 1);
        assert(secs % 86_400 == rest);
    }
    let (y, m, d) = if crossing == 0 {
        if c.day > 1 {
            (c.year, c.month, c.day - 1)
        } else if c.month > 1 {
            (c.year, c.month - 1, month_days(c.year, c.month - 1))
        } else {
            (c.year - 1, 12u32, 31u32)
        }
    } else if crossing == 2 {
        if c.day < month_days(c.year, c.month) {
            (c.year, c.month, c.day + 1)
        } else if c.month < 12 {
            (c.year, c.month + 1, 1u32)
        } else {
            (c.year + 1, 1u32, 1u32)
        }
    } else {
        (c.year, c.month, c.day)
    };
    CivilTime { year: y, month: m, day: d, hour: rest / 3600, minute: rest % 3600 / 60, second: rest % 60 }
}

/// The wall-clock time at `offset` seconds east of UTC of the instant `ts`
/// seconds after the epoch; the epoch's when chrono has no such instant.
pub fn wall_clock(ts: i64, offset: i32) -> (r: CivilTime)
    requires
        -86_400 < offset < 86_400,
    ensures
        r == wall_time(ts, offset as int),
        -262_144 <= r.year <= 262_143,
        1 <= r.month <= 12,
        1 <= r.day <= 31,
        r.hour < 24,
        r.minute < 60,
        r.second < 60,
{
    let utc = match utc_time(ts) {
        Some(t) => CivilTime { year: t.0, month: t.1, day: t.2, hour: t.3, minute: t.4, second: t.5 },
        None => CivilTime { year: 1970, month: 1, day: 1, hour: 0, minute: 0, second: 0 },
    };
    shift_time(utc, offset)
}

/// A number below 100 as two digits.
fn two_digit_text(n: u32) -> (r: String)
    requires
        n < 100,
    ensures
        r@ == two_digits(n as int),
{
    let digits = decimal_text(n as i64);
    proof {
        reveal_strlit("0");
    }
    if n < 10 {
        join2("0", digits.as_str())
    } else {
        digits
    }
}

/// `c` written as `%y-%m-%d %H:%M:%S` (see `time_text`).
pub fn write_time(c: CivilTime) -> (r: String)
    requires
        -400_000 < c.year < 400_000,
        c.month < 100,
        c.day < 100,
        c.hour < 100,
        c.minute < 100,
        c.second < 100,
    ensures
        r@ == time_text(c),
{
    let yy: u32 = ((c.year as i64 + 400_000) as u32) % 100;
    proof {
        assert((c.year as int + 400_000) % 100 == (c.year as int) % 100);
        reveal_strlit("-");
        reveal_strlit(" ");
        reveal_strlit(":");
    }
    let mut out = two_digit_text(yy);
    out.append("-");
    out.append(two_digit_text(c.month).as_str());
    out.append("-");
    out.append(two_digit_text(c.day).as_str());
    out.append(" ");
    out.append(two_digit_text(c.hour).as_str());
    out.append(":");
    out.append(two_digit_text(c.minute).as_str());
    out.append(":");
    out.append(two_digit_text(c.second).as_str());
    out
}


/// The Gregorian month lengths, by the knuckle rule: outside February,
/// months alternate between 31 and 30 days, starting at 31 in January and
/// again in August; February has 28 days, 29 in a leap year. So a year has
/// 365 days, 366 in a leap year.
pub proof fn law_month_lengths(y: int, m: int)
    requires
        1 <= m <= 12,
    ensures
        m != 2 ==> days_in_month(y, m) == 30 + (m + m / 8) % 2,
        days_in_month(y, 2) == (if is_leap(y) { 29int } else { 28int }),
        days_in_month(y, 4) == 30 && days_in_month(y, 6) == 30 && days_in_month(y, 9) == 30
            && days_in_month(y, 11) == 30,
        days_in_month(y, 1) + days_in_month(y, 2) + days_in_month(y, 3) + days_in_month(y, 4)
            + days_in_month(y, 5) + days_in_month(y, 6) + days_in_month(y, 7) + days_in_month(y, 8)
            + days_in_month(y, 9) + days_in_month(y, 10) + days_in_month(y, 11) + days_in_month(y, 12)
            == (if is_leap(y) { 366int } else { 365int }),
{
}

/// Leap years of the Gregorian calendar: every fourth year, but not a
/// century year unless it divides by 400; the pattern repeats every 400
/// years.
pub proof fn law_leap_years(y: int)
    ensures
        is_leap(y) ==> y % 4 == 0,
        y % 4 == 0 && y % 100 != 0 ==> is_leap(y),
        y % 400 == 0 ==> is_leap(y),
        y % 100 == 0 && y % 400 != 0 ==> !is_leap(y),
        is_leap(y + 400) == is_leap(y),
{
    assert((y + 400) % 4 == y % 4);
    assert((y + 400) % 100 == y % 100);
    assert((y + 400) % 400 == y % 400);
}

/// The seconds of the day of `c` moved by `offset`.
pub open spec fn moved_seconds(c: CivilTime, offset: int) -> int {
    c.hour * 3600 + c.minute * 60 + c.second + offset
}

/// Moving past midnight from the last day of a month lands on the 1st of
/// the next month (of the next year after December): the last day is the
/// 30th of April, June, September and November, the 31st of the other
/// months but February, and the 28th or, in a leap year, the 29th of
/// February. The time of day is the moved one, taken modulo a day.
pub proof fn law_forward_over_month_end(c: CivilTime, offset: int)
    requires
        in_ranges(c),
        offset < 86_400,
        moved_seconds(c, offset) >= 86_400,
    ensures
        ({
            let r = at_offset(c, offset);
            let y = c.year as int;
            let m = c.month as int;
            let d = c.day as int;
            &&& (m == 4 || m == 6 || m == 9 || m == 11) && d == 30 ==> r.year == y && r.month == m + 1 && r.day
                == 1
            &&& (m == 1 || m == 3 || m == 5 || m == 7 || m == 8 || m == 10) && d == 31 ==> r.year == y && r.month
                == m + 1 && r.day == 1
            &&& m == 12 && d == 31 ==> r.year == y + 1 && r.month == 1 && r.day == 1
            &&& m == 2 && d == 29 && is_leap(y) ==> r.year == y && r.month == 3 && r.day == 1
            &&& m == 2 && d == 28 && !is_leap(y) ==> r.year == y && r.month == 3 && r.day == 1
            &&& m == 2 && d == 28 && is_leap(y) ==> r.year == y && r.month == 2 && r.day == 29
            &&& d < 28 ==> r.year == y && r.month == m && r.day == d + 1
            &&& r.hour * 3600 + r.minute * 60 + r.second == moved_seconds(c, offset) - 86_400
        }),
{
    let secs = moved_seconds(c, offset);
    assert(secs / 86_400 == 1);
    assert(secs % 86_400 == secs - 86_400);
    let rest = secs % 86_400;
    assert(rest / 3600 * 3600 + rest % 3600 / 60 * 60 + rest % 60 == rest);
}

/// Moving back past midnight from the 1st of a month lands on the last day
/// of the month before (the 31st of December of the year before, from the
/// 1st of January). The time of day is the moved one, taken modulo a day.
pub proof fn law_backward_over_month_start(c: CivilTime, offset: int)
    requires
        in_ranges(c),
        -86_400 < offset,
        moved_seconds(c, offset) < 0,
    ensures
        ({
            let r = at_offset(c, offset);
            let y = c.year as int;
            let m = c.month as int;
            &&& c.day == 1 && (m == 5 || m == 7 || m == 10 || m == 12) ==> r.year == y && r.month == m - 1 && r.day
                == 30
            &&& c.day == 1 && (m == 2 || m == 4 || m == 6 || m == 8 || m == 9 || m == 11) ==> r.year == y
                && r.month == m - 1 && r.day == 31
            &&& c.day == 1 && m == 3 ==> r.year == y && r.month == 2 && r.day == (if is_leap(y) { 29int } else {
                28int
            })
            &&& c.day == 1 && m == 1 ==> r.year == y - 1 && r.month == 12 && r.day == 31
            &&& c.day > 1 ==> r.year == y && r.month == m && r.day == c.day - 1
            &&& r.hour * 3600 + r.minute * 60 + r.second == moved_seconds(c, offset) + 86_400
        }),
{
    let secs = moved_seconds(c, offset);
    assert(secs / 86_400 == -1);
    assert(secs % 86_400 == secs + 86_400);
    let rest = secs % 86_400;
    assert(rest / 3600 * 3600 + rest % 3600 / 60 * 60 + rest % 60 == rest);
}

/// Within the same day, only the time of day moves: the date stays and the
/// time of day is the moved one.
pub proof fn law_same_day(c: CivilTime, offset: int)
    requires
        in_ranges(c),
        0 <= moved_seconds(c, offset) < 86_400,
    ensures
        at_offset(c, offset).year == c.year,
        at_offset(c, offset).month == c.month,
        at_offset(c, offset).day == c.day,
        at_offset(c, offset).hour * 3600 + at_offset(c, offset).minute * 60 + at_offset(c, offset).second
            == moved_seconds(c, offset),
        at_offset(c, offset).hour < 24 && at_offset(c, offset).minute < 60 && at_offset(c, offset).second < 60,
{
    let secs = moved_seconds(c, offset);
    assert(secs / 86_400 == 0);
    assert(secs % 86_400 == secs);
    assert(secs / 3600 * 3600 + secs % 3600 / 60 * 60 + secs % 60 == secs);
}

/// A number below 100 is written as exactly two decimal digits that read
/// back as the number: the tens, then the ones.
pub proof fn law_two_digits(n: int)
    requires
        0 <= n < 100,
    ensures
        two_digits(n).len() == 2,
        is_digit(two_digits(n)[0]) && is_digit(two_digits(n)[1]),
        digit_value(two_digits(n)[0]) == n / 10,
        digit_value(two_digits(n)[1]) == n % 10,
{
    if n < 10 {
        assert(digits_of(n as nat) == seq![digit_char(n)]);
        assert(two_digits(n) =~= seq!['0', digit_char(n)]);
    } else {
        let t = (n / 10) as nat;
        assert(digits_of(t) == seq![digit_char(t as int)]);
        assert(digits_of(n as nat) =~= seq![digit_char(n / 10), digit_char(n % 10)]);
    }
}

/// The written time has the layout `yy-mm-dd HH:MM:SS`: seventeen
/// characters, the separators in their places, and each field the two
/// digits of the year modulo 100, the month, the day, the hour, the minute
/// and the second.
pub proof fn law_time_layout(c: CivilTime)
    requires
        c.month < 100 && c.day < 100 && c.hour < 100 && c.minute < 100 && c.second < 100,
    ensures
        ({
            let t = time_text(c);
            &&& t.len() == 17
            &&& t[2] == '-' && t[5] == '-' && t[8] == ' ' && t[11] == ':' && t[14] == ':'
            &&& t.subrange(0, 2) == two_digits((c.year as int) % 100)
            &&& t.subrange(3, 5) == two_digits(c.month as int)
            &&& t.subrange(6, 8) == two_digits(c.day as int)
            &&& t.subrange(9, 11) == two_digits(c.hour as int)
            &&& t.subrange(12, 14) == two_digits(c.minute as int)
            &&& t.subrange(15, 17) == two_digits(c.second as int)
        }),
{
    reveal_strlit("-");
    reveal_strlit(" ");
    reveal_strlit(":");
    law_two_digits((c.year as int) % 100);
    law_two_digits(c.month as int);
    law_two_digits(c.day as int);
    law_two_digits(c.hour as int);
    law_two_digits(c.minute as int);
    law_two_digits(c.second as int);
    let t = time_text(c);
    assert(t.subrange(0, 2) =~= two_digits((c.year as int) % 100));
    assert(t.subrange(3, 5) =~= two_digits(c.month as int));
    assert(t.subrange(6, 8) =~= two_digits(c.day as int));
    assert(t.subrange(9, 11) =~= two_digits(c.hour as int));
    assert(t.subrange(12, 14) =~= two_digits(c.minute as int));
    assert(t.subrange(15, 17) =~= two_digits(c.second as int));
}

/// An instant that chrono does not have reads as the start of the epoch,
/// 1970-01-01 00:00:00 UTC: east of UTC, the same date at the offset's time
/// of day.
pub proof fn law_unknown_instant_is_the_epoch(ts: i64, offset: int)
    requires
        chrono_utc_time(ts) is None,
        0 <= offset < 86_400,
    ensures
        wall_time(ts, offset).year == 1970,
        wall_time(ts, offset).month == 1,
        wall_time(ts, offset).day == 1,
        wall_time(ts, offset).hour * 3600 + wall_time(ts, offset).minute * 60 + wall_time(ts, offset).second
            == offset,
{
    law_same_day(epoch(), offset);
}

} // verus!
