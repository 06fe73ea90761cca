//! Calendar dates and the time stamps of directory records.

use vstd::prelude::*;
use crate::entry::{EntryTimes, Timestamp};

verus! {

/// A date and time of the proleptic Gregorian calendar.
#[derive(Clone, Copy, Debug, PartialEq, Eq, Structural)]
pub struct Civil {
    pub year: i32,
    pub month: u8,
    pub day: u8,
    pub hour: u8,
    pub minute: u8,
    pub second: u8,
}

/// Days of a 400-year era before its year `year`, where years begin in March.
pub open spec fn days_before_year(year: int) -> int {
    365 * year + year / 4 - year / 100
}

/// Days of a year that begins in March before its month `month`.
pub open spec fn days_before_month(month: int) -> int {
    (153 * month + 2) / 5
}

/// The year of an era, beginning in March, that holds day `day` of the era.
pub open spec fn year_of_era(day: int) -> int {
    (day - day / 1460 + day / 36_524 - day / 146_096) / 365
}

/// Year, month and day of a day counted from 1970-01-01.
#[verifier::opaque]
pub open spec fn civil_date(days: int) -> (int, int, int) {
    let shifted = days + 719_468;
    let era = shifted / 146_097;
    let day = shifted % 146_097;
    let year = year_of_era(day);
    let rest = day - days_before_year(year);
    let month = (5 * rest + 2) / 153;
    let date = rest - days_before_month(month) + 1;
    let calendar_month = if month < 10 {
        month + 3
    } else {
        month - 9
    };
    (
        year + era * 400 + if calendar_month <= 2 {
            1int
        } else {
            0
        },
        calendar_month,
        date,
    )
}

/// The day, counted from 1970-01-01, of a date.
pub open spec fn day_number(year: int, month: int, date: int) -> int {
    let march_year = if month <= 2 {
        year - 1
    } else {
        year
    };
    let march_month = if month <= 2 {
        month + 9
    } else {
        month - 3
    };
    march_year / 400 * 146_097 + days_before_year(march_year % 400) + days_before_month(march_month)
        + date - 1 - 719_468
}

/// Whether a year has a 29th of February.
pub open spec fn leap_year(year: int) -> bool {
    year % 4 == 0 && (year % 100 != 0 || year % 400 == 0)
}

/// Days of a month.
pub open spec fn month_length(year: int, month: int) -> int {
    if month == 2 {
        if leap_year(year) {
            29
        } else {
            28
        }
    } else if month == 4 || month == 6 || month == 9 || month == 11 {
        30
    } else {
        31
    }
}

/// The year of an era is the one whose days hold the day.
proof fn lemma_year_of_era(day: int)
    requires
        0 <= day < 146_097,
    ensures
        0 <= year_of_era(day) < 400,
        days_before_year(year_of_era(day)) <= day,
        day < days_before_year(year_of_era(day) + 1) || day == 146_096,
{
    let century = if day == 146_096 {
        3
    } else {
        day / 36_524
    };
    let in_century = day - 36_524 * century;
    assert(0 <= century <= 3);
    let cycle = in_century / 1461;
    let in_cycle = in_century % 1461;
    assert(0 <= in_century <= 36_524);
    assert(0 <= cycle <= 24 || (cycle == 25 && in_century == 36_525));
    let year = if in_cycle == 1460 {
        3
    } else {
        in_cycle / 365
    };
    let expected = 100 * century + 4 * cycle + year;
    assert(0 <= expected < 400);
    assert(expected / 4 == 25 * century + cycle);
    assert(expected / 100 == century);
    assert(days_before_year(expected) == 36_524 * century + 1461 * cycle + 365 * year);
    assert(day - days_before_year(expected) == in_cycle - 365 * year);
    assert(0 <= day - days_before_year(expected) <= 365);
    assert(year_of_era(day) == expected) by {
        lemma_era_guess(day, century, cycle, year, in_cycle - 365 * year);
    }
}

proof fn lemma_era_guess(day: int, century: int, cycle: int, year: int, rest: int)
    requires
        0 <= century <= 3,
        0 <= cycle <= 24,
        0 <= year <= 3,
        0 <= rest <= 365,
        rest == 365 ==> year == 3,
        rest == 365 && cycle == 24 ==> century == 3,
        day == 36_524 * century + 1461 * cycle + 365 * year + rest,
    ensures
        year_of_era(day) == 100 * century + 4 * cycle + year,
{
    let expected = 100 * century + 4 * cycle + year;
    let corrected = day - day / 1460 + day / 36_524 - day / 146_096;
    assert(day / 36_524 == if rest == 365 && cycle == 24 {
        4
    } else {
        century
    });
    assert(365 * expected <= corrected < 365 * expected + 365);
}

/// The month of a day of the year, where years begin in March.
proof fn lemma_month_of_year(rest: int)
    requires
        0 <= rest <= 365,
    ensures
        ({
            let month = (5 * rest + 2) / 153;
            &&& 0 <= month <= 11
            &&& days_before_month(month) <= rest
            &&& month < 11 ==> rest < days_before_month(month + 1)
        }),
{
}

/// Only a year before a leap year has a 366th day.
proof fn lemma_last_day(day: int)
    requires
        0 <= day < 146_097,
        day - days_before_year(year_of_era(day)) == 365,
    ensures
        ({
            let year = year_of_era(day);
            year % 4 == 3 && (year % 100 != 99 || year == 399)
        }),
{
    lemma_year_of_era(day);
    let year = year_of_era(day);
    if day < 146_096 {
        assert(days_before_year(year + 1) > days_before_year(year) + 365);
    }
}

/// The date of a day is a date of the calendar, and it is that day's: counting
/// the days up to it gives the day back.
#[verifier::spinoff_prover]
pub proof fn law_civil_date_is_the_day(days: int)
    ensures
        ({
            let (year, month, date) = civil_date(days);
            &&& 1 <= month <= 12
            &&& 1 <= date <= month_length(year, month)
            &&& day_number(year, month, date) == days
        }),
{
    reveal(civil_date);
    let shifted = days + 719_468;
    let era = shifted / 146_097;
    let day = shifted % 146_097;
    lemma_year_of_era(day);
    let y = year_of_era(day);
    let rest = day - days_before_year(y);
    lemma_month_of_year(rest);
    if rest == 365 {
        lemma_last_day(day);
    }
    lemma_calendar(era, y, rest);
}

proof fn lemma_calendar(era: int, y: int, rest: int)
    requires
        0 <= y < 400,
        0 <= rest <= 365,
        rest == 365 ==> y % 4 == 3 && (y % 100 != 99 || y == 399),
    ensures
        ({
            let m = (5 * rest + 2) / 153;
            let date = rest - days_before_month(m) + 1;
            let month = if m < 10 {
                m + 3
            } else {
                m - 9
            };
            let year = y + era * 400 + if month <= 2 {
                1int
            } else {
                0
            };
            &&& 1 <= month <= 12
            &&& 1 <= date <= month_length(year, month)
            &&& day_number(year, month, date) == era * 146_097 + days_before_year(y) + rest
                - 719_468
        }),
{
    lemma_month_of_year(rest);
    let m = (5 * rest + 2) / 153;
    let march_year = y + era * 400;
    assert(march_year / 400 == era && march_year % 400 == y);
    if m == 11 && rest == 365 {
        assert((march_year + 1) % 4 == 0);
        assert(y == 399 ==> (march_year + 1) % 400 == 0);
        assert(y % 100 != 99 ==> (march_year + 1) % 100 != 0);
    }
}

/// The time of day and the date of a moment. `None` for a moment whose
/// nanoseconds make a second or more, or whose year does not fit.
pub open spec fn civil(timestamp: Timestamp) -> Option<Civil> {
    let (year, month, date) = civil_date(timestamp.secs as int / 86_400);
    let rest = timestamp.secs as int % 86_400;
    if timestamp.nanos >= 1_000_000_000 || !(i32::MIN <= year <= i32::MAX) {
        None
    } else {
        Some(
            Civil {
                year: year as i32,
                month: month as u8,
                day: date as u8,
                hour: (rest / 3600) as u8,
                minute: (rest % 3600 / 60) as u8,
                second: (rest % 60) as u8,
            },
        )
    }
}

/// `value / by`, rounded down.
fn floor_div(value: i64, by: i64) -> (quotient: i64)
    requires
        by > 0,
    ensures
        quotient == value as int / by as int,
{
    proof {
        assert(i64::MIN <= value as int / by as int <= i64::MAX) by (nonlinear_arith)
            requires
                by > 0,
                i64::MIN <= value <= i64::MAX,
        ;
    }
    match value.checked_div_euclid(by) {
        Some(quotient) => quotient,
        None => 0,
    }
}

/// `value % by`, never negative.
fn floor_rem(value: i64, by: i64) -> (rest: i64)
    requires
        by > 0,
    ensures
        rest == value as int % by as int,
        0 <= rest < by,
{
    proof {
        assert(0 <= value as int % by as int && (value as int % by as int) < by)
            by (nonlinear_arith)
            requires
                by > 0,
        ;
    }
    match value.checked_rem_euclid(by) {
        Some(rest) => rest,
        None => 0,
    }
}

/// The year of an era, beginning in March, that holds a day, and the day of
/// that year.
fn split_era(day: u32) -> (parts: (u32, u32))
    requires
        day < 146_097,
    ensures
        parts.0 == year_of_era(day as int),
        parts.1 == day - days_before_year(year_of_era(day as int)),
        parts.0 < 400,
        parts.1 <= 365,
{
    proof {
        lemma_year_of_era(day as int);
    }
    let year: u32 = (day - day / 1460 + day / 36_524 - day / 146_096) / 365;
    let before: u32 = 365 * year + year / 4 - year / 100;
    (year, day - before)
}

/// The date of a day counted from 1970-01-01.
fn date_of(days: i64) -> (date: (i64, u8, u8))
    requires
        -0x4_0000_0000_0000 <= days <= 0x4_0000_0000_0000,
    ensures
        (date.0 as int, date.1 as int, date.2 as int) == civil_date(days as int),
        1 <= date.1 <= 12,
        1 <= date.2 <= 31,
{
    proof {
        law_civil_date_is_the_day(days as int);
        reveal(civil_date);
    }
    let shifted: i64 = days + 719_468;
    let era: i64 = floor_div(shifted, 146_097);
    let day: u32 = floor_rem(shifted, 146_097) as u32;
    let (year, day_of_year) = split_era(day);
    let month_prime: u32 = (5 * day_of_year + 2) / 153;
    let date: u32 = day_of_year + 1 - (153 * month_prime + 2) / 5;
    let month: u32 = if month_prime < 10 {
        month_prime + 3
    } else {
        month_prime - 9
    };
    let carry: i64 = if month <= 2 {
        1
    } else {
        0
    };
    (year as i64 + era * 400 + carry, month as u8, date as u8)
}

/// Breaks a moment down into date and time of day.
pub fn timestamp_parts(timestamp: Timestamp) -> (parts: Option<Civil>)
    ensures
        parts == civil(timestamp),
        parts matches Some(c) ==> 1 <= c.month <= 12 && 1 <= c.day <= 31 && c.hour < 24 && c.minute
            < 60 && c.second < 60,
{
    if timestamp.nanos >= 1_000_000_000 {
        return None;
    }
    let days: i64 = floor_div(timestamp.secs, 86_400);
    let rest: u32 = floor_rem(timestamp.secs, 86_400) as u32;
    let (year, month, day) = date_of(days);
    if year < i32::MIN as i64 || year > i32::MAX as i64 {
        return None;
    }
    Some(
        Civil {
            year: year as i32,
            month,
            day,
            hour: (rest / 3600) as u8,
            minute: (rest % 3600 / 60) as u8,
            second: (rest % 60) as u8,
        },
    )
}

/// The two decimal digits of a number under 100.
pub open spec fn two_digits(value: int) -> Seq<u8> {
    seq![(48 + value / 10) as u8, (48 + value % 10) as u8]
}

/// The long time stamp: `YYYYMMDDHHMMSScc` and a zero offset from GMT.
pub open spec fn long_stamp(timestamp: Timestamp) -> Option<Seq<u8>> {
    match civil(timestamp) {
        Some(c) => if 0 <= c.year <= 9999 {
            Some(
                two_digits(c.year as int / 100) + two_digits(c.year as int % 100) + two_digits(
                    c.month as int,
                ) + two_digits(c.day as int) + two_digits(c.hour as int) + two_digits(
                    c.minute as int,
                ) + two_digits(c.second as int) + two_digits(timestamp.nanos as int / 10_000_000)
                    + seq![0u8],
            )
        } else {
            None
        },
        None => None,
    }
}

/// The short time stamp: years since 1900, month, day, hour, minute, second and
/// a zero offset from GMT.
pub open spec fn short_stamp(timestamp: Timestamp) -> Option<Seq<u8>> {
    match civil(timestamp) {
        Some(c) => if 1900 <= c.year <= 2155 {
            Some(
                seq![(c.year - 1900) as u8, c.month, c.day, c.hour, c.minute, c.second, 0u8],
            )
        } else {
            None
        },
        None => None,
    }
}

fn push_two_digits(output: &mut Vec<u8>, value: u32)
    requires
        value < 100,
    ensures
        final(output)@ == old(output)@ + two_digits(value as int),
{
    output.push((48 + value / 10) as u8);
    output.push((48 + value % 10) as u8);
    proof {
        assert(output@ =~= old(output)@ + two_digits(value as int));
    }
}

/// Writes the long time stamp of a moment.
pub fn long_timestamp(timestamp: Timestamp) -> (encoded: Option<Vec<u8>>)
    ensures
        match encoded {
            Some(bytes) => long_stamp(timestamp) == Some(bytes@),
            None => long_stamp(timestamp) is None,
        },
{
    let parts = match timestamp_parts(timestamp) {
        Some(parts) => parts,
        None => {
            return None;
        },
    };
    if parts.year < 0 || parts.year > 9999 {
        return None;
    }
    let year: u32 = parts.year as u32;
    let mut encoded: Vec<u8> = Vec::new();
    push_two_digits(&mut encoded, year / 100);
    push_two_digits(&mut encoded, year % 100);
    push_two_digits(&mut encoded, parts.month as u32);
    push_two_digits(&mut encoded, parts.day as u32);
    push_two_digits(&mut encoded, parts.hour as u32);
    push_two_digits(&mut encoded, parts.minute as u32);
    push_two_digits(&mut encoded, parts.second as u32);
    push_two_digits(&mut encoded, timestamp.nanos / 10_000_000);
    encoded.push(0);
    proof {
        assert(encoded@ =~= long_stamp(timestamp)->Some_0);
    }
    Some(encoded)
}

/// Writes the short time stamp of a moment.
pub fn short_timestamp(timestamp: Timestamp) -> (encoded: Option<[u8; 7]>)
    ensures
        match encoded {
            Some(bytes) => short_stamp(timestamp) == Some(bytes@),
            None => short_stamp(timestamp) is None,
        },
{
    let parts = match timestamp_parts(timestamp) {
        Some(parts) => parts,
        None => {
            return None;
        },
    };
    if parts.year < 1900 || parts.year > 2155 {
        return None;
    }
    let encoded: [u8; 7] = [
        (parts.year - 1900) as u8,
        parts.month,
        parts.day,
        parts.hour,
        parts.minute,
        parts.second,
        0,
    ];
    proof {
        assert(encoded@ =~= short_stamp(timestamp)->Some_0);
    }
    Some(encoded)
}

/// The long stamp of a time that may be unknown; empty if there is none.
pub open spec fn stamp_of(timestamp: Option<Timestamp>) -> Seq<u8> {
    match timestamp {
        Some(time) => match long_stamp(time) {
            Some(bytes) => bytes,
            None => Seq::empty(),
        },
        None => Seq::empty(),
    }
}

/// The flag `bit` if a time has a stamp.
pub open spec fn stamp_flag(timestamp: Option<Timestamp>, bit: int) -> int {
    if stamp_of(timestamp).len() > 0 {
        bit
    } else {
        0
    }
}

/// The value of a time stamp field: flags that tell which long stamps follow,
/// and the stamps. `None` if there is no stamp.
pub open spec fn stamp_field(times: EntryTimes) -> Option<Seq<u8>> {
    let flags = 0x80 + stamp_flag(times.created, 1) + stamp_flag(times.modified, 2) + stamp_flag(
        times.accessed,
        4,
    ) + stamp_flag(times.changed, 8);
    if flags == 0x80 {
        None
    } else {
        Some(
            seq![flags as u8] + stamp_of(times.created) + stamp_of(times.modified) + stamp_of(
                times.accessed,
            ) + stamp_of(times.changed),
        )
    }
}

/// Appends the stamp of a time; returns `bit` if there was one.
fn push_stamp(values: &mut Vec<u8>, timestamp: Option<Timestamp>, bit: u8) -> (flag: u8)
    ensures
        final(values)@ == old(values)@ + stamp_of(timestamp),
        flag == stamp_flag(timestamp, bit as int),
{
    proof {
        assert(old(values)@ + Seq::<u8>::empty() =~= old(values)@);
    }
    if let Some(time) = timestamp {
        if let Some(encoded) = long_timestamp(time) {
            values.extend_from_slice(encoded.as_slice());
            return bit;
        }
    }
    0
}

/// The value of a time stamp field.
pub fn timestamp_field(times: EntryTimes) -> (field: Option<Vec<u8>>)
    ensures
        match field {
            Some(bytes) => stamp_field(times) == Some(bytes@),
            None => stamp_field(times) is None,
        },
{
    let mut values: Vec<u8> = Vec::new();
    values.push(0);
    let created: u8 = push_stamp(&mut values, times.created, 1);
    let modified: u8 = push_stamp(&mut values, times.modified, 2);
    let accessed: u8 = push_stamp(&mut values, times.accessed, 4);
    let changed: u8 = push_stamp(&mut values, times.changed, 8);
    let flags: u8 = 0x80 + created + modified + accessed + changed;
    if flags == 0x80 {
        return None;
    }
    values[0] = flags;
    proof {
        assert(values@ =~= stamp_field(times)->Some_0);
    }
    Some(values)
}

} // verus!
