//! Dates of the proleptic Gregorian calendar.

use crate::decimal::{decimal, padded_chars, zero_padded};
use crate::text::{push_all, string_of};
use vstd::prelude::*;

verus! {

/// Whether year `y` has a 29th of February.
pub open spec fn is_leap(y: int) -> bool {
    y % 4 == 0 && (y % 100 != 0 || y % 400 == 0)
}

/// How many days month `m` of year `y` has.
pub open spec fn month_len(y: int, m: int) -> int {
    if m == 2 {
        if is_leap(y) {
            29
        } else {
            28
        }
    } else if m == 4 || m == 6 || m == 9 || m == 11 {
        30
    } else {
        31
    }
}

/// A day that the calendar has.
pub open spec fn is_date(y: int, m: int, d: int) -> bool {
    1 <= m <= 12 && 1 <= d <= month_len(y, m)
}

/// How many days lie between the starts of year 0 and of year `y`: 365 a year,
/// and one more for each leap year among them.
pub open spec fn days_before_year(y: int) -> int {
    365 * y + (y + 3) / 4 - (y + 99) / 100 + (y + 399) / 400
}

/// How many days of year `y` lie before month `m`.
pub open spec fn days_before_month(y: int, m: int) -> int
    decreases m,
{
    if m <= 1 {
        0
    } else {
        days_before_month(y, m - 1) + month_len(y, m - 1)
    }
}

/// How many days the date lies after the first of January 1970.
pub open spec fn day_number(y: int, m: int, d: int) -> int {
    days_before_year(y) + days_before_month(y, m) + (d - 1) - days_before_year(1970)
}

/// A year is followed by the next one after 365 days, or 366 if it is a leap year.
pub proof fn law_years_follow(y: int)
    ensures
        days_before_year(y + 1) - days_before_year(y) == if is_leap(y) {
            366int
        } else {
            365
        },
        days_before_year(0) == 0,
{
    lemma_ceil_4(y);
    lemma_ceil_100(y);
    lemma_ceil_400(y);
    assert(y % 400 == 0 ==> y % 100 == 0);
    assert(y % 100 == 0 ==> y % 4 == 0);
}

proof fn lemma_ceil_4(y: int)
    ensures
        (y + 4) / 4 - (y + 3) / 4 == if y % 4 == 0 {
            1int
        } else {
            0
        },
{
}

proof fn lemma_ceil_100(y: int)
    ensures
        (y + 100) / 100 - (y + 99) / 100 == if y % 100 == 0 {
            1int
        } else {
            0
        },
{
}

proof fn lemma_ceil_400(y: int)
    ensures
        (y + 400) / 400 - (y + 399) / 400 == if y % 400 == 0 {
            1int
        } else {
            0
        },
{
}

/// How many days lie between the firsts of March of year 0 and of year `y`.
spec fn days_before_march(y: int) -> int {
    365 * y + y / 4 - y / 100 + y / 400
}

proof fn lemma_march(y: int)
    ensures
        days_before_year(y + 1) == days_before_march(y) + 366,
        days_before_year(y) + 59 + (if is_leap(y) {
            1int
        } else {
            0
        }) == days_before_march(y) + 60,
{
    law_years_follow(y);
    assert((y + 4) / 4 == y / 4 + 1);
    assert((y + 100) / 100 == y / 100 + 1);
    assert((y + 400) / 400 == y / 400 + 1);
}

proof fn lemma_era(era: int, yoe: int)
    requires
        0 <= yoe <= 399,
    ensures
        days_before_march(yoe + era * 400) == 146_097 * era + 365 * yoe + yoe / 4 - yoe / 100,
        is_leap(yoe + era * 400 + 1) == is_leap(yoe + 1),
{
    let y = yoe + era * 400;
    assert(y / 4 == yoe / 4 + 100 * era);
    assert(y / 100 == yoe / 100 + 4 * era);
    assert(y / 400 == era);
    assert((y + 1) % 4 == (yoe + 1) % 4);
    assert((y + 1) % 100 == (yoe + 1) % 100);
    assert((y + 1) % 400 == (yoe + 1) % 400);
}

/// A year that starts in March is as long as the February at its end makes it.
proof fn lemma_march_year_len(yoe: int)
    requires
        0 <= yoe <= 399,
    ensures
        (365 * (yoe + 1) + (yoe + 1) / 4 - (yoe + 1) / 100 + (yoe + 1) / 400) - (365 * yoe + yoe / 4
            - yoe / 100) == if is_leap(yoe + 1) {
            366int
        } else {
            365
        },
{
    lemma_ceil_4(yoe + 1);
    lemma_ceil_100(yoe + 1);
    lemma_ceil_400(yoe + 1);
    assert((yoe + 1) % 4 == 0 <==> (yoe + 1) / 4 == yoe / 4 + 1);
    assert((yoe + 1) % 100 == 0 <==> (yoe + 1) / 100 == yoe / 100 + 1);
    assert((yoe + 1) % 400 == 0 <==> (yoe + 1) / 400 == 1);
}

/// The month, counted from March, and the day that day `doy` of a year is.
proof fn lemma_month_of_day(doy: int, mp: int, d: int)
    requires
        0 <= doy <= 365,
        mp == (5 * doy + 2) / 153,
        d == doy - (153 * mp + 2) / 5 + 1,
    ensures
        0 <= mp <= 11,
        1 <= d <= 31,
        mp == 1 || mp == 3 || mp == 6 || mp == 8 ==> d <= 30,
        mp == 11 ==> d <= 29,
        mp == 11 && d == 29 ==> doy == 365,
{
}

proof fn lemma_months(y: int)
    ensures
        days_before_month(y, 1) == 0,
        days_before_month(y, 2) == 31,
        days_before_month(y, 3) == 31 + month_len(y, 2),
        days_before_month(y, 4) == 62 + month_len(y, 2),
        days_before_month(y, 5) == 92 + month_len(y, 2),
        days_before_month(y, 6) == 123 + month_len(y, 2),
        days_before_month(y, 7) == 153 + month_len(y, 2),
        days_before_month(y, 8) == 184 + month_len(y, 2),
        days_before_month(y, 9) == 215 + month_len(y, 2),
        days_before_month(y, 10) == 245 + month_len(y, 2),
        days_before_month(y, 11) == 276 + month_len(y, 2),
        days_before_month(y, 12) == 306 + month_len(y, 2),
{
    reveal_with_fuel(days_before_month, 13);
}

/// `a` divided by `b`, rounded down.
fn floor_div(a: i64, b: i64) -> (r: i64)
    requires
        b > 0,
    ensures
        r == a as int / b as int,
{
    proof {
        assert(i64::MIN <= a as int / b as int <= i64::MAX) by (nonlinear_arith)
            requires
                b > 0,
                i64::MIN <= a <= i64::MAX,
        ;
    }
    match a.checked_div_euclid(b) {
        Some(q) => q,
        None => 0,
    }
}

/// What is left of `a` beyond the multiple of `b` below it.
fn floor_mod(a: i64, b: i64) -> (r: i64)
    requires
        b > 0,
    ensures
        r == a as int % b as int,
{
    match a.checked_rem_euclid(b) {
        Some(q) => q,
        None => 0,
    }
}

/// In a cycle of 400 years that starts in March, the year that day `doe` is in.
proof fn lemma_year_of_era(doe: int, yoe: int)
    requires
        0 <= doe <= 146_096,
        yoe == (doe - doe / 1460 + doe / 36_524 - doe / 146_096) / 365,
    ensures
        0 <= yoe <= 399,
        365 * yoe + yoe / 4 - yoe / 100 <= doe,
        doe < 365 * (yoe + 1) + (yoe + 1) / 4 - (yoe + 1) / 100 + (yoe + 1) / 400,
{
}

/// A year that starts in March, and a day of it, make a date.
proof fn lemma_date(y: int, doy: int, mp: int, d: int)
    requires
        0 <= doy <= 365,
        doy == 365 ==> is_leap(y + 1),
        mp == (5 * doy + 2) / 153,
        d == doy - (153 * mp + 2) / 5 + 1,
    ensures
        0 <= mp <= 11,
        1 <= d <= 31,
        mp < 10 ==> is_date(y, mp + 3, d) && day_number(y, mp + 3, d) == days_before_march(y) + doy
            - 719_468,
        mp >= 10 ==> is_date(y + 1, mp - 9, d) && day_number(y + 1, mp - 9, d) == days_before_march(
            y,
        ) + doy - 719_468,
{
    lemma_month_of_day(doy, mp, d);
    lemma_months(y);
    lemma_months(y + 1);
    lemma_march(y);
    assert(days_before_year(1970) == 719_528);
}

/// The date that lies `z` days after the first of January 1970.
pub fn civil_from_days(z: i64) -> (r: (i64, u32, u32))
    requires
        z <= i64::MAX - 719_468,
    ensures
        is_date(r.0 as int, r.1 as int, r.2 as int),
        day_number(r.0 as int, r.1 as int, r.2 as int) == z,
        -i64::MAX <= r.0,
{
    let z0: i64 = z + 719_468;
    let era: i64 = floor_div(z0, 146_097);
    assert(z0 == 146_097 * era + z0 as int % 146_097);
    assert(-100_000_000_000_000 <= era <= 100_000_000_000_000);
    let doe: i64 = floor_mod(z0, 146_097);
    let yoe: i64 = (doe - doe / 1460 + doe / 36_524 - doe / 146_096) / 365;
    proof {
        lemma_year_of_era(doe as int, yoe as int);
        lemma_march_year_len(yoe as int);
        lemma_era(era as int, yoe as int);
    }
    let y: i64 = yoe + era * 400;
    let doy: i64 = doe - (365 * yoe + yoe / 4 - yoe / 100);
    let mp: i64 = (5 * doy + 2) / 153;
    let d: i64 = doy - (153 * mp + 2) / 5 + 1;
    proof {
        lemma_date(y as int, doy as int, mp as int, d as int);
    }
    if mp < 10 {
        (y, (mp + 3) as u32, d as u32)
    } else {
        (y + 1, (mp - 9) as u32, d as u32)
    }
}

proof fn lemma_years_monotone(a: int, b: int)
    requires
        a <= b,
    ensures
        days_before_year(a) <= days_before_year(b),
    decreases b - a,
{
    if a < b {
        lemma_years_monotone(a, b - 1);
        law_years_follow(b - 1);
    }
}

proof fn lemma_day_in_year(y: int, m: int, d: int)
    requires
        is_date(y, m, d),
    ensures
        days_before_year(y) <= day_number(y, m, d) + days_before_year(1970) < days_before_year(y + 1),
{
    lemma_months(y);
    law_years_follow(y);
}

proof fn lemma_day_in_month(y: int, m1: int, d1: int, m2: int, d2: int)
    requires
        is_date(y, m1, d1),
        is_date(y, m2, d2),
        m1 < m2,
    ensures
        day_number(y, m1, d1) < day_number(y, m2, d2),
{
    lemma_months(y);
}

/// No two dates have the same day number.
pub proof fn law_day_number_tells_dates_apart(y1: int, m1: int, d1: int, y2: int, m2: int, d2: int)
    requires
        is_date(y1, m1, d1),
        is_date(y2, m2, d2),
        day_number(y1, m1, d1) == day_number(y2, m2, d2),
    ensures
        y1 == y2,
        m1 == m2,
        d1 == d2,
{
    lemma_day_in_year(y1, m1, d1);
    lemma_day_in_year(y2, m2, d2);
    if y1 < y2 {
        lemma_years_monotone(y1 + 1, y2);
    } else if y2 < y1 {
        lemma_years_monotone(y2 + 1, y1);
    } else if m1 < m2 {
        lemma_day_in_month(y1, m1, d1, m2, d2);
    } else if m2 < m1 {
        lemma_day_in_month(y1, m2, d2, m1, d1);
    }
}

// --- Timestamps ----------------------------------------------------------------

/// A year in at least four characters, its sign among them.
pub open spec fn year_text(y: int) -> Seq<char> {
    if y >= 0 {
        zero_padded(decimal(y as nat), 4)
    } else {
        seq!['-'] + zero_padded(decimal((-y) as nat), 3)
    }
}

/// A number in at least two digits.
pub open spec fn two_digits(n: int) -> Seq<char> {
    zero_padded(decimal(n as nat), 2)
}

/// `YYYY-MM-DDThh:mm:ssZ`.
pub open spec fn timestamp(y: int, m: int, d: int, second_of_day: int) -> Seq<char> {
    year_text(y) + seq!['-'] + two_digits(m) + seq!['-'] + two_digits(d) + seq!['T'] + two_digits(
        second_of_day / 3600,
    ) + seq![':'] + two_digits(second_of_day % 3600 / 60) + seq![':'] + two_digits(second_of_day % 60)
        + seq!['Z']
}

fn push_two_digits(out: &mut Vec<char>, n: i64)
    requires
        0 <= n,
    ensures
        final(out)@ == old(out)@ + two_digits(n as int),
{
    let part: Vec<char> = padded_chars(n as u64, 2);
    push_all(out, part.as_slice());
}

/// `text` is the timestamp, in UTC, of the point `secs` seconds after the start of
/// 1970.
pub open spec fn shows(text: Seq<char>, secs: int) -> bool {
    exists|y: int, m: int, d: int|
        #![trigger is_date(y, m, d)]
        is_date(y, m, d) && day_number(y, m, d) == secs / 86_400 && text == timestamp(
            y,
            m,
            d,
            secs % 86_400,
        )
}

/// No point in time has two timestamps.
pub proof fn law_timestamp_is_unique(a: Seq<char>, b: Seq<char>, secs: int)
    requires
        shows(a, secs),
        shows(b, secs),
    ensures
        a == b,
{
    let (y1, m1, d1) = choose|y: int, m: int, d: int|
        #![trigger is_date(y, m, d)]
        is_date(y, m, d) && day_number(y, m, d) == secs / 86_400 && a == timestamp(
            y,
            m,
            d,
            secs % 86_400,
        );
    let (y2, m2, d2) = choose|y: int, m: int, d: int|
        #![trigger is_date(y, m, d)]
        is_date(y, m, d) && day_number(y, m, d) == secs / 86_400 && b == timestamp(
            y,
            m,
            d,
            secs % 86_400,
        );
    law_day_number_tells_dates_apart(y1, m1, d1, y2, m2, d2);
}

/// The point `secs` seconds after the start of 1970, as an RFC 3339 timestamp in UTC.
pub fn rfc3339_from_unix(secs: i64) -> (r: String)
    ensures
        shows(r@, secs as int),
{
    let days: i64 = floor_div(secs, 86_400);
    let rem: i64 = floor_mod(secs, 86_400);
    let (y, m, d) = civil_from_days(days);
    let mut out: Vec<char> = Vec::new();
    let year: Vec<char> = if y >= 0 {
        padded_chars(y as u64, 4)
    } else {
        out.push('-');
        padded_chars((-y) as u64, 3)
    };
    push_all(&mut out, year.as_slice());
    assert(out@ == year_text(y as int));
    out.push('-');
    push_two_digits(&mut out, m as i64);
    out.push('-');
    push_two_digits(&mut out, d as i64);
    out.push('T');
    push_two_digits(&mut out, rem / 3600);
    out.push(':');
    push_two_digits(&mut out, rem % 3600 / 60);
    out.push(':');
    push_two_digits(&mut out, rem % 60);
    out.push('Z');
    proof {
        assert(out@ == timestamp(y as int, m as int, d as int, rem as int));
        assert(is_date(y as int, m as int, d as int));
    }
    string_of(out.as_slice())
}

} // verus!
