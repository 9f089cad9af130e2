//! Calendar dates for the "added" column of the character list.

use vstd::prelude::*;
use crate::text::{decimal, push_decimal, string_of};

verus! {

// ---------------------------------------------------------------------
// The proleptic Gregorian calendar
// ---------------------------------------------------------------------

/// Every fourth year is a leap year, but of the century years only every
/// fourth.
pub open spec fn is_leap_year(y: int) -> bool {
    y % 4 == 0 && (y % 100 != 0 || y % 400 == 0)
}

/// The number of days of month `m` (1 to 12) in year `y`.
pub open spec fn days_in_month(y: int, m: int) -> int {
    if m == 2 {
        if is_leap_year(y) { 29 } else { 28 }
    } else if m == 4 || m == 6 || m == 9 || m == 11 {
        30
    } else {
        31
    }
}

/// A real calendar date.
pub open spec fn valid_date(y: int, m: int, d: int) -> bool {
    1 <= m <= 12 && 1 <= d <= days_in_month(y, m)
}

/// The days of year `y` before the first of month `m`.
pub open spec fn days_before_month(y: int, m: int) -> int
    decreases m,
{
    if m <= 1 {
        0
    } else {
        days_before_month(y, m - 1) + days_in_month(y, m - 1)
    }
}

/// How many leap years come before year `y`, counted from a fixed year
/// far back; only differences of it are used.
pub open spec fn leap_years_before(y: int) -> int {
    (y - 1) / 4 - (y - 1) / 100 + (y - 1) / 400
}

/// The number of days from 1970-01-01 to the date (negative before it).
pub open spec fn days_from_epoch(y: int, m: int, d: int) -> int {
    365 * (y - 1970) + (leap_years_before(y) - leap_years_before(1970)) + days_before_month(y, m) + d - 1
}

/// The year's own leap day, counted.
spec fn leap_day(y: int) -> int {
    if is_leap_year(y) { 1 } else { 0 }
}

proof fn lemma_month_table(y: int)
    ensures
        days_before_month(y, 1) == 0,
        days_before_month(y, 2) == 31,
        days_before_month(y, 3) == 59 + leap_day(y),
        days_before_month(y, 4) == 90 + leap_day(y),
        days_before_month(y, 5) == 120 + leap_day(y),
        days_before_month(y, 6) == 151 + leap_day(y),
        days_before_month(y, 7) == 181 + leap_day(y),
        days_before_month(y, 8) == 212 + leap_day(y),
        days_before_month(y, 9) == 243 + leap_day(y),
        days_before_month(y, 10) == 273 + leap_day(y),
        days_before_month(y, 11) == 304 + leap_day(y),
        days_before_month(y, 12) == 334 + leap_day(y),
        days_before_month(y, 13) == 365 + leap_day(y),
{
    reveal_with_fuel(days_before_month, 14);
}

/// A year has one leap day more than the count before it says.
proof fn lemma_leap_years_step(y: int)
    ensures
        leap_years_before(y + 1) == leap_years_before(y) + leap_day(y),
{
    assert(leap_years_before(y + 1) == leap_years_before(y) + leap_day(y)) by (nonlinear_arith)
        requires
            leap_years_before(y + 1) == y / 4 - y / 100 + y / 400,
            leap_years_before(y) == (y - 1) / 4 - (y - 1) / 100 + (y - 1) / 400,
            leap_day(y) == if y % 4 == 0 && (y % 100 != 0 || y % 400 == 0) { 1int } else { 0int },
    ;
}

/// Each year is 365 days and its leap day after the one before.
proof fn lemma_next_year(y: int)
    ensures
        days_from_epoch(y + 1, 1, 1) == days_from_epoch(y, 1, 1) + 365 + leap_day(y),
{
    lemma_leap_years_step(y);
    lemma_month_table(y);
    lemma_month_table(y + 1);
}

/// The first of January of a year that starts a 400-year cycle.
proof fn lemma_cycle_start(era: int)
    ensures
        days_from_epoch(400 * era, 1, 1) == 146_097 * era - 719_528,
{
    lemma_month_table(400 * era);
    assert(leap_years_before(400 * era) == 97 * era - 1) by (nonlinear_arith)
        requires
            leap_years_before(400 * era) == (400 * era - 1) / 4 - (400 * era - 1) / 100 + (400 * era - 1) / 400,
    ;
    assert(leap_years_before(1970) == 477);
}

proof fn lemma_year_starts_grow(a: int, b: int)
    requires
        a <= b,
    ensures
        days_from_epoch(a, 1, 1) <= days_from_epoch(b, 1, 1),
        a < b ==> days_from_epoch(a + 1, 1, 1) <= days_from_epoch(b, 1, 1),
    decreases b - a,
{
    if a < b {
        lemma_year_starts_grow(a, b - 1);
        lemma_next_year(b - 1);
        lemma_next_year(a);
    }
}

/// A valid date falls in its own year: on or after its first of January
/// and before the next one.
proof fn lemma_date_in_year(y: int, m: int, d: int)
    requires
        valid_date(y, m, d),
    ensures
        days_from_epoch(y, 1, 1) <= days_from_epoch(y, m, d) < days_from_epoch(y + 1, 1, 1),
{
    lemma_month_table(y);
    lemma_next_year(y);
}

/// Two valid dates with the same day count are the same date: the day
/// count names one date only.
pub proof fn dates_are_unique(y1: int, m1: int, d1: int, y2: int, m2: int, d2: int)
    requires
        valid_date(y1, m1, d1),
        valid_date(y2, m2, d2),
        days_from_epoch(y1, m1, d1) == days_from_epoch(y2, m2, d2),
    ensures
        y1 == y2 && m1 == m2 && d1 == d2,
{
    lemma_date_in_year(y1, m1, d1);
    lemma_date_in_year(y2, m2, d2);
    if y1 < y2 {
        lemma_year_starts_grow(y1, y2);
    } else if y2 < y1 {
        lemma_year_starts_grow(y2, y1);
    }
    assert(y1 == y2);
    lemma_month_table(y1);
    lemma_leap_years_step(y1);
}

/// Integer division rounding toward zero, as Rust's `/` does on signed
/// integers.
pub open spec fn tdiv(a: int, b: int) -> int {
    if a >= 0 {
        a / b
    } else {
        -((-a) / b)
    }
}

proof fn lemma_tdiv_floor(a: int, b: int)
    requires
        b > 0,
    ensures
        a >= 0 ==> tdiv(a, b) == a / b,
        a < 0 ==> tdiv(a - (b - 1), b) == a / b,
{
    if a < 0 {
        assert(-((-(a - (b - 1))) / b) == a / b) by (nonlinear_arith)
            requires b > 0, a < 0;
    }
}

/// `civil_date_from_unix_days`: the calendar date `days_since_epoch` days
/// after 1970-01-01 (before it, when negative).  The day count is first
/// split into 400-year cycles of 146 097 days, counted from 0000-01-01;
/// the years and months of the last cycle are then counted off.
pub fn civil_date_from_unix_days(days_since_epoch: i64) -> (r: (i64, u32, u32))
    requires
        -0x0100_0000_0000_0000 <= days_since_epoch <= 0x0100_0000_0000_0000,
    ensures
        valid_date(r.0 as int, r.1 as int, r.2 as int),
        days_from_epoch(r.0 as int, r.1 as int, r.2 as int) == days_since_epoch,
        days_since_epoch >= -719_528 ==> r.0 >= 0,
{
    let days = days_since_epoch + 719_528;
    proof {
        lemma_tdiv_floor(days as int, 146_097);
    }
    let era = if days >= 0 { days } else { days - 146_096 } / 146_097;
    let day_of_era = days - era * 146_097;
    assert(0 <= day_of_era < 146_097) by (nonlinear_arith)
        requires
            era == (if days >= 0 { days as int } else { days - 146_096 }) / 146_097 || era == tdiv(
                if days >= 0 { days as int } else { days - 146_096 },
                146_097,
            ),
            era == (days as int) / 146_097,
            day_of_era == days - era * 146_097;
    assert(-0x0100_0000_0000_0000 <= era * 400 <= 0x0100_0000_0000_0000) by (nonlinear_arith)
        requires
            era == (days as int) / 146_097,
            -0x0100_0000_0000_0000 + 719_528 <= days <= 0x0100_0000_0000_0000 + 719_528,
    ;
    proof {
        lemma_cycle_start(era as int);
    }
    let start_year = era * 400;
    let mut year = start_year;
    let mut rest = day_of_era;
    while rest >= 365 + leap_day_exec(year)
        invariant
            0 <= rest <= day_of_era < 146_097,
            365 * (year - start_year) <= day_of_era - rest,
            -0x0100_0000_0000_0000 <= start_year <= 0x0100_0000_0000_0000,
            start_year <= year,
            days_from_epoch(year as int, 1, 1) + rest == days_since_epoch,
        decreases rest,
    {
        proof {
            lemma_next_year(year as int);
        }
        rest = rest - (365 + leap_day_exec(year));
        year = year + 1;
    }
    let mut month: i64 = 1;
    proof {
        lemma_month_table(year as int);
        lemma_next_year(year as int);
    }
    while rest >= days_in_month_exec(year, month)
        invariant
            1 <= month <= 12,
            0 <= rest,
            rest < 365 + leap_day(year as int) - days_before_month(year as int, month as int),
            days_from_epoch(year as int, month as int, 1) + rest == days_since_epoch,
            days_before_month(year as int, 13) == 365 + leap_day(year as int),
            forall|k: int| 1 <= k <= 12 ==> #[trigger] days_before_month(year as int, k + 1) == days_before_month(year as int, k) + days_in_month(year as int, k),
        decreases rest,
    {
        rest = rest - days_in_month_exec(year, month);
        month = month + 1;
        assert(days_before_month(year as int, month as int) == days_before_month(year as int, month - 1) + days_in_month(year as int, month - 1));
    }
    (year, month as u32, (rest + 1) as u32)
}

fn leap_day_exec(y: i64) -> (r: i64)
    ensures
        r == leap_day(y as int),
{
    if y % 4 == 0 && (y % 100 != 0 || y % 400 == 0) {
        1
    } else {
        0
    }
}

fn days_in_month_exec(y: i64, m: i64) -> (r: i64)
    ensures
        r == days_in_month(y as int, m as int),
{
    if m == 2 {
        28 + leap_day_exec(y)
    } else if m == 4 || m == 6 || m == 9 || m == 11 {
        30
    } else {
        31
    }
}

/// `n` written with at least `width` digits, padded with leading zeros.
pub open spec fn zero_padded(n: nat, width: nat) -> Seq<char> {
    let digits = decimal(n);
    if digits.len() >= width {
        digits
    } else {
        Seq::new((width - digits.len()) as nat, |i: int| '0') + digits
    }
}

fn push_padded(out: &mut Vec<char>, n: u64, width: usize)
    ensures
        final(out)@ == old(out)@ + zero_padded(n as nat, width as nat),
{
    let mut digits: Vec<char> = Vec::new();
    push_decimal(&mut digits, n);
    assert(digits@ =~= decimal(n as nat));
    let ghost base = out@;
    if digits.len() < width {
        let pad = width - digits.len();
        let mut i: usize = 0;
        while i < pad
            invariant
                i <= pad,
                out@ == base + Seq::new(i as nat, |k: int| '0'),
            decreases pad - i,
        {
            out.push('0');
            assert(out@ =~= base + Seq::new((i + 1) as nat, |k: int| '0'));
            i = i + 1;
        }
    }
    let ghost mid = out@;
    let mut j: usize = 0;
    while j < digits.len()
        invariant
            j <= digits.len(),
            out@ == mid + digits@.take(j as int),
        decreases digits.len() - j,
    {
        out.push(digits[j]);
        assert(out@ =~= mid + digits@.take(j + 1));
        j = j + 1;
    }
    assert(digits@.take(digits.len() as int) =~= digits@);
    assert(out@ =~= base + zero_padded(n as nat, width as nat));
}

/// The text `format_added_at` shows for a date.
pub open spec fn date_text(y: nat, m: nat, d: nat) -> Seq<char> {
    zero_padded(y, 4) + seq!['-'] + zero_padded(m, 2) + seq!['-'] + zero_padded(d, 2)
}

/// The UTC calendar date of a Unix time, as `YYYY-MM-DD`.
pub fn format_added_at(unix_seconds: u64) -> (r: String)
    ensures
        exists|y: int, m: int, d: int|
            valid_date(y, m, d) && days_from_epoch(y, m, d) == unix_seconds / 86_400 && y >= 0 && r@ == date_text(
                y as nat,
                m as nat,
                d as nat,
            ),
{
    let days_since_epoch = (unix_seconds / 86_400) as i64;
    let (year, month, day) = civil_date_from_unix_days(days_since_epoch);
    let mut out: Vec<char> = Vec::new();
    push_padded(&mut out, year as u64, 4);
    out.push('-');
    push_padded(&mut out, month as u64, 2);
    out.push('-');
    push_padded(&mut out, day as u64, 2);
    assert(out@ =~= date_text(year as nat, month as nat, day as nat));
    string_of(&out)
}

} // verus!
