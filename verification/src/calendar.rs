//! UTC timestamps: the proleptic Gregorian calendar counted from
//! 1970-01-01, and `YYYY-MM-DDTHH:MM:SSZ` stamps of Unix seconds.

use vstd::prelude::*;
use crate::text::{decimal, push_chars, push_str, u64_to_chars, zero_pad, zero_pad_chars};

verus! {

/// A Gregorian leap year.
pub open spec fn is_leap(y: int) -> bool {
    (y % 4 == 0 && y % 100 != 0) || y % 400 == 0
}

/// Days in year `y`.
pub open spec fn year_days(y: int) -> int {
    if is_leap(y) {
        366
    } else {
        365
    }
}

/// Days in month `m` (1–12) of year `y`.
pub open spec fn month_days(y: int, m: int) -> int {
    if m == 2 {
        if is_leap(y) {
            29
        } else {
            28
        }
    } else if m == 4 || m == 6 || m == 9 || m == 11 {
        30
    } else {
        31
    }
}

/// Days from 1970-01-01 to the first day of year `y`.
pub open spec fn days_before_year(y: int) -> int
    decreases y - 1970,
{
    if y <= 1970 {
        0
    } else {
        days_before_year(y - 1) + year_days(y - 1)
    }
}

/// Days from the first of the year to the first of month `m`.
pub open spec fn days_before_month(y: int, m: int) -> int
    decreases m,
{
    if m <= 1 {
        0
    } else {
        days_before_month(y, m - 1) + month_days(y, m - 1)
    }
}

/// The day number of a date, counted from 1970-01-01 (day 0).
pub open spec fn day_number(y: int, m: int, d: int) -> int {
    days_before_year(y) + days_before_month(y, m) + d - 1
}

/// A date on or after 1970-01-01.
pub open spec fn valid_date(y: int, m: int, d: int) -> bool {
    y >= 1970 && 1 <= m <= 12 && 1 <= d <= month_days(y, m)
}

/// `YYYY-MM-DDTHH:MM:SSZ` (the year at least four digits).
pub open spec fn stamp_text(y: nat, mo: nat, d: nat, h: nat, mi: nat, s: nat) -> Seq<char> {
    zero_pad(decimal(y), 4) + seq!['-'] + zero_pad(decimal(mo), 2) + seq!['-'] + zero_pad(decimal(d), 2)
        + seq!['T'] + zero_pad(decimal(h), 2) + seq![':'] + zero_pad(decimal(mi), 2) + seq![':']
        + zero_pad(decimal(s), 2) + seq!['Z']
}

/// The stamp of Unix second `secs`: its date is the one whose day number is
/// `secs / 86400`, its time of day the rest.
pub open spec fn is_stamp_of(t: Seq<char>, secs: nat) -> bool {
    exists|y: int, m: int, d: int|
        #![trigger day_number(y, m, d)]
        valid_date(y, m, d) && day_number(y, m, d) == secs / 86400 && t == stamp_text(
            y as nat,
            m as nat,
            d as nat,
            (secs % 86400) / 3600,
            ((secs % 86400) % 3600) / 60,
            (secs % 86400) % 60,
        )
}

/// Leap years before year `y` counted from year 1 (floor divisions).
pub open spec fn leaps_before(y: int) -> int {
    (y - 1) / 4 - (y - 1) / 100 + (y - 1) / 400
}

proof fn lemma_div_step(x: int, k: int)
    requires
        k > 0,
    ensures
        x / k - (x - 1) / k == (if x % k == 0 { 1int } else { 0int }),
{
    assert(x / k - (x - 1) / k == (if x % k == 0 { 1int } else { 0int })) by (nonlinear_arith)
        requires
            k > 0,
    ;
}

proof fn lemma_closed_form(y: int)
    requires
        y >= 1970,
    ensures
        days_before_year(y) == 365 * (y - 1970) + leaps_before(y) - leaps_before(1970),
    decreases y - 1970,
{
    if y > 1970 {
        lemma_closed_form(y - 1);
        lemma_div_step(y - 1, 4);
        lemma_div_step(y - 1, 100);
        lemma_div_step(y - 1, 400);
    }
}

proof fn lemma_div_shift(x: int, k: int, n: int)
    requires
        k > 0,
    ensures
        (x + k * n) / k == x / k + n,
{
    assert((x + k * n) / k == x / k + n) by (nonlinear_arith)
        requires
            k > 0,
    ;
}

/// Any 400 consecutive years hold 146097 days.
pub proof fn lemma_era_days(y: int)
    requires
        y >= 1970,
    ensures
        days_before_year(y + 400) == days_before_year(y) + 146097,
{
    lemma_closed_form(y);
    lemma_closed_form(y + 400);
    lemma_div_shift(y - 1, 4, 100);
    lemma_div_shift(y - 1, 100, 4);
    lemma_div_shift(y - 1, 400, 1);
}

proof fn lemma_eras(k: int)
    requires
        k >= 0,
    ensures
        days_before_year(1970 + 400 * k) == 146097 * k,
    decreases k,
{
    if k > 0 {
        lemma_eras(k - 1);
        lemma_era_days(1970 + 400 * (k - 1));
    }
}

proof fn lemma_year_of_months(y: int)
    ensures
        days_before_month(y, 13) == year_days(y),
{
    reveal_with_fuel(days_before_month, 13);
}

fn year_len(y: u64) -> (r: u64)
    ensures
        r == year_days(y as int),
{
    if (y % 4 == 0 && y % 100 != 0) || y % 400 == 0 {
        366
    } else {
        365
    }
}

fn month_len(leap: bool, m: u64) -> (r: u64)
    ensures
        forall|y: int| is_leap(y) == leap ==> r == month_days(y, m as int),
{
    if m == 2 {
        if leap {
            29
        } else {
            28
        }
    } else if m == 4 || m == 6 || m == 9 || m == 11 {
        30
    } else {
        31
    }
}

/// The UTC stamp `YYYY-MM-DDTHH:MM:SSZ` of Unix second `unix_secs`.
pub fn rfc3339_utc(unix_secs: u64) -> (r: String)
    ensures
        is_stamp_of(r@, unix_secs as nat),
{
    let days = unix_secs / 86400;
    let rem_s = unix_secs % 86400;
    let h = rem_s / 3600;
    let mi = (rem_s % 3600) / 60;
    let s = rem_s % 60;
    // Whole 400-year cycles first, then single years.
    let era = days / 146097;
    let mut rem = days % 146097;
    proof {
        lemma_eras(era as int);
    }
    let mut y: u64 = 1970 + 400 * era;
    assert(days_before_year(y as int) + rem == days);
    while rem >= year_len(y)
        invariant
            y >= 1970,
            y <= 1970 + 400 * era + 400,
            era <= 0xffff_ffff,
            rem < 146097,
            days_before_year(y as int) + rem == days,
            rem + days_before_year(y as int) - days_before_year(1970 + 400 * era) < 146097,
            days_before_year(1970 + 400 * era) == 146097 * era,
        decreases rem,
    {
        let yd = year_len(y);
        rem = rem - yd;
        proof {
            if y + 1 > 1970 + 400 * era + 400 {
                lemma_era_days(1970 + 400 * era);
            }
        }
        y = y + 1;
    }
    // Months of the year.
    let leap = (y % 4 == 0 && y % 100 != 0) || y % 400 == 0;
    assert(leap == is_leap(y as int));
    proof {
        lemma_year_of_months(y as int);
    }
    let mut m: u64 = 1;
    let ghost r0 = rem;
    while m < 12 && rem >= month_len(leap, m)
        invariant
            1 <= m <= 12,
            leap == is_leap(y as int),
            r0 < year_days(y as int),
            days_before_month(y as int, 13) == year_days(y as int),
            days_before_month(y as int, m as int) + rem == r0,
        decreases 12 - m,
    {
        let md = month_len(leap, m);
        assert(md == month_days(y as int, m as int));
        rem = rem - md;
        m = m + 1;
    }
    proof {
        if m == 12 {
            assert(days_before_month(y as int, 13) == days_before_month(y as int, 12) + month_days(y as int, 12));
        }
    }
    let d = rem + 1;
    assert(valid_date(y as int, m as int, d as int));
    assert(day_number(y as int, m as int, d as int) == days);
    let mut out = String::new();
    push_chars(&mut out, zero_pad_chars(u64_to_chars(y).as_slice(), 4).as_slice());
    push_str(&mut out, "-");
    push_chars(&mut out, zero_pad_chars(u64_to_chars(m).as_slice(), 2).as_slice());
    push_str(&mut out, "-");
    push_chars(&mut out, zero_pad_chars(u64_to_chars(d).as_slice(), 2).as_slice());
    push_str(&mut out, "T");
    push_chars(&mut out, zero_pad_chars(u64_to_chars(h).as_slice(), 2).as_slice());
    push_str(&mut out, ":");
    push_chars(&mut out, zero_pad_chars(u64_to_chars(mi).as_slice(), 2).as_slice());
    push_str(&mut out, ":");
    push_chars(&mut out, zero_pad_chars(u64_to_chars(s).as_slice(), 2).as_slice());
    push_str(&mut out, "Z");
    proof {
        reveal_strlit("-");
        reveal_strlit("T");
        reveal_strlit(":");
        reveal_strlit("Z");
    }
    assert(out@ =~= stamp_text(y as nat, m as nat, d as nat, h as nat, mi as nat, s as nat));
    out
}

proof fn lemma_years_increase(y1: int, y2: int)
    requires
        1970 <= y1 < y2,
    ensures
        days_before_year(y1) + year_days(y1) <= days_before_year(y2),
    decreases y2 - y1,
{
    if y2 > y1 + 1 {
        lemma_years_increase(y1, y2 - 1);
    }
}

proof fn lemma_months_increase(y: int, m1: int, m2: int)
    requires
        1 <= m1 < m2,
    ensures
        days_before_month(y, m1) + month_days(y, m1) <= days_before_month(y, m2),
    decreases m2 - m1,
{
    if m2 > m1 + 1 {
        lemma_months_increase(y, m1, m2 - 1);
    }
}

proof fn lemma_months_nonneg(y: int, m: int)
    ensures
        days_before_month(y, m) >= 0,
    decreases m,
{
    if m > 1 {
        lemma_months_nonneg(y, m - 1);
    }
}

proof fn lemma_within_year(y: int, m: int, d: int)
    requires
        valid_date(y, m, d),
    ensures
        days_before_year(y) <= day_number(y, m, d) < days_before_year(y) + year_days(y),
{
    lemma_year_of_months(y);
    lemma_months_nonneg(y, m);
    if m < 12 {
        lemma_months_increase(y, m, 13);
    } else {
        assert(days_before_month(y, 13) == days_before_month(y, 12) + month_days(y, 12));
    }
}

/// Distinct dates have distinct day numbers, so a day number names one date.
pub proof fn lemma_day_number_unique(y1: int, m1: int, d1: int, y2: int, m2: int, d2: int)
    requires
        valid_date(y1, m1, d1),
        valid_date(y2, m2, d2),
        day_number(y1, m1, d1) == day_number(y2, m2, d2),
    ensures
        y1 == y2 && m1 == m2 && d1 == d2,
{
    lemma_within_year(y1, m1, d1);
    lemma_within_year(y2, m2, d2);
    if y1 < y2 {
        lemma_years_increase(y1, y2);
    } else if y2 < y1 {
        lemma_years_increase(y2, y1);
    }
    assert(y1 == y2);
    if m1 < m2 {
        lemma_months_increase(y1, m1, m2);
    } else if m2 < m1 {
        lemma_months_increase(y1, m2, m1);
    }
}

} // verus!
