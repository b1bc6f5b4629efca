//! Days since the Unix epoch for a date of the proleptic Gregorian calendar.

use vstd::prelude::*;
use vstd::arithmetic::div_mod::{lemma_fundamental_div_mod, lemma_fundamental_div_mod_converse};

verus! {

/// The Gregorian leap-year rule.
pub open spec fn is_leap_year(y: int) -> bool {
    y % 4 == 0 && (y % 100 != 0 || y % 400 == 0)
}

pub open spec fn days_in_year(y: int) -> int {
    if is_leap_year(y) { 366 } else { 365 }
}

/// Length of month `m` (1 = January, ..., 12 = December) of year `y`.
pub open spec fn days_in_month(y: int, m: int) -> int {
    if m == 2 {
        if is_leap_year(y) { 29 } else { 28 }
    } else if m == 4 || m == 6 || m == 9 || m == 11 {
        30
    } else {
        31
    }
}

/// Number of days from 1970-01-01 to January 1st of year `y` (negative before 1970).
pub open spec fn days_before_year(y: int) -> int
    decreases (if y >= 1970 { y - 1970 } else { 1970 - y }),
{
    if y == 1970 {
        0
    } else if y > 1970 {
        days_before_year(y - 1) + days_in_year(y - 1)
    } else {
        days_before_year(y + 1) - days_in_year(y)
    }
}

/// Number of days of year `y` that come before the first day of month `m`.
pub open spec fn days_before_month(y: int, m: int) -> int
    decreases m,
{
    if m <= 1 {
        0
    } else {
        days_before_month(y, m - 1) + days_in_month(y, m - 1)
    }
}

/// The day number of the date `y-m-d` counted from 1970-01-01 (day 0).
/// A day of month beyond the month's end, or below 1, counts on linearly.
pub open spec fn day_number(y: int, m: int, d: int) -> int {
    days_before_year(y) + days_before_month(y, m) + d - 1
}

/// The same count written with years that start in March, so that the leap day
/// is the last day of the year. It is defined for every month number `m`:
/// months 1 and 2 belong to the previous March-based year, and month `m > 2`
/// is the `(m - 3)`-th month of its March-based year, each month length
/// following the 31/30 pattern of March to January.
pub open spec fn march_day_number(y: int, m: int, d: int) -> int {
    let yy = if m <= 2 { y - 1 } else { y };
    let mp = if m > 2 { m - 3 } else { m + 9 };
    365 * yy + yy / 4 - yy / 100 + yy / 400 + (153 * mp + 2) / 5 + d - 1 - 719468
}

/// Number of leap years among 1..=y (extended to all integers by the same formula).
pub open spec fn leap_years_through(y: int) -> int {
    y / 4 - y / 100 + y / 400
}

proof fn lemma_div_step(y: int, k: int)
    requires
        k > 0,
    ensures
        y / k - (y - 1) / k == (if y % k == 0 { 1int } else { 0int }),
        y % k == 0 <==> (y - 1) % k == k - 1,
{
    lemma_fundamental_div_mod(y - 1, k);
    let q = (y - 1) / k;
    let r = (y - 1) % k;
    assert(y - 1 == q * k + r) by (nonlinear_arith)
        requires
            y - 1 == k * q + r,
    ;
    if r + 1 < k {
        lemma_fundamental_div_mod_converse(y, k, q, r + 1);
    } else {
        assert(y == (q + 1) * k + 0) by (nonlinear_arith)
            requires
                y - 1 == q * k + r,
                r + 1 == k,
        ;
        lemma_fundamental_div_mod_converse(y, k, q + 1, 0);
    }
}

proof fn lemma_leap_step(y: int)
    ensures
        leap_years_through(y) - leap_years_through(y - 1) == (if is_leap_year(y) { 1int } else { 0int }),
{
    lemma_div_step(y, 4);
    lemma_div_step(y, 100);
    lemma_div_step(y, 400);
    lemma_fundamental_div_mod(y, 400);
    lemma_fundamental_div_mod(y, 100);
    let a = y / 400;
    let b = y / 100;
    if y % 400 == 0 {
        assert(y == 100 * (4 * a) + 0) by (nonlinear_arith)
            requires
                y == 400 * a + 0,
        ;
        lemma_fundamental_div_mod_converse(y, 100, 4 * a, 0);
    }
    if y % 100 == 0 {
        assert(y == 4 * (25 * b) + 0) by (nonlinear_arith)
            requires
                y == 100 * b + 0,
        ;
        lemma_fundamental_div_mod_converse(y, 4, 25 * b, 0);
    }
}

proof fn lemma_days_before_year_closed(y: int)
    ensures
        days_before_year(y) == 365 * (y - 1970) + leap_years_through(y - 1) - leap_years_through(
            1969,
        ),
    decreases (if y >= 1970 { y - 1970 } else { 1970 - y }),
{
    if y == 1970 {
    } else if y > 1970 {
        lemma_days_before_year_closed(y - 1);
        lemma_leap_step(y - 1);
    } else {
        lemma_days_before_year_closed(y + 1);
        lemma_leap_step(y);
    }
}

/// The March-based count agrees with the calendar count on every real month.
pub proof fn lemma_march_day_number_is_day_number(y: int, m: int, d: int)
    requires
        1 <= m <= 12,
    ensures
        march_day_number(y, m, d) == day_number(y, m, d),
{
    lemma_days_before_year_closed(y);
    lemma_leap_step(y);
    assert(leap_years_through(1969) == 477);
    reveal_with_fuel(days_before_month, 12);
    assert((153 * 0int + 2) / 5 == 0);
    assert((153 * 1int + 2) / 5 == 31);
    assert((153 * 2int + 2) / 5 == 61);
    assert((153 * 3int + 2) / 5 == 92);
    assert((153 * 4int + 2) / 5 == 122);
    assert((153 * 5int + 2) / 5 == 153);
    assert((153 * 6int + 2) / 5 == 184);
    assert((153 * 7int + 2) / 5 == 214);
    assert((153 * 8int + 2) / 5 == 245);
    assert((153 * 9int + 2) / 5 == 275);
    assert((153 * 10int + 2) / 5 == 306);
    assert((153 * 11int + 2) / 5 == 337);
}

/// Rust's truncating division of the adjusted numerator gives the floor of `yy / 400`.
proof fn lemma_era_is_floor(yy: int, num: int, era: int)
    requires
        num == (if yy >= 0 { yy } else { yy - 399 }),
        era == (if num >= 0 { num / 400 } else { -((-num) / 400) }),
    ensures
        era == yy / 400,
{
    if yy < 0 {
        let a = -num;
        lemma_fundamental_div_mod(a, 400);
        let q = a / 400;
        let r = a % 400;
        // yy = 399 - a = -400 q + (399 - r)
        assert(yy == (-q) * 400 + (399 - r)) by (nonlinear_arith)
            requires
                a == 400 * q + r,
                yy == 399 - a,
        ;
        lemma_fundamental_div_mod_converse(yy, 400, -q, 399 - r);
    }
}

/// Splitting a March-based year into 400-year eras and the year of era.
proof fn lemma_era_split(yy: int, era: int, yoe: int)
    requires
        era == yy / 400,
        yoe == yy - era * 400,
    ensures
        0 <= yoe < 400,
        365 * yy + yy / 4 - yy / 100 + yy / 400 == era * 146097 + yoe * 365 + yoe / 4 - yoe / 100,
{
    lemma_fundamental_div_mod(yy, 400);
    assert(yoe == yy % 400) by (nonlinear_arith)
        requires
            yy == 400 * (yy / 400) + yy % 400,
            era == yy / 400,
            yoe == yy - era * 400,
    ;
    lemma_fundamental_div_mod(yoe, 4);
    lemma_fundamental_div_mod(yoe, 100);
    let q4 = yoe / 4;
    let q100 = yoe / 100;
    assert(yy == (era * 100 + q4) * 4 + yoe % 4) by (nonlinear_arith)
        requires
            yoe == 4 * q4 + yoe % 4,
            yoe == yy - era * 400,
    ;
    lemma_fundamental_div_mod_converse(yy, 4, era * 100 + q4, yoe % 4);
    assert(yy == (era * 4 + q100) * 100 + yoe % 100) by (nonlinear_arith)
        requires
            yoe == 100 * q100 + yoe % 100,
            yoe == yy - era * 400,
    ;
    lemma_fundamental_div_mod_converse(yy, 100, era * 4 + q100, yoe % 100);
    assert(365 * yy == era * 146000 + yoe * 365) by (nonlinear_arith)
        requires
            yoe == yy - era * 400,
    ;
}

/// Bounds of the count over the whole range of the argument types.
pub proof fn lemma_march_day_number_bounds(y: int, m: int, d: int)
    requires
        i32::MIN <= y <= i32::MAX,
        0 <= m <= u32::MAX,
        0 <= d <= u32::MAX,
    ensures
        -1_000_000_000_000 <= march_day_number(y, m, d) <= 1_000_000_000_000,
{
    let yy = if m <= 2 { y - 1 } else { y };
    let mp = if m > 2 { m - 3 } else { m + 9 };
    assert(-2147483649 <= yy <= 2147483647);
    assert(0 <= mp <= 4294967295);
    assert(-600_000_000 <= yy / 4 - yy / 100 + yy / 400 <= 600_000_000) by (nonlinear_arith)
        requires
            -2147483649 <= yy <= 2147483647,
    ;
    assert(0 <= (153 * mp + 2) / 5 <= 140_000_000_000) by (nonlinear_arith)
        requires
            0 <= mp <= 4294967295,
    ;
}

/// Days from 1970-01-01 to the date `y-m-d` of the proleptic Gregorian calendar.
///
/// Defined for every input: a month outside 1..=12 is counted on in the
/// March-based pattern, and the day of month counts on linearly.
pub fn days_from_civil(y: i32, m: u32, d: u32) -> (days: i64)
    ensures
        days == march_day_number(y as int, m as int, d as int),
        1 <= m <= 12 ==> days == day_number(y as int, m as int, d as int),
{
    let yy: i64 = if m <= 2 { y as i64 - 1 } else { y as i64 };
    let num: i64 = if yy >= 0 { yy } else { yy - 399 };
    let era: i64 = num / 400;
    proof {
        lemma_era_is_floor(yy as int, num as int, era as int);
        assert(-5368710 <= era <= 5368709) by (nonlinear_arith)
            requires
                era == yy / 400,
                -2147483649 <= yy <= 2147483647,
        ;
        assert(-5368710 * 400 <= era * 400 <= 5368709 * 400) by (nonlinear_arith)
            requires
                -5368710 <= era <= 5368709,
        ;
        assert(-5368710 * 146097 <= era * 146097 <= 5368709 * 146097) by (nonlinear_arith)
            requires
                -5368710 <= era <= 5368709,
        ;
        lemma_era_split(yy as int, era as int, yy - era * 400);
    }
    let yoe: i64 = yy - era * 400;
    let mm: i64 = m as i64;
    let dd: i64 = d as i64;
    let doy: i64 = (153 * (if mm > 2 { mm - 3 } else { mm + 9 }) + 2) / 5 + dd - 1;
    let doe: i64 = yoe * 365 + yoe / 4 - yoe / 100 + doy;
    let days = era * 146097 + doe - 719468;
    proof {
        if 1 <= m <= 12 {
            lemma_march_day_number_is_day_number(y as int, m as int, d as int);
        }
    }
    days
}

/// The date that follows `y-m-d` in the calendar.
pub open spec fn next_date(y: int, m: int, d: int) -> (int, int, int) {
    if d < days_in_month(y, m) {
        (y, m, d + 1)
    } else if m < 12 {
        (y, m + 1, 1)
    } else {
        (y + 1, 1, 1)
    }
}

pub open spec fn is_valid_date(y: int, m: int, d: int) -> bool {
    1 <= m <= 12 && 1 <= d <= days_in_month(y, m)
}

/// Day numbers count the calendar without gaps or repeats: 1970-01-01 is day
/// 0, and each valid date is followed by a valid date one day later.
pub proof fn lemma_day_number_consecutive(y: int, m: int, d: int)
    requires
        is_valid_date(y, m, d),
    ensures
        day_number(1970, 1, 1) == 0,
        is_valid_date(next_date(y, m, d).0, next_date(y, m, d).1, next_date(y, m, d).2),
        day_number(next_date(y, m, d).0, next_date(y, m, d).1, next_date(y, m, d).2) == day_number(
            y,
            m,
            d,
        ) + 1,
{
    reveal_with_fuel(days_before_month, 13);
    if d == days_in_month(y, m) && m == 12 {
        assert(days_before_year(y + 1) == days_before_year(y) + days_in_year(y));
    }
}

} // verus!
