//! The mathematical model of the proleptic Gregorian calendar: leap years,
//! month lengths, and day numbers counted from 0000-01-01.

use vstd::prelude::*;
use vstd::arithmetic::div_mod::lemma_fundamental_div_mod;
use vstd::arithmetic::div_mod::lemma_fundamental_div_mod_converse;

verus! {

/// A year is a leap year when it is divisible by 4, except for centuries
/// that are not divisible by 400.
pub open spec fn is_leap_year(y: int) -> bool {
    y % 4 == 0 && (y % 100 != 0 || y % 400 == 0)
}

/// How many days the year `y` has.
pub open spec fn days_in_year(y: int) -> int {
    if is_leap_year(y) {
        366
    } else {
        365
    }
}

/// How many days month `m` (1-12) of year `y` has; 0 for anything that is
/// not a month.
pub open spec fn days_in_month(y: int, m: int) -> int {
    if m == 2 {
        if is_leap_year(y) {
            29
        } else {
            28
        }
    } else if m == 4 || m == 6 || m == 9 || m == 11 {
        30
    } else if 1 <= m <= 12 {
        31
    } else {
        0
    }
}

/// Days of year `y` that pass before month `m` begins.
pub open spec fn days_before_month(y: int, m: int) -> int
    decreases m,
{
    if m <= 1 {
        0
    } else {
        days_before_month(y, m - 1) + days_in_month(y, m - 1)
    }
}

/// Days between 0000-01-01 and `y`-01-01; negative for years before 0.
pub open spec fn days_before_year(y: int) -> int
    decreases (if y >= 0 { y } else { -y }),
{
    if y > 0 {
        days_before_year(y - 1) + days_in_year(y - 1)
    } else if y < 0 {
        days_before_year(y + 1) - days_in_year(y)
    } else {
        0
    }
}

/// The day number of a date: days between 0000-01-01 and `y`-`m`-`d`.
pub open spec fn day_number(y: int, m: int, d: int) -> int {
    days_before_year(y) + days_before_month(y, m) + (d - 1)
}

/// `m` (1-12) and `d` (1 up to the month's length) name a real date of
/// year `y`.
pub open spec fn valid_date(y: int, m: int, d: int) -> bool {
    1 <= m <= 12 && 1 <= d <= days_in_month(y, m)
}

/// Going one year forward adds exactly that year's length in days,
/// whichever sign the year has.
pub proof fn lemma_days_before_year_step(y: int)
    ensures
        days_before_year(y + 1) == days_before_year(y) + days_in_year(y),
{
}

/// Closed form of `days_before_year` for non-negative years: each earlier
/// year contributes 365 days, and each leap year among them one more.
pub proof fn lemma_days_before_year_closed_nonneg(y: int)
    requires
        y >= 0,
    ensures
        days_before_year(y) == 365 * y + (y + 3) / 4 - (y + 99) / 100 + (y + 399) / 400,
    decreases y,
{
    if y > 0 {
        lemma_days_before_year_closed_nonneg(y - 1);
        lemma_days_before_year_step(y - 1);
        assert((y + 3) / 4 - (y + 2) / 4 == if (y - 1) % 4 == 0 { 1int } else { 0int });
        assert((y + 99) / 100 - (y + 98) / 100 == if (y - 1) % 100 == 0 { 1int } else { 0int });
        assert((y + 399) / 400 - (y + 398) / 400 == if (y - 1) % 400 == 0 { 1int } else { 0int });
        assert(days_in_year(y - 1) == 365 + (if (y - 1) % 4 == 0 { 1int } else { 0int }) - (if (y
            - 1) % 100 == 0 {
            1int
        } else {
            0int
        }) + (if (y - 1) % 400 == 0 {
            1int
        } else {
            0int
        }));
    }
}

/// Closed form of `days_before_year` for negative years: counting back
/// from year 0, mirrored onto non-negative quotients.
pub proof fn lemma_days_before_year_closed_neg(y: int)
    requires
        y < 0,
    ensures
        days_before_year(y) == -(365 * (-y) + (-y) / 4 - (-y) / 100 + (-y) / 400),
    decreases -y,
{
    let z: int = -y;
    lemma_neg_divisible(z, 4);
    lemma_neg_divisible(z, 100);
    lemma_neg_divisible(z, 400);
    assert(days_in_year(y) == 365 + (if z % 4 == 0 { 1int } else { 0int }) - (if z % 100 == 0 {
        1int
    } else {
        0int
    }) + (if z % 400 == 0 {
        1int
    } else {
        0int
    }));
    if y < -1 {
        lemma_days_before_year_closed_neg(y + 1);
        assert(z / 4 - (z - 1) / 4 == if z % 4 == 0 { 1int } else { 0int });
        assert(z / 100 - (z - 1) / 100 == if z % 100 == 0 { 1int } else { 0int });
        assert(z / 400 - (z - 1) / 400 == if z % 400 == 0 { 1int } else { 0int });
    } else {
        assert(days_before_year(-1) == days_before_year(0) - days_in_year(-1));
        assert(days_before_year(0) == 0);
    }
}

/// The running day totals at each month's start, for any year.
pub proof fn lemma_days_before_month_all(y: int)
    ensures
        days_before_month(y, 1) == 0,
        days_before_month(y, 2) == 31,
        days_before_month(y, 3) == 59 + if is_leap_year(y) { 1int } else { 0int },
        days_before_month(y, 4) == 90 + if is_leap_year(y) { 1int } else { 0int },
        days_before_month(y, 5) == 120 + if is_leap_year(y) { 1int } else { 0int },
        days_before_month(y, 6) == 151 + if is_leap_year(y) { 1int } else { 0int },
        days_before_month(y, 7) == 181 + if is_leap_year(y) { 1int } else { 0int },
        days_before_month(y, 8) == 212 + if is_leap_year(y) { 1int } else { 0int },
        days_before_month(y, 9) == 243 + if is_leap_year(y) { 1int } else { 0int },
        days_before_month(y, 10) == 273 + if is_leap_year(y) { 1int } else { 0int },
        days_before_month(y, 11) == 304 + if is_leap_year(y) { 1int } else { 0int },
        days_before_month(y, 12) == 334 + if is_leap_year(y) { 1int } else { 0int },
        days_before_month(y, 13) == days_in_year(y),
{
    reveal_with_fuel(days_before_month, 14);
}

/// Within its year, a valid date falls strictly before the next year's
/// first day.
pub proof fn lemma_date_within_year(y: int, m: int, d: int)
    requires
        valid_date(y, m, d),
    ensures
        0 <= days_before_month(y, m) + (d - 1) < days_in_year(y),
{
    lemma_days_before_month_all(y);
}

/// `days_before_year` grows by at least a full year per year.
pub proof fn lemma_days_before_year_mono(y1: int, y2: int)
    requires
        y1 < y2,
    ensures
        days_before_year(y1) + days_in_year(y1) <= days_before_year(y2),
    decreases y2 - y1,
{
    lemma_days_before_year_step(y1);
    if y1 + 1 < y2 {
        lemma_days_before_year_mono(y1 + 1, y2);
    }
}

/// For a positive divisor, negating the dividend preserves divisibility.
proof fn lemma_neg_divisible(z: int, d: int)
    requires
        d > 0,
    ensures
        ((-z) % d == 0) == (z % d == 0),
{
    lemma_fundamental_div_mod(z, d);
    lemma_fundamental_div_mod(-z, d);
    if z % d == 0 {
        assert(-z == (-(z / d)) * d + 0) by (nonlinear_arith)
            requires
                z == d * (z / d) + (z % d),
                z % d == 0;
        lemma_fundamental_div_mod_converse(-z, d, -(z / d), 0);
    }
    if (-z) % d == 0 {
        assert(z == (-((-z) / d)) * d + 0) by (nonlinear_arith)
            requires
                -z == d * ((-z) / d) + ((-z) % d),
                (-z) % d == 0;
        lemma_fundamental_div_mod_converse(z, d, -((-z) / d), 0);
    }
}

/// Whether `year` is a leap year.
pub fn leap_year(year: i32) -> (r: bool)
    ensures
        r == is_leap_year(year as int),
{
    if year >= 0 {
        let y: u32 = year as u32;
        y % 4 == 0 && (y % 100 != 0 || y % 400 == 0)
    } else {
        let z: i64 = -(year as i64);
        let zu: u64 = z as u64;
        proof {
            lemma_neg_divisible(zu as int, 4);
            lemma_neg_divisible(zu as int, 100);
            lemma_neg_divisible(zu as int, 400);
        }
        zu % 4 == 0 && (zu % 100 != 0 || zu % 400 == 0)
    }
}

/// How many days the given month of the given year has.
pub fn month_length(year: i32, month: u32) -> (r: u32)
    requires
        1 <= month <= 12,
    ensures
        r as int == days_in_month(year as int, month as int),
{
    if month == 2 {
        if leap_year(year) {
            29
        } else {
            28
        }
    } else if month == 4 || month == 6 || month == 9 || month == 11 {
        30
    } else {
        31
    }
}

/// Days between 0000-01-01 and `year`-01-01, by the closed form.
pub fn days_to_year(year: i32) -> (r: i64)
    ensures
        r as int == days_before_year(year as int),
        -786_000_000_000 <= r as int <= 786_000_000_000,
{
    if year >= 0 {
        let y: i64 = year as i64;
        let q4: i64 = ((y + 3) as u64 / 4) as i64;
        let q100: i64 = ((y + 99) as u64 / 100) as i64;
        let q400: i64 = ((y + 399) as u64 / 400) as i64;
        proof {
            lemma_days_before_year_closed_nonneg(year as int);
        }
        365 * y + q4 - q100 + q400
    } else {
        let z: i64 = -(year as i64);
        let zu: u64 = z as u64;
        let q4: i64 = (zu / 4) as i64;
        let q100: i64 = (zu / 100) as i64;
        let q400: i64 = (zu / 400) as i64;
        proof {
            lemma_days_before_year_closed_neg(year as int);
        }
        -(365 * z + q4 - q100 + q400)
    }
}

/// Days of the year that pass before the given month begins.
pub fn days_to_month(year: i32, month: u32) -> (r: u32)
    requires
        1 <= month <= 12,
    ensures
        r as int == days_before_month(year as int, month as int),
{
    let base: u32 = if month == 1 {
        0
    } else if month == 2 {
        31
    } else if month == 3 {
        59
    } else if month == 4 {
        90
    } else if month == 5 {
        120
    } else if month == 6 {
        151
    } else if month == 7 {
        181
    } else if month == 8 {
        212
    } else if month == 9 {
        243
    } else if month == 10 {
        273
    } else if month == 11 {
        304
    } else {
        334
    };
    proof {
        lemma_days_before_month_all(year as int);
    }
    if month > 2 && leap_year(year) {
        base + 1
    } else {
        base
    }
}

} // verus!
