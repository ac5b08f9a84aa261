//! Proleptic Gregorian calendar arithmetic on day counts relative to the Unix epoch.
//!
//! The executable functions follow Howard Hinnant's civil-from-days and
//! days-from-civil algorithms. Their contracts are stated against a direct
//! day count: whole years counted from March 1st, then whole months, then days.
use vstd::prelude::*;

verus! {

/// A Gregorian leap year.
pub open spec fn is_leap(y: int) -> bool {
    y % 4 == 0 && (y % 100 != 0 || y % 400 == 0)
}

/// Number of days in month `m` (1 = January) of year `y`.
pub open spec fn days_in_month(y: int, m: int) -> int {
    if m == 2 {
        if is_leap(y) { 29 } else { 28 }
    } else if m == 4 || m == 6 || m == 9 || m == 11 {
        30
    } else {
        31
    }
}

/// A calendar date that exists.
pub open spec fn is_valid_date(y: int, m: int, d: int) -> bool {
    1 <= m <= 12 && 1 <= d <= days_in_month(y, m)
}

/// Rust's `/` on integers: quotient rounded toward zero (for `b > 0`).
pub open spec fn trunc_div(a: int, b: int) -> int {
    if a >= 0 { a / b } else { -((-a) / b) }
}

/// Rust's `%` on integers: remainder with the sign of `a` (for `b > 0`).
pub open spec fn trunc_rem(a: int, b: int) -> int {
    if a >= 0 { a % b } else { -((-a) % b) }
}

/// Days from 0000-03-01 to March 1st of year `y`, years being counted from March.
pub open spec fn days_to_march(y: int) -> int {
    365 * y + y / 4 - y / 100 + y / 400
}

/// Days from March 1st to the first day of the month `mp` months after March.
pub open spec fn days_to_month(mp: int) -> int {
    trunc_div(153 * mp + 2, 5)
}

/// The year that holds the March before month `m` of year `y`.
pub open spec fn march_year(y: int, m: int) -> int {
    if m <= 2 { y - 1 } else { y }
}

/// Months from March to month `m` (0 = March, 11 = February), as Rust computes `(m + 9) % 12`.
pub open spec fn month_from_march(m: int) -> int {
    trunc_rem(m + 9, 12)
}

/// Day count of `y-m-d` relative to 1970-01-01; 719468 is the count from 0000-03-01 to 1970-01-01.
/// For a valid date this is the number of days from 1970-01-01 to that date.
pub open spec fn days_from_civil_spec(y: int, m: int, d: int) -> int {
    days_to_march(march_year(y, m)) + days_to_month(month_from_march(m)) + d - 1 - 719468
}

/// The valid date whose day count relative to 1970-01-01 is `z`.
pub open spec fn civil_of(z: int) -> (int, int, int) {
    choose|t: (int, int, int)| is_valid_date(t.0, t.1, t.2) && days_from_civil_spec(t.0, t.1, t.2) == z
}

/// Inputs for which `days_from_civil` computes without overflowing `i64`.
pub open spec fn civil_input_fits(y: int, m: int, d: int) -> bool {
    &&& -0x40_0000_0000_0000 <= y <= 0x40_0000_0000_0000
    &&& m <= i64::MAX - 9
    &&& -0x1000_0000_0000_0000 <= d <= 0x1000_0000_0000_0000
}

/// Length of the month `mp` months after March, February counted with 29 days.
spec fn march_month_max(mp: int) -> int {
    if mp == 11 {
        29
    } else if mp == 1 || mp == 3 || mp == 6 || mp == 8 {
        30
    } else {
        31
    }
}

/// Within one 400-year era, the year of era and day of year recovered from a day of era.
proof fn lemma_era_split(doe: u32)
    requires
        doe <= 146096,
    ensures
        ({
            let yoe = (doe - doe / 1460 + doe / 36524 - doe / 146096) / 365;
            let doy = doe - (365 * yoe + yoe / 4 - yoe / 100);
            &&& yoe <= 399
            &&& 365 * yoe + yoe / 4 - yoe / 100 <= doe
            &&& doy <= 365
            &&& (doy == 365 ==> ((yoe + 1) % 4 == 0 && ((yoe + 1) % 100 != 0 || (yoe + 1) % 400
                == 0)))
        }),
{
    assert({
        let yoe = (doe - doe / 1460 + doe / 36524 - doe / 146096) / 365;
        let doy = doe - (365 * yoe + yoe / 4 - yoe / 100);
        &&& yoe <= 399
        &&& 365 * yoe + yoe / 4 - yoe / 100 <= doe
        &&& doy <= 365
        &&& (doy == 365 ==> ((yoe + 1) % 4 == 0 && ((yoe + 1) % 100 != 0 || (yoe + 1) % 400
            == 0)))
    }) by (bit_vector)
        requires
            doe <= 146096,
    ;
}

/// A day of the March-based year splits into a month and a day of that month.
proof fn lemma_month_split(doy: u32)
    requires
        doy <= 365,
    ensures
        ({
            let mp = (5 * doy + 2) / 153;
            let d = doy - (153 * mp + 2) / 5 + 1;
            &&& mp <= 11
            &&& (153 * mp + 2) / 5 <= doy
            &&& 1 <= d
            &&& (mp == 11 ==> d == doy - 336)
            &&& (mp != 11 ==> d <= (if mp == 1 || mp == 3 || mp == 6 || mp == 8 {
                30u32
            } else {
                31u32
            }))
        }),
{
    assert({
        let mp = (5 * doy + 2) / 153;
        let d = doy - (153 * mp + 2) / 5 + 1;
        &&& mp <= 11
        &&& (153 * mp + 2) / 5 <= doy
        &&& 1 <= d
        &&& (mp == 11 ==> d == doy - 336)
        &&& (mp != 11 ==> d <= (if mp == 1 || mp == 3 || mp == 6 || mp == 8 {
            30u32
        } else {
            31u32
        }))
    }) by (bit_vector)
        requires
            doy <= 365,
    ;
}

/// A month and a day of that month give back the same month and day through the forward split.
proof fn lemma_month_join(mp: u32, d: u32)
    requires
        mp <= 11,
        1 <= d,
        d <= (if mp == 11 {
            29u32
        } else if mp == 1 || mp == 3 || mp == 6 || mp == 8 {
            30u32
        } else {
            31u32
        }),
    ensures
        ({
            let doy = (153 * mp + 2) / 5 + d - 1;
            &&& doy <= 365
            &&& (5 * doy + 2) / 153 == mp
        }),
{
    assert({
        let doy = (153 * mp + 2) / 5 + d - 1;
        &&& doy <= 365
        &&& (5 * doy + 2) / 153 == mp
    }) by (bit_vector)
        requires
            mp <= 11,
            1 <= d,
            d <= (if mp == 11 {
                29u32
            } else if mp == 1 || mp == 3 || mp == 6 || mp == 8 {
                30u32
            } else {
                31u32
            }),
    ;
}

/// Whole eras of 400 years hold 146097 days each.
proof fn lemma_days_to_march_era(era: int, yoe: int)
    requires
        0 <= yoe < 400,
    ensures
        days_to_march(era * 400 + yoe) == era * 146097 + 365 * yoe + yoe / 4 - yoe / 100,
{
    let y = era * 400 + yoe;
    assert(y / 4 == era * 100 + yoe / 4) by {
        vstd::arithmetic::div_mod::lemma_fundamental_div_mod_converse(
            y,
            4,
            era * 100 + yoe / 4,
            yoe % 4,
        );
    }
    assert(y / 100 == era * 4 + yoe / 100) by {
        vstd::arithmetic::div_mod::lemma_fundamental_div_mod_converse(
            y,
            100,
            era * 4 + yoe / 100,
            yoe % 100,
        );
    }
    assert(y / 400 == era) by {
        vstd::arithmetic::div_mod::lemma_fundamental_div_mod_converse(y, 400, era, yoe);
    }
}

/// Leap years repeat every 400 years.
proof fn lemma_leap_era(era: int, k: int)
    ensures
        is_leap(era * 400 + k) == is_leap(k),
{
    let y = era * 400 + k;
    assert(y % 4 == k % 4) by {
        vstd::arithmetic::div_mod::lemma_mod_multiples_vanish(era * 100, k, 4);
    }
    assert(y % 100 == k % 100) by {
        vstd::arithmetic::div_mod::lemma_mod_multiples_vanish(era * 4, k, 100);
    }
    assert(y % 400 == k % 400) by {
        vstd::arithmetic::div_mod::lemma_mod_multiples_vanish(era, k, 400);
    }
}

/// The year after `y` starts 365 days later, 366 when it ends in a leap February.
proof fn lemma_days_to_march_step(y: int)
    ensures
        days_to_march(y + 1) - days_to_march(y) == 365 + (if is_leap(y + 1) { 1int } else { 0 }),
{
    let n = y + 1;
    assert((n / 4 - y / 4 == 1) == (n % 4 == 0)) by {
        vstd::arithmetic::div_mod::lemma_fundamental_div_mod(n, 4);
        vstd::arithmetic::div_mod::lemma_fundamental_div_mod(y, 4);
    }
    assert((n / 100 - y / 100 == 1) == (n % 100 == 0)) by {
        vstd::arithmetic::div_mod::lemma_fundamental_div_mod(n, 100);
        vstd::arithmetic::div_mod::lemma_fundamental_div_mod(y, 100);
    }
    assert((n / 400 - y / 400 == 1) == (n % 400 == 0)) by {
        vstd::arithmetic::div_mod::lemma_fundamental_div_mod(n, 400);
        vstd::arithmetic::div_mod::lemma_fundamental_div_mod(y, 400);
    }
    assert(0 <= n / 4 - y / 4 <= 1) by {
        vstd::arithmetic::div_mod::lemma_fundamental_div_mod(n, 4);
        vstd::arithmetic::div_mod::lemma_fundamental_div_mod(y, 4);
    }
    assert(0 <= n / 100 - y / 100 <= 1) by {
        vstd::arithmetic::div_mod::lemma_fundamental_div_mod(n, 100);
        vstd::arithmetic::div_mod::lemma_fundamental_div_mod(y, 100);
    }
    assert(0 <= n / 400 - y / 400 <= 1) by {
        vstd::arithmetic::div_mod::lemma_fundamental_div_mod(n, 400);
        vstd::arithmetic::div_mod::lemma_fundamental_div_mod(y, 400);
    }
    assert(n % 400 == 0 ==> n % 100 == 0) by {
        vstd::arithmetic::div_mod::lemma_fundamental_div_mod(n, 400);
        vstd::arithmetic::div_mod::lemma_fundamental_div_mod(n, 100);
        if n % 400 == 0 {
            vstd::arithmetic::div_mod::lemma_fundamental_div_mod_converse(n, 100, (n / 400) * 4, 0);
        }
    }
    assert(n % 100 == 0 ==> n % 4 == 0) by {
        if n % 100 == 0 {
            vstd::arithmetic::div_mod::lemma_fundamental_div_mod(n, 100);
            vstd::arithmetic::div_mod::lemma_fundamental_div_mod_converse(n, 4, (n / 100) * 25, 0);
        }
    }
}

/// Later March-based years start later.
proof fn lemma_days_to_march_monotone(a: int, b: int)
    requires
        a < b,
    ensures
        days_to_march(a + 1) <= days_to_march(b),
    decreases b - a,
{
    if a + 1 < b {
        lemma_days_to_march_monotone(a, b - 1);
        lemma_days_to_march_step(b - 1);
    }
}

/// The civil-from-days algorithm on mathematical integers.
spec fn civil_algo(z: int) -> (int, int, int) {
    let n = z + 719468;
    let era = n / 146097;
    let doe = n - era * 146097;
    let yoe = (doe - doe / 1460 + doe / 36524 - doe / 146096) / 365;
    let y = yoe + era * 400;
    let doy = doe - (365 * yoe + yoe / 4 - yoe / 100);
    let mp = (5 * doy + 2) / 153;
    let d = doy - (153 * mp + 2) / 5 + 1;
    let m = if mp < 10 { mp + 3 } else { mp - 9 };
    (if m <= 2 { y + 1 } else { y }, m, d)
}

/// The algorithm's date exists and counts back to `z`.
proof fn lemma_civil_algo(z: int)
    ensures
        is_valid_date(civil_algo(z).0, civil_algo(z).1, civil_algo(z).2),
        days_from_civil_spec(civil_algo(z).0, civil_algo(z).1, civil_algo(z).2) == z,
{
    let n = z + 719468;
    let era = n / 146097;
    let doe = n - era * 146097;
    vstd::arithmetic::div_mod::lemma_fundamental_div_mod(n, 146097);
    assert(0 <= doe <= 146096);
    let d32 = doe as u32;
    lemma_era_split(d32);
    let yoe = (doe - doe / 1460 + doe / 36524 - doe / 146096) / 365;
    let doy = doe - (365 * yoe + yoe / 4 - yoe / 100);
    assert(0 <= yoe <= 399);
    assert(0 <= doy <= 365);
    let y32 = doy as u32;
    lemma_month_split(y32);
    let mp = (5 * doy + 2) / 153;
    let d = doy - (153 * mp + 2) / 5 + 1;
    let y = yoe + era * 400;
    let m = if mp < 10 { mp + 3 } else { mp - 9 };
    let yy = if m <= 2 { y + 1 } else { y };
    assert(civil_algo(z) == (yy, m, d));
    assert(march_year(yy, m) == y);
    assert(month_from_march(m) == mp);
    assert(days_to_month(mp) == (153 * mp + 2) / 5);
    lemma_days_to_march_era(era, yoe);
    assert(days_from_civil_spec(yy, m, d) == z);
    if m == 2 {
        lemma_leap_era(era, yoe + 1);
        assert(era * 400 + (yoe + 1) == yy);
    }
}

/// Two valid dates with the same day count are the same date.
proof fn lemma_civil_unique(a: (int, int, int), b: (int, int, int))
    requires
        is_valid_date(a.0, a.1, a.2),
        is_valid_date(b.0, b.1, b.2),
        days_from_civil_spec(a.0, a.1, a.2) == days_from_civil_spec(b.0, b.1, b.2),
    ensures
        a == b,
{
    let ya = march_year(a.0, a.1);
    let yb = march_year(b.0, b.1);
    let ma = month_from_march(a.1);
    let mb = month_from_march(b.1);
    assert(0 <= ma <= 11 && 0 <= mb <= 11);
    let doya = days_to_month(ma) + a.2 - 1;
    let doyb = days_to_month(mb) + b.2 - 1;
    lemma_doy_bound(a);
    lemma_doy_bound(b);
    lemma_days_to_march_step(ya);
    lemma_days_to_march_step(yb);
    if ya < yb {
        lemma_days_to_march_monotone(ya, yb);
        assert(false);
    }
    if yb < ya {
        lemma_days_to_march_monotone(yb, ya);
        assert(false);
    }
    assert(doya == doyb);
    lemma_month_join(ma as u32, a.2 as u32);
    lemma_month_join(mb as u32, b.2 as u32);
    assert(ma == mb);
}

/// The day of the March-based year of a valid date lies within that year.
proof fn lemma_doy_bound(a: (int, int, int))
    requires
        is_valid_date(a.0, a.1, a.2),
    ensures
        0 <= month_from_march(a.1) <= 11,
        a.2 <= march_month_max(month_from_march(a.1)),
        0 <= days_to_month(month_from_march(a.1)) + a.2 - 1 < 365 + (if is_leap(
            march_year(a.0, a.1) + 1,
        ) {
            1int
        } else {
            0
        }),
        days_to_month(month_from_march(a.1)) == (153 * month_from_march(a.1) + 2) / 5,
{
    let mp = month_from_march(a.1);
    assert(march_year(a.0, a.1) + 1 == a.0 ==> a.1 <= 2);
    lemma_month_join(mp as u32, a.2 as u32);
}

/// Days since 1970-01-01 (negative before it) of the date `y-m-d`.
/// Month and day are not checked: out-of-range values count on past the month's end or back
/// before its start, the way the arithmetic falls.
pub fn days_from_civil(y: i64, m: i64, d: i64) -> (r: i64)
    requires
        civil_input_fits(y as int, m as int, d as int),
    ensures
        r == days_from_civil_spec(y as int, m as int, d as int),
{
    let y = if m <= 2 { y - 1 } else { y };
    let era = (if y >= 0 { y } else { y - 399 }) / 400;
    proof {
        let yi = y as int;
        vstd::arithmetic::div_mod::lemma_fundamental_div_mod(yi, 400);
        assert(era == yi / 400) by {
            if yi < 0 {
                vstd::arithmetic::div_mod::lemma_fundamental_div_mod((399 - yi), 400);
                vstd::arithmetic::div_mod::lemma_fundamental_div_mod_converse(
                    yi,
                    400,
                    -((399 - yi) / 400),
                    yi + 400 * ((399 - yi) / 400),
                );
            }
        }
    }
    let yoe = y - era * 400;
    let mp = (m + 9) % 12;
    let doy = (153 * mp + 2) / 5 + d - 1;
    let doe = yoe * 365 + yoe / 4 - yoe / 100 + doy;
    proof {
        lemma_days_to_march_era(era as int, yoe as int);
    }
    era * 146097 + doe - 719468
}

/// The date (year, month 1..=12, day) that lies `z` days after 1970-01-01.
pub fn civil_from_days(z: i64) -> (r: (i64, i64, i64))
    requires
        z <= i64::MAX - 719468,
    ensures
        is_valid_date(r.0 as int, r.1 as int, r.2 as int),
        days_from_civil_spec(r.0 as int, r.1 as int, r.2 as int) == z,
        (r.0 as int, r.1 as int, r.2 as int) == civil_of(z as int),
{
    let z = z + 719468;
    let era = (if z >= 0 { z } else { z - 146096 }) / 146097;
    proof {
        let zi = z as int;
        vstd::arithmetic::div_mod::lemma_fundamental_div_mod(zi, 146097);
        assert(era == zi / 146097) by {
            if zi < 0 {
                vstd::arithmetic::div_mod::lemma_fundamental_div_mod((146096 - zi), 146097);
                vstd::arithmetic::div_mod::lemma_fundamental_div_mod_converse(
                    zi,
                    146097,
                    -((146096 - zi) / 146097),
                    zi + 146097 * ((146096 - zi) / 146097),
                );
            }
        }
    }
    let doe = z - era * 146097;
    proof {
        lemma_era_split(doe as u32);
    }
    let yoe = (doe - doe / 1460 + doe / 36524 - doe / 146096) / 365;
    let y = yoe + era * 400;
    let doy = doe - (365 * yoe + yoe / 4 - yoe / 100);
    proof {
        lemma_month_split(doy as u32);
    }
    let mp = (5 * doy + 2) / 153;
    let d = doy - (153 * mp + 2) / 5 + 1;
    let m = if mp < 10 { mp + 3 } else { mp - 9 };
    let r = (if m <= 2 { y + 1 } else { y }, m, d);
    proof {
        let zz = z as int - 719468;
        assert((r.0 as int, r.1 as int, r.2 as int) == civil_algo(zz));
        lemma_civil_algo(zz);
        let c = civil_of(zz);
        lemma_civil_unique(c, civil_algo(zz));
    }
    r
}

/// Every day count names exactly one valid date, and that date counts back to it:
/// `days_from_civil` undoes `civil_from_days`.
pub proof fn law_days_civil_days(z: int)
    ensures
        is_valid_date(civil_of(z).0, civil_of(z).1, civil_of(z).2),
        days_from_civil_spec(civil_of(z).0, civil_of(z).1, civil_of(z).2) == z,
{
    lemma_civil_algo(z);
}

/// `civil_from_days` undoes `days_from_civil` on every valid date.
pub proof fn law_civil_days_civil(y: int, m: int, d: int)
    requires
        is_valid_date(y, m, d),
    ensures
        civil_of(days_from_civil_spec(y, m, d)) == (y, m, d),
{
    let z = days_from_civil_spec(y, m, d);
    lemma_civil_algo(z);
    lemma_civil_unique(civil_of(z), (y, m, d));
}

/// The calendar day after `y-m-d`: the next day of the month, else the first of the next
/// month, else January 1st of the next year.
pub open spec fn next_date(y: int, m: int, d: int) -> (int, int, int) {
    if d < days_in_month(y, m) {
        (y, m, d + 1)
    } else if m < 12 {
        (y, m + 1, 1)
    } else {
        (y + 1, 1, 1)
    }
}

/// The day after a valid date is valid and counts one day more.
proof fn lemma_next_date(y: int, m: int, d: int)
    requires
        is_valid_date(y, m, d),
    ensures
        is_valid_date(next_date(y, m, d).0, next_date(y, m, d).1, next_date(y, m, d).2),
        days_from_civil_spec(next_date(y, m, d).0, next_date(y, m, d).1, next_date(y, m, d).2)
            == days_from_civil_spec(y, m, d) + 1,
{
    if d < days_in_month(y, m) {
    } else if m == 2 {
        lemma_days_to_march_step(y - 1);
        assert(month_from_march(2) == 11 && month_from_march(3) == 0);
        assert(days_to_month(11) == 337 && days_to_month(0) == 0);
    } else if m < 12 {
        if m == 1 {
            assert(days_to_month(11) - days_to_month(10) == 31);
        } else if m == 3 {
            assert(days_to_month(1) - days_to_month(0) == 31);
        } else if m == 4 {
            assert(days_to_month(2) - days_to_month(1) == 30);
        } else if m == 5 {
            assert(days_to_month(3) - days_to_month(2) == 31);
        } else if m == 6 {
            assert(days_to_month(4) - days_to_month(3) == 30);
        } else if m == 7 {
            assert(days_to_month(5) - days_to_month(4) == 31);
        } else if m == 8 {
            assert(days_to_month(6) - days_to_month(5) == 31);
        } else if m == 9 {
            assert(days_to_month(7) - days_to_month(6) == 30);
        } else if m == 10 {
            assert(days_to_month(8) - days_to_month(7) == 31);
        } else {
            assert(days_to_month(9) - days_to_month(8) == 30);
        }
    } else {
        assert(month_from_march(12) == 9 && month_from_march(1) == 10);
        assert(days_to_month(10) - days_to_month(9) == 31);
    }
}

/// Consecutive day counts are consecutive calendar days: the date of `z + 1` is the day
/// after the date of `z`.
pub proof fn law_next_day_count_is_next_date(z: int)
    ensures
        civil_of(z + 1) == next_date(civil_of(z).0, civil_of(z).1, civil_of(z).2),
{
    let a = civil_of(z);
    lemma_civil_algo(z);
    lemma_civil_algo(z + 1);
    lemma_next_date(a.0, a.1, a.2);
    lemma_civil_unique(civil_of(z + 1), next_date(a.0, a.1, a.2));
}

/// Day counts 0 through 2932896 fall in the years 1970 through 9999.
pub proof fn law_four_digit_years(z: int)
    requires
        0 <= z <= 2932896,
    ensures
        1970 <= civil_of(z).0 <= 9999,
{
    let a = civil_of(z);
    lemma_civil_algo(z);
    lemma_doy_bound(a);
    let my = march_year(a.0, a.1);
    let doy = days_to_month(month_from_march(a.1)) + a.2 - 1;
    assert(z == days_to_march(my) + doy - 719468);
    if a.0 > 9999 {
        if a.1 > 2 {
            if my > 10000 {
                lemma_days_to_march_monotone(9999, my);
            }
            assert(days_to_march(10000) == 3652425);
        } else {
            assert(month_from_march(a.1) >= 10);
            if my > 9999 {
                lemma_days_to_march_monotone(9998, my);
            }
            assert(days_to_march(9999) == 3652059);
        }
        assert(false);
    }
    if a.0 < 1970 {
        if a.1 > 2 {
            assert(month_from_march(a.1) <= 9);
            assert(days_to_month(month_from_march(a.1)) <= 275);
            if my < 1969 {
                lemma_days_to_march_monotone(my, 1969);
                lemma_days_to_march_step(my);
            }
            assert(days_to_march(1969) == 719162);
        } else {
            if my < 1968 {
                lemma_days_to_march_monotone(my, 1968);
                lemma_days_to_march_step(my);
            }
            assert(days_to_march(1968) == 718797);
        }
        assert(false);
    }
}

} // verus!
