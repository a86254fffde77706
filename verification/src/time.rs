//! UTC calendar arithmetic without a date library: Howard Hinnant's
//! civil/day algorithms, ISO week numbers, and the sortable snapshot stamp.
//!
//! The day-number mapping is specified by Hinnant's closed forms; the laws at the
//! bottom of this file prove that they are mutually inverse on valid Gregorian
//! dates and that every day number maps to a valid date.

use vstd::prelude::*;
use crate::text::{all_digits, chars_of, digit_char, digits_value, int_decimal_padded, nat_digits, parse_digits, push_char, push_i64_padded, zero_pad};

verus! {

// ---- the Gregorian calendar -------------------------------------------------

pub open spec fn is_leap(y: int) -> bool {
    y % 4 == 0 && (y % 100 != 0 || y % 400 == 0)
}

pub open spec fn days_in_month(y: int, m: int) -> int {
    if m == 2 {
        if is_leap(y) {
            29
        } else {
            28
        }
    } else if m == 4 || m == 6 || m == 9 || m == 11 {
        30
    } else {
        31
    }
}

/// A real calendar day: month `1..=12`, day `1..=days_in_month`.
pub open spec fn valid_date(y: int, m: int, d: int) -> bool {
    1 <= m <= 12 && 1 <= d <= days_in_month(y, m)
}

// ---- Hinnant's closed forms -------------------------------------------------

/// Year-of-era for a day-of-era in `[0, 146096]`.
pub open spec fn yoe_of_doe(doe: int) -> int {
    (doe - doe / 1460 + doe / 36524 - doe / 146096) / 365
}

/// First day-of-era of year-of-era `yoe` (years start on March 1).
pub open spec fn doe_start(yoe: int) -> int {
    365 * yoe + yoe / 4 - yoe / 100
}

/// March-based month index (`0` = March .. `11` = February) of a day-of-year.
pub open spec fn mp_of_doy(doy: int) -> int {
    (5 * doy + 2) / 153
}

/// First day-of-year of March-based month `mp`.
pub open spec fn doy_start(mp: int) -> int {
    (153 * mp + 2) / 5
}

/// Days since 1970-01-01 of the civil date `(y, m, d)`.
pub open spec fn days_from_civil_spec(y: int, m: int, d: int) -> int {
    let yy = if m <= 2 {
        y - 1
    } else {
        y
    };
    let era = yy / 400;
    let yoe = yy - era * 400;
    let mp = if m > 2 {
        m - 3
    } else {
        m + 9
    };
    let doy = doy_start(mp) + d - 1;
    let doe = doe_start(yoe) + doy;
    era * 146097 + doe - 719468
}

/// The civil date `(year, month, day)` of day `z` since 1970-01-01.
pub open spec fn civil_from_days_spec(z: int) -> (int, int, int) {
    let zz = z + 719468;
    let era = zz / 146097;
    let doe = zz - era * 146097;
    let yoe = yoe_of_doe(doe);
    let y = yoe + era * 400;
    let doy = doe - doe_start(yoe);
    let mp = mp_of_doy(doy);
    let d = doy - doy_start(mp) + 1;
    let m = if mp < 10 {
        mp + 3
    } else {
        mp - 9
    };
    (if m <= 2 {
        y + 1
    } else {
        y
    }, m, d)
}

/// ISO weekday, Monday = 1 .. Sunday = 7, of day `z` (1970-01-01 was a Thursday).
pub open spec fn iso_dow(z: int) -> int {
    (z + 3) % 7 + 1
}

/// ISO-8601 `(week_year, week)` of a date: the week containing its Thursday.
pub open spec fn iso_week_spec(y: int, m: int, d: int) -> (int, int) {
    let z = days_from_civil_spec(y, m, d);
    let thursday = z + (4 - iso_dow(z));
    let ty = civil_from_days_spec(thursday).0;
    let jan1 = days_from_civil_spec(ty, 1, 1);
    (ty, (thursday - jan1) / 7 + 1)
}

/// Day numbers [`civil_from_days`] accepts (far beyond any real date).
pub open spec fn day_in_range(z: int) -> bool {
    -0x4000_0000_0000_0000 <= z <= 0x4000_0000_0000_0000
}

/// Years [`days_from_civil`] accepts (far beyond any real date).
pub open spec fn year_in_range(y: int) -> bool {
    -0x40_0000_0000_0000 <= y <= 0x40_0000_0000_0000
}

/// Years [`iso_week`] accepts: narrower, so that the week's Thursday and the
/// first of its year stay inside the other two ranges.
pub open spec fn week_year_in_range(y: int) -> bool {
    -0x20_0000_0000_0000 <= y <= 0x20_0000_0000_0000
}

// ---- executable -------------------------------------------------------------

/// Floor division by a positive divisor.
fn floor_div(x: i64, k: i64) -> (q: i64)
    requires
        k > 0,
    ensures
        q as int == x as int / k as int,
{
    match x.checked_div_euclid(k) {
        Some(q) => q,
        None => {
            proof {
                vstd::arithmetic::div_mod::lemma_fundamental_div_mod(x as int, k as int);
                vstd::arithmetic::div_mod::lemma_mod_bound(x as int, k as int);
                lemma_floor_div_small(x as int, k as int);
            }
            0
        },
    }
}

/// Euclidean remainder by a positive divisor.
fn floor_mod(x: i64, k: i64) -> (r: i64)
    requires
        k > 0,
    ensures
        r as int == x as int % k as int,
{
    match x.checked_rem_euclid(k) {
        Some(r) => r,
        None => {
            proof {
                vstd::arithmetic::div_mod::lemma_fundamental_div_mod(x as int, k as int);
            }
            0
        },
    }
}

proof fn lemma_floor_div_small(x: int, k: int)
    requires
        k > 0,
        x == k * (x / k) + x % k,
        0 <= x % k < k,
        i64::MIN <= x <= i64::MAX,
    ensures
        i64::MIN <= x / k <= i64::MAX,
{
    let q = x / k;
    let r = x % k;
    assert(x >= 0 ==> 0 <= q <= x) by (nonlinear_arith)
        requires
            k > 0,
            x == k * q + r,
            0 <= r < k,
    ;
    assert(x < 0 ==> x <= q < 0) by (nonlinear_arith)
        requires
            k > 0,
            x == k * q + r,
            0 <= r < k,
    ;
}

/// Days since 1970-01-01 -> `(year, month, day)`, UTC (Hinnant
/// `civil_from_days`). The result is always a valid calendar date whose day
/// number is `z`.
#[verifier::spinoff_prover]
#[verifier::rlimit(40)]
pub fn civil_from_days(z: i64) -> (r: (i64, u32, u32))
    requires
        day_in_range(z as int),
    ensures
        (r.0 as int, r.1 as int, r.2 as int) == civil_from_days_spec(z as int),
        valid_date(r.0 as int, r.1 as int, r.2 as int),
        days_from_civil_spec(r.0 as int, r.1 as int, r.2 as int) == z as int,
        year_in_range(r.0 as int),
{
    proof {
        lemma_civil_from_days(z as int);
    }
    let zz = z + 719_468;
    let era = floor_div(zz, 146_097);
    let doe = zz - era * 146_097;
    let yoe = (doe - doe / 1460 + doe / 36_524 - doe / 146_096) / 365;
    let y = yoe + era * 400;
    let doy = doe - (365 * yoe + yoe / 4 - yoe / 100);
    let mp = (5 * doy + 2) / 153;
    let d = (doy - (153 * mp + 2) / 5 + 1) as u32;
    let m = (if mp < 10 {
        mp + 3
    } else {
        mp - 9
    }) as u32;
    (if m <= 2 {
        y + 1
    } else {
        y
    }, m, d)
}

/// `(year, month, day)` -> days since 1970-01-01, UTC (Hinnant
/// `days_from_civil`), the inverse of [`civil_from_days`] on valid dates.
pub fn days_from_civil(y: i64, m: u32, d: u32) -> (r: i64)
    requires
        year_in_range(y as int),
        1 <= m <= 12,
        d <= 1000,
    ensures
        r as int == days_from_civil_spec(y as int, m as int, d as int),
{
    let yy = if m <= 2 {
        y - 1
    } else {
        y
    };
    let era = floor_div(yy, 400);
    let yoe = yy - era * 400;
    let mi = m as i64;
    let mp = if mi > 2 {
        mi - 3
    } else {
        mi + 9
    };
    let doy = (153 * mp + 2) / 5 + d as i64 - 1;
    let doe = yoe * 365 + yoe / 4 - yoe / 100 + doy;
    era * 146_097 + doe - 719_468
}

/// ISO-8601 week date for a valid `(year, month, day)`: `(iso_week_year,
/// week_number)`. The week year can differ from the calendar year near the turn
/// of the year; the week number is in `1..=53`.
pub fn iso_week(y: i64, m: u32, d: u32) -> (r: (i64, u32))
    requires
        week_year_in_range(y as int),
        valid_date(y as int, m as int, d as int),
    ensures
        (r.0 as int, r.1 as int) == iso_week_spec(y as int, m as int, d as int),
        1 <= r.1 <= 53,
{
    proof {
        lemma_iso_week(y as int, m as int, d as int);
    }
    let z = days_from_civil(y, m, d);
    let iso_dow = floor_mod(z + 3, 7) + 1;
    let thursday = z + (4 - iso_dow);
    let (ty, _, _) = civil_from_days(thursday);
    let jan1 = days_from_civil(ty, 1, 1);
    let week = ((thursday - jan1) / 7 + 1) as u32;
    (ty, week)
}

/// `"YYYY-MM-DD"` rendering of a date, each field zero-padded (`{y:04}-{m:02}-{d:02}`).
pub open spec fn ymd_spec(y: int, m: int, d: int) -> Seq<char> {
    int_decimal_padded(y, 4) + seq!['-'] + int_decimal_padded(m, 2) + seq!['-']
        + int_decimal_padded(d, 2)
}

/// `"YYYYMMDDTHHMMSSZ"` rendering of a date and time of day.
pub open spec fn stamp_fields_spec(y: int, m: int, d: int, h: int, mi: int, s: int) -> Seq<char> {
    int_decimal_padded(y, 4) + int_decimal_padded(m, 2) + int_decimal_padded(d, 2) + seq!['T']
        + int_decimal_padded(h, 2) + int_decimal_padded(mi, 2) + int_decimal_padded(s, 2) + seq![
        'Z',
    ]
}

/// The sortable UTC stamp of Unix second `secs`.
pub open spec fn utc_stamp_spec(secs: int) -> Seq<char> {
    let (y, m, d) = civil_from_days_spec(secs / 86400);
    let sod = secs % 86400;
    stamp_fields_spec(y, m, d, sod / 3600, (sod % 3600) / 60, sod % 60)
}

/// Unix seconds the stamp routines accept.
pub open spec fn secs_in_range(secs: int) -> bool {
    i64::MIN <= secs <= i64::MAX
}

/// `(year, month, day)` -> `"YYYY-MM-DD"` (the daily backup marker).
pub fn ymd_string(ymd: (i64, u32, u32)) -> (s: String)
    ensures
        s@ == ymd_spec(ymd.0 as int, ymd.1 as int, ymd.2 as int),
{
    let (y, m, d) = ymd;
    let mut s = String::new();
    push_i64_padded(&mut s, y, 4);
    push_char(&mut s, '-');
    push_i64_padded(&mut s, m as i64, 2);
    push_char(&mut s, '-');
    push_i64_padded(&mut s, d as i64, 2);
    s
}

/// Unix seconds -> the sortable UTC stamp `"YYYYMMDDTHHMMSSZ"`. Lexical order of
/// stamps is chronological order, and the stamp holds no `:`.
pub fn utc_stamp(secs: i64) -> (s: String)
    requires
        secs_in_range(secs as int),
    ensures
        s@ == utc_stamp_spec(secs as int),
{
    let day = floor_div(secs, 86_400);
    proof {
        vstd::arithmetic::div_mod::lemma_fundamental_div_mod(secs as int, 86400);
        vstd::arithmetic::div_mod::lemma_mod_bound(secs as int, 86400);
    }
    let (y, m, d) = civil_from_days(day);
    let sod = floor_mod(secs, 86_400);
    let h = sod / 3600;
    let mi = (sod % 3600) / 60;
    let sec = sod % 60;
    let mut s = String::new();
    push_i64_padded(&mut s, y, 4);
    push_i64_padded(&mut s, m as i64, 2);
    push_i64_padded(&mut s, d as i64, 2);
    push_char(&mut s, 'T');
    push_i64_padded(&mut s, h, 2);
    push_i64_padded(&mut s, mi, 2);
    push_i64_padded(&mut s, sec, 2);
    push_char(&mut s, 'Z');
    s
}

/// Seconds since the Unix epoch, UTC, from the system clock (`SystemTime::now`),
/// converted to `i64` as Rust's `as` converts. The clock is read, not computed:
/// nothing is stated of the value. A clock set before 1970 reads as 0.
#[verifier::external_body]
pub fn now_secs() -> i64 {
    std::time::SystemTime::now()
        .duration_since(std::time::UNIX_EPOCH)
        .map(|d| d.as_secs())
        .unwrap_or(0) as i64
}

/// Milliseconds since the Unix epoch from the system clock (`SystemTime::now`);
/// a clock set before 1970 reads as 0. The clock is read, not computed: nothing
/// is stated of the value.
#[verifier::external_body]
pub(crate) fn epoch_millis() -> u128 {
    std::time::SystemTime::now()
        .duration_since(std::time::UNIX_EPOCH)
        .map(|d| d.as_millis())
        .unwrap_or(0)
}

/// Today's date in UTC from the system clock.
pub fn today_ymd() -> (r: (i64, u32, u32))
    ensures
        valid_date(r.0 as int, r.1 as int, r.2 as int),
{
    let secs = now_secs();
    let day = floor_div(secs, 86_400);
    assert(day_in_range(day as int));
    civil_from_days(day)
}

/// Whether `y` is a Gregorian leap year.
pub fn leap_year(y: i64) -> (r: bool)
    ensures
        r == is_leap(y as int),
{
    floor_mod(y, 4) == 0 && (floor_mod(y, 100) != 0 || floor_mod(y, 400) == 0)
}

/// The number of days in month `m` of year `y`.
pub fn month_days(y: i64, m: u32) -> (r: u32)
    ensures
        r as int == days_in_month(y as int, m as int),
{
    if m == 2 {
        if leap_year(y) {
            29
        } else {
            28
        }
    } else if m == 4 || m == 6 || m == 9 || m == 11 {
        30
    } else {
        31
    }
}

/// The date a `YYYY-MM-DD` string names: exactly ten characters, digit fields
/// separated by `-`, and a real calendar day.
pub open spec fn due_date_spec(s: Seq<char>) -> Option<(int, int, int)> {
    if s.len() == 10 && all_digits(s.subrange(0, 4)) && s[4] == '-' && all_digits(
        s.subrange(5, 7),
    ) && s[7] == '-' && all_digits(s.subrange(8, 10)) && valid_date(
        digits_value(s.subrange(0, 4)),
        digits_value(s.subrange(5, 7)),
        digits_value(s.subrange(8, 10)),
    ) {
        Some(
            (
                digits_value(s.subrange(0, 4)),
                digits_value(s.subrange(5, 7)),
                digits_value(s.subrange(8, 10)),
            ),
        )
    } else {
        None
    }
}

/// Parse a deadline `YYYY-MM-DD`; `None` unless it is well formed and names a
/// real calendar day (so `2026-02-30` and `2026-13-01` are refused).
pub fn parse_due_date(s: &str) -> (r: Option<(i64, u32, u32)>)
    ensures
        match r {
            Some((y, m, d)) => due_date_spec(s@) == Some((y as int, m as int, d as int)),
            None => due_date_spec(s@) is None,
        },
{
    let v = chars_of(s);
    if v.len() != 10 || v[4] != '-' || v[7] != '-' {
        return None;
    }
    let y = match parse_digits(&v, 0, 4) {
        Some(y) => y,
        None => return None,
    };
    let m = match parse_digits(&v, 5, 7) {
        Some(m) => m,
        None => return None,
    };
    let d = match parse_digits(&v, 8, 10) {
        Some(d) => d,
        None => return None,
    };
    proof {
        crate::text::lemma_digits_value_bound(v@.subrange(0, 4));
        crate::text::lemma_digits_value_bound(v@.subrange(5, 7));
        crate::text::lemma_digits_value_bound(v@.subrange(8, 10));
        reveal_with_fuel(crate::text::pow10, 5);
    }
    let y = y as i64;
    let m = m as u32;
    let d = d as u32;
    if m < 1 || m > 12 || d < 1 || d > month_days(y, m) {
        return None;
    }
    Some((y, m, d))
}

// ---- proofs ----------------------------------------------------------------

pub open spec fn leap_bv(n: int) -> bool {
    n % 4 == 0 && (n % 100 != 0 || n % 400 == 0)
}

pub open spec fn day_fits(mp: int, d: int, lp: int) -> bool {
    &&& d <= 31
    &&& (mp == 1 || mp == 3 || mp == 6 || mp == 8) ==> d <= 30
    &&& mp == 11 ==> d <= 28 + lp
}

#[verifier::rlimit(100)]
proof fn bv_era_shape(doe: u64)
    by (bit_vector)
    requires
        doe < 146097,
    ensures
        yoe_of_doe(doe as int) <= 399,
        doe_start(yoe_of_doe(doe as int)) <= doe,
        doe - doe_start(yoe_of_doe(doe as int)) <= 365,
        doe - doe_start(yoe_of_doe(doe as int)) == 365 ==> leap_bv(yoe_of_doe(doe as int) + 1),
{
}

#[verifier::rlimit(100)]
proof fn bv_era_inverse(yoe: u64, doy: u64, doe: u64, ny: u64)
    by (bit_vector)
    requires
        yoe <= 399,
        doy <= 365,
        ny == yoe + 1,
        doy == 365 ==> (ny % 4 == 0 && (ny % 100 != 0 || ny % 400 == 0)),
        doe as int == doe_start(yoe as int) + doy as int,
    ensures
        yoe_of_doe(doe as int) == yoe as int,
        doe <= 146096,
{
}

proof fn bv_month_shape(doy: u64, lp: u64)
    by (bit_vector)
    requires
        doy <= 365,
        lp <= 1,
        doy == 365 ==> lp == 1,
    ensures
        mp_of_doy(doy as int) <= 11,
        doy_start(mp_of_doy(doy as int)) <= doy as int,
        day_fits(mp_of_doy(doy as int), doy as int - doy_start(mp_of_doy(doy as int)) + 1, lp as int),
{
}

proof fn lemma_month_inverse(mp: int, e: int, lp: int)
    requires
        0 <= mp <= 11,
        0 <= lp <= 1,
        0 <= e <= 30,
        (mp == 1 || mp == 3 || mp == 6 || mp == 8) ==> e <= 29,
        mp == 11 ==> e <= 27 + lp,
    ensures
        mp_of_doy(doy_start(mp) + e) == mp,
        doy_start(mp) + e <= 365,
        doy_start(mp) + e == 365 ==> lp == 1,
{
    assert(doy_start(mp) == (153 * mp + 2) / 5);
}

/// Leap years repeat every 400 years.
proof fn lemma_leap_period(a: int, era: int)
    ensures
        is_leap(a + 400 * era) == is_leap(a),
{
    vstd::arithmetic::div_mod::lemma_mod_multiples_vanish(100 * era, a, 4);
    vstd::arithmetic::div_mod::lemma_mod_multiples_vanish(4 * era, a, 100);
    vstd::arithmetic::div_mod::lemma_mod_multiples_vanish(era, a, 400);
    assert(4 * (100 * era) + a == a + 400 * era);
    assert(100 * (4 * era) + a == a + 400 * era);
    assert(400 * era + a == a + 400 * era);
}

/// The decomposition of a day number into era / day-of-era / year-of-era.
proof fn lemma_civil_from_days(z: int)
    requires
        day_in_range(z),
    ensures
        valid_date(civil_from_days_spec(z).0, civil_from_days_spec(z).1, civil_from_days_spec(z).2),
        days_from_civil_spec(
            civil_from_days_spec(z).0,
            civil_from_days_spec(z).1,
            civil_from_days_spec(z).2,
        ) == z,
        year_in_range(civil_from_days_spec(z).0),
        1 <= civil_from_days_spec(z).2 <= 31,
{
    let zz = z + 719468;
    let era = zz / 146097;
    let doe = zz - era * 146097;
    vstd::arithmetic::div_mod::lemma_fundamental_div_mod(zz, 146097);
    assert(0 <= doe < 146097);
    bv_era_shape(doe as u64);
    let yoe = yoe_of_doe(doe);
    let doy = doe - doe_start(yoe);
    let lp: int = if leap_bv(yoe + 1) {
        1
    } else {
        0
    };
    bv_month_shape(doy as u64, lp as u64);
    let mp = mp_of_doy(doy);
    let d = doy - doy_start(mp) + 1;
    let m = if mp < 10 {
        mp + 3
    } else {
        mp - 9
    };
    let y = yoe + era * 400;
    let yc = if m <= 2 {
        y + 1
    } else {
        y
    };
    assert(civil_from_days_spec(z) == (yc, m, d));
    // validity
    lemma_leap_period(yoe + 1, era);
    assert(is_leap(yoe + 1) == leap_bv(yoe + 1));
    if m <= 2 {
        assert(yc == (yoe + 1) + 400 * era);
    }
    assert(valid_date(yc, m, d));
    // the round trip
    let yy = if m <= 2 {
        yc - 1
    } else {
        yc
    };
    assert(yy == yoe + era * 400);
    vstd::arithmetic::div_mod::lemma_fundamental_div_mod_converse(yy, 400, era, yoe);
    let mp2 = if m > 2 {
        m - 3
    } else {
        m + 9
    };
    assert(mp2 == mp);
    // bounds
    assert(era * 146097 <= zz);
    assert(zz < era * 146097 + 146097);
}

/// `civil_from_days` undoes `days_from_civil` on valid dates.
proof fn lemma_civil_days_civil(y: int, m: int, d: int)
    requires
        year_in_range(y),
        valid_date(y, m, d),
    ensures
        civil_from_days_spec(days_from_civil_spec(y, m, d)) == (y, m, d),
{
    let yy = if m <= 2 {
        y - 1
    } else {
        y
    };
    let era = yy / 400;
    let yoe = yy - era * 400;
    vstd::arithmetic::div_mod::lemma_fundamental_div_mod(yy, 400);
    let mp = if m > 2 {
        m - 3
    } else {
        m + 9
    };
    let lp: int = if leap_bv(yoe + 1) {
        1
    } else {
        0
    };
    lemma_leap_period(yoe + 1, era);
    if m == 2 {
        assert(y == (yoe + 1) + 400 * era);
        assert(is_leap(y) == leap_bv(yoe + 1));
    }
    lemma_month_inverse(mp, d - 1, lp);
    let doy = doy_start(mp) + d - 1;
    let doe = doe_start(yoe) + doy;
    bv_era_inverse(yoe as u64, doy as u64, doe as u64, (yoe + 1) as u64);
    let z = era * 146097 + doe - 719468;
    assert(days_from_civil_spec(y, m, d) == z);
    vstd::arithmetic::div_mod::lemma_fundamental_div_mod_converse(z + 719468, 146097, era, doe);
}

// ---- laws ------------------------------------------------------------------

/// Every day number within range names a valid calendar date, and
/// `days_from_civil` maps that date back to the same day number.
pub proof fn lemma_days_civil_days(z: int)
    requires
        day_in_range(z),
    ensures
        valid_date(civil_from_days_spec(z).0, civil_from_days_spec(z).1, civil_from_days_spec(z).2),
        days_from_civil_spec(
            civil_from_days_spec(z).0,
            civil_from_days_spec(z).1,
            civil_from_days_spec(z).2,
        ) == z,
{
    lemma_civil_from_days(z);
}

/// `civil_from_days` maps the day number of a valid date back to that date.
pub proof fn lemma_civil_round_trip(y: int, m: int, d: int)
    requires
        year_in_range(y),
        valid_date(y, m, d),
    ensures
        civil_from_days_spec(days_from_civil_spec(y, m, d)) == (y, m, d),
{
    lemma_civil_days_civil(y, m, d);
}

/// ISO week numbers run from 1 to 53.
pub proof fn lemma_iso_week(y: int, m: int, d: int)
    requires
        week_year_in_range(y),
        valid_date(y, m, d),
    ensures
        1 <= iso_week_spec(y, m, d).1 <= 53,
{
    let z = days_from_civil_spec(y, m, d);
    lemma_days_range(y, m, d);
    let thursday = z + (4 - iso_dow(z));
    assert(day_in_range(thursday));
    lemma_civil_from_days(thursday);
    let (ty, tm, td) = civil_from_days_spec(thursday);
    lemma_day_of_year(ty, tm, td);
}

/// A valid date lies 0..=365 days after January 1 of its year.
proof fn lemma_day_of_year(y: int, m: int, d: int)
    requires
        valid_date(y, m, d),
    ensures
        0 <= days_from_civil_spec(y, m, d) - days_from_civil_spec(y, 1, 1) <= 365,
{
    lemma_days_split(y, m, d);
    lemma_days_split(y, 1, 1);
    if m > 2 {
        lemma_year_length(y - 1);
        let mp = m - 3;
        assert(0 <= mp <= 9);
        assert(doy_start(mp) == (153 * mp + 2) / 5);
        assert(doy_start(mp) <= 275);
        assert(d <= 31);
    } else {
        assert(doy_start(10) == 306);
        assert(doy_start(11) == 337);
    }
}

/// Start (day number) of the March-based year `yy`.
pub open spec fn march_start(yy: int) -> int {
    (yy / 400) * 146097 + doe_start(yy - (yy / 400) * 400) - 719468
}

proof fn lemma_days_split(y: int, m: int, d: int)
    ensures
        days_from_civil_spec(y, m, d) == march_start(if m <= 2 {
            y - 1
        } else {
            y
        }) + doy_start(if m > 2 {
            m - 3
        } else {
            m + 9
        }) + d - 1,
{
}

proof fn bv_year_step(yoe: u64, ny: u64)
    by (bit_vector)
    requires
        yoe <= 398,
        ny == yoe + 1,
    ensures
        (ny % 4 == 0 && (ny % 100 != 0 || ny % 400 == 0)) ==> doe_start(ny as int) - doe_start(
            yoe as int,
        ) == 366,
        !(ny % 4 == 0 && (ny % 100 != 0 || ny % 400 == 0)) ==> doe_start(ny as int) - doe_start(
            yoe as int,
        ) == 365,
{
}

/// A March-based year is 366 days long when the February it contains is a leap
/// February, else 365.
proof fn lemma_year_length(yy: int)
    ensures
        march_start(yy + 1) - march_start(yy) == (if is_leap(yy + 1) {
            366int
        } else {
            365int
        }),
{
    let era = yy / 400;
    let yoe = yy - era * 400;
    vstd::arithmetic::div_mod::lemma_fundamental_div_mod(yy, 400);
    lemma_leap_period(yoe + 1, era);
    assert(yy + 1 == (yoe + 1) + 400 * era);
    if yoe < 399 {
        vstd::arithmetic::div_mod::lemma_fundamental_div_mod_converse(yy + 1, 400, era, yoe + 1);
        bv_year_step(yoe as u64, (yoe + 1) as u64);
    } else {
        vstd::arithmetic::div_mod::lemma_fundamental_div_mod_converse(yy + 1, 400, era + 1, 0);
        assert(doe_start(399) == 145731);
        assert(doe_start(0) == 0);
        assert(is_leap(400));
    }
}

/// Day numbers of in-range years stay well inside the day range.
proof fn lemma_days_range(y: int, m: int, d: int)
    requires
        week_year_in_range(y),
        valid_date(y, m, d),
    ensures
        -0x3F00_0000_0000_0000 <= days_from_civil_spec(y, m, d) <= 0x3F00_0000_0000_0000,
{
    lemma_days_split(y, m, d);
    let yy = if m <= 2 {
        y - 1
    } else {
        y
    };
    let era = yy / 400;
    vstd::arithmetic::div_mod::lemma_fundamental_div_mod(yy, 400);
    let yoe = yy - era * 400;
    assert(0 <= yoe < 400);
    assert(0 <= doe_start(yoe) <= 146096) by {
        bv_era_inverse(yoe as u64, 0, doe_start(yoe) as u64, (yoe + 1) as u64);
    }
    let mp = if m > 2 {
        m - 3
    } else {
        m + 9
    };
    assert(doy_start(mp) == (153 * mp + 2) / 5);
}

} // verus!

verus! {

// ---- chronological order ----------------------------------------------------

/// Lexicographic order of `(year, month, day)`.
pub open spec fn date_lt(a: (int, int, int), b: (int, int, int)) -> bool {
    a.0 < b.0 || (a.0 == b.0 && a.1 < b.1) || (a.0 == b.0 && a.1 == b.1 && a.2 < b.2)
}

proof fn lemma_month_step(y: int, m: int)
    requires
        1 <= m <= 11,
    ensures
        days_from_civil_spec(y, m + 1, 1) == days_from_civil_spec(y, m, 1) + days_in_month(y, m),
{
    lemma_days_split(y, m, 1);
    lemma_days_split(y, m + 1, 1);
    assert(doy_start(0) == 0);
    assert(doy_start(1) == 31);
    assert(doy_start(2) == 61);
    assert(doy_start(3) == 92);
    assert(doy_start(4) == 122);
    assert(doy_start(5) == 153);
    assert(doy_start(6) == 184);
    assert(doy_start(7) == 214);
    assert(doy_start(8) == 245);
    assert(doy_start(9) == 275);
    assert(doy_start(10) == 306);
    assert(doy_start(11) == 337);
    if m == 2 {
        lemma_year_length(y - 1);
        assert(y - 1 + 1 == y);
    }
}

proof fn lemma_within_year(y: int, m: int, d: int, m2: int, d2: int)
    requires
        valid_date(y, m, d),
        valid_date(y, m2, d2),
        m < m2 || (m == m2 && d < d2),
    ensures
        days_from_civil_spec(y, m, d) < days_from_civil_spec(y, m2, d2),
    decreases m2 - m,
{
    lemma_days_split(y, m, d);
    lemma_days_split(y, m, 1);
    lemma_days_split(y, m2, d2);
    lemma_days_split(y, m2, 1);
    if m < m2 {
        lemma_month_step(y, m);
        assert(days_from_civil_spec(y, m, d) < days_from_civil_spec(y, m + 1, 1));
        if m + 1 < m2 || d2 > 1 {
            lemma_within_year(y, m + 1, 1, m2, d2);
        }
    }
}

proof fn lemma_year_end(y: int, m: int, d: int)
    requires
        valid_date(y, m, d),
    ensures
        days_from_civil_spec(y, m, d) < days_from_civil_spec(y + 1, 1, 1),
{
    lemma_days_split(y + 1, 1, 1);
    lemma_days_split(y, 12, 31);
    assert(doy_start(9) == 275);
    assert(doy_start(10) == 306);
    assert(days_from_civil_spec(y + 1, 1, 1) == days_from_civil_spec(y, 12, 31) + 1);
    if m < 12 || d < 31 {
        lemma_within_year(y, m, d, 12, 31);
    }
}

proof fn lemma_jan1_mono(y: int, y2: int)
    requires
        y < y2,
    ensures
        days_from_civil_spec(y + 1, 1, 1) <= days_from_civil_spec(y2, 1, 1),
    decreases y2 - y,
{
    if y + 1 < y2 {
        lemma_jan1_mono(y, y2 - 1);
        lemma_days_split(y2, 1, 1);
        lemma_days_split(y2 - 1, 1, 1);
        lemma_year_length(y2 - 2);
        assert(y2 - 2 + 1 == y2 - 1);
    }
}

/// Day numbers increase with the date.
proof fn lemma_date_order(a: (int, int, int), b: (int, int, int))
    requires
        valid_date(a.0, a.1, a.2),
        valid_date(b.0, b.1, b.2),
        date_lt(a, b),
    ensures
        days_from_civil_spec(a.0, a.1, a.2) < days_from_civil_spec(b.0, b.1, b.2),
{
    if a.0 == b.0 {
        lemma_within_year(a.0, a.1, a.2, b.1, b.2);
    } else {
        lemma_year_end(a.0, a.1, a.2);
        lemma_jan1_mono(a.0, b.0);
        if b.1 > 1 || b.2 > 1 {
            lemma_within_year(b.0, 1, 1, b.1, b.2);
        }
    }
}

/// Later day numbers name later dates.
proof fn lemma_civil_order(za: int, zb: int)
    requires
        day_in_range(za),
        day_in_range(zb),
        za < zb,
    ensures
        date_lt(civil_from_days_spec(za), civil_from_days_spec(zb)),
{
    lemma_civil_from_days(za);
    lemma_civil_from_days(zb);
    let a = civil_from_days_spec(za);
    let b = civil_from_days_spec(zb);
    if date_lt(b, a) {
        lemma_date_order(b, a);
    }
}

} // verus!

verus! {

proof fn lemma_digit_char_order(d: int, e: int)
    requires
        0 <= d <= 9,
        0 <= e <= 9,
    ensures
        d < e ==> crate::text::digit_char(d) < crate::text::digit_char(e),
        d == e ==> crate::text::digit_char(d) == crate::text::digit_char(e),
        crate::text::digit_char(0) == '0',
{
}

/// Strict order at the first differing position.
proof fn lemma_seq_lt_at(s: Seq<char>, t: Seq<char>, k: int)
    requires
        s.len() == t.len(),
        0 <= k < s.len(),
        forall|i: int| 0 <= i < k ==> s[i] == t[i],
        s[k] < t[k],
    ensures
        crate::text::seq_lt(s, t),
    decreases k,
{
    if k > 0 {
        lemma_seq_lt_at(s.drop_first(), t.drop_first(), k - 1);
    }
}

/// A strictly smaller block of the same length decides the order.
proof fn lemma_lt_prefix(x1: Seq<char>, x2: Seq<char>, r1: Seq<char>, r2: Seq<char>)
    requires
        x1.len() == x2.len(),
        crate::text::seq_lt(x1, x2),
    ensures
        crate::text::seq_lt(x1 + r1, x2 + r2),
    decreases x1.len(),
{
    if x1.len() > 0 {
        assert((x1 + r1)[0] == x1[0]);
        assert((x2 + r2)[0] == x2[0]);
        if x1[0] == x2[0] {
            assert((x1 + r1).drop_first() =~= x1.drop_first() + r1);
            assert((x2 + r2).drop_first() =~= x2.drop_first() + r2);
            lemma_lt_prefix(x1.drop_first(), x2.drop_first(), r1, r2);
        }
    }
}

/// An equal block defers to what follows.
proof fn lemma_eq_prefix(x: Seq<char>, r1: Seq<char>, r2: Seq<char>)
    ensures
        crate::text::seq_lt(x + r1, x + r2) == crate::text::seq_lt(r1, r2),
    decreases x.len(),
{
    if x.len() > 0 {
        assert((x + r1).drop_first() =~= x.drop_first() + r1);
        assert((x + r2).drop_first() =~= x.drop_first() + r2);
        lemma_eq_prefix(x.drop_first(), r1, r2);
    } else {
        assert(x + r1 =~= r1);
        assert(x + r2 =~= r2);
    }
}

} // verus!

verus! {

/// Two-digit zero-padded rendering of `0..=99`.
proof fn lemma_pad2(n: int)
    requires
        0 <= n <= 99,
    ensures
        int_decimal_padded(n, 2) == seq![crate::text::digit_char(n / 10), crate::text::digit_char(n % 10)],
{
    if n < 10 {
        assert(nat_digits(n as nat) == seq![digit_char(n)]);
        assert(zero_pad(seq![digit_char(n)], 2) =~= seq!['0', digit_char(n)]);
    } else {
        assert(nat_digits((n / 10) as nat) == seq![digit_char(n / 10)]);
        assert(nat_digits(n as nat) =~= seq![digit_char(n / 10), digit_char(n % 10)]);
    }
}

/// Four-digit zero-padded rendering of `0..=9999`.
proof fn lemma_pad4(n: int)
    requires
        0 <= n <= 9999,
    ensures
        int_decimal_padded(n, 4) == seq![
            crate::text::digit_char(n / 1000),
            crate::text::digit_char((n / 100) % 10),
            crate::text::digit_char((n / 10) % 10),
            crate::text::digit_char(n % 10),
        ],
{
    let d3 = n / 1000;
    let d2 = (n / 100) % 10;
    let d1 = (n / 10) % 10;
    let d0 = n % 10;
    assert(n / 10 / 10 == n / 100 && n / 100 / 10 == n / 1000) by (nonlinear_arith)
        requires
            0 <= n,
    {
        vstd::arithmetic::div_mod::lemma_div_denominator(n, 10, 10);
        vstd::arithmetic::div_mod::lemma_div_denominator(n, 100, 10);
    }
    if n < 10 {
        assert(d3 == 0 && d2 == 0 && d1 == 0);
        assert(nat_digits(n as nat) == seq![digit_char(n)]);
        assert(zero_pad(seq![digit_char(n)], 4) =~= seq!['0', '0', '0', digit_char(n)]);
    } else if n < 100 {
        assert(d3 == 0 && d2 == 0 && d1 == n / 10);
        assert(nat_digits((n / 10) as nat) == seq![digit_char(n / 10)]);
        assert(nat_digits(n as nat) =~= seq![digit_char(n / 10), digit_char(d0)]);
        assert(zero_pad(nat_digits(n as nat), 4) =~= seq!['0', '0', digit_char(d1), digit_char(d0)]);
    } else if n < 1000 {
        assert(d3 == 0 && d2 == n / 100);
        assert(nat_digits((n / 100) as nat) == seq![digit_char(n / 100)]);
        assert(nat_digits((n / 10) as nat) =~= seq![digit_char(n / 100), digit_char(d1)]);
        assert(nat_digits(n as nat) =~= seq![digit_char(d2), digit_char(d1), digit_char(d0)]);
        assert(zero_pad(nat_digits(n as nat), 4) =~= seq!['0', digit_char(d2), digit_char(d1), digit_char(d0)]);
    } else {
        assert(nat_digits((n / 1000) as nat) == seq![digit_char(d3)]);
        assert(nat_digits((n / 100) as nat) =~= seq![digit_char(d3), digit_char(d2)]);
        assert(nat_digits((n / 10) as nat) =~= seq![digit_char(d3), digit_char(d2), digit_char(d1)]);
        assert(nat_digits(n as nat) =~= seq![digit_char(d3), digit_char(d2), digit_char(d1), digit_char(d0)]);
    }
}

} // verus!

verus! {

proof fn lemma_pad2_order(a: int, b: int)
    requires
        0 <= a < b <= 99,
    ensures
        crate::text::seq_lt(int_decimal_padded(a, 2), int_decimal_padded(b, 2)),
        int_decimal_padded(a, 2).len() == 2,
        int_decimal_padded(b, 2).len() == 2,
{
    lemma_pad2(a);
    lemma_pad2(b);
    let sa = int_decimal_padded(a, 2);
    let sb = int_decimal_padded(b, 2);
    assert(a == 10 * (a / 10) + a % 10 && b == 10 * (b / 10) + b % 10);
    lemma_digit_char_order(a / 10, b / 10);
    lemma_digit_char_order(a % 10, b % 10);
    if a / 10 < b / 10 {
        lemma_seq_lt_at(sa, sb, 0);
    } else {
        lemma_seq_lt_at(sa, sb, 1);
    }
}

proof fn lemma_pad4_order(a: int, b: int)
    requires
        0 <= a < b <= 9999,
    ensures
        crate::text::seq_lt(int_decimal_padded(a, 4), int_decimal_padded(b, 4)),
        int_decimal_padded(a, 4).len() == 4,
        int_decimal_padded(b, 4).len() == 4,
{
    lemma_pad4(a);
    lemma_pad4(b);
    let sa = int_decimal_padded(a, 4);
    let sb = int_decimal_padded(b, 4);
    assert(a == 1000 * (a / 1000) + 100 * ((a / 100) % 10) + 10 * ((a / 10) % 10) + a % 10
        && 0 <= a / 1000 <= 9) by (nonlinear_arith)
        requires
            0 <= a <= 9999,
    {
        vstd::arithmetic::div_mod::lemma_div_denominator(a, 10, 10);
        vstd::arithmetic::div_mod::lemma_div_denominator(a, 100, 10);
    }
    assert(b == 1000 * (b / 1000) + 100 * ((b / 100) % 10) + 10 * ((b / 10) % 10) + b % 10
        && 0 <= b / 1000 <= 9) by (nonlinear_arith)
        requires
            0 <= b <= 9999,
    {
        vstd::arithmetic::div_mod::lemma_div_denominator(b, 10, 10);
        vstd::arithmetic::div_mod::lemma_div_denominator(b, 100, 10);
    }
    let (a3, a2, a1, a0) = (a / 1000, (a / 100) % 10, (a / 10) % 10, a % 10);
    let (b3, b2, b1, b0) = (b / 1000, (b / 100) % 10, (b / 10) % 10, b % 10);
    lemma_digit_char_order(a3, b3);
    lemma_digit_char_order(a2, b2);
    lemma_digit_char_order(a1, b1);
    lemma_digit_char_order(a0, b0);
    if a3 < b3 {
        lemma_seq_lt_at(sa, sb, 0);
    } else if a2 < b2 {
        assert(a3 == b3);
        lemma_seq_lt_at(sa, sb, 1);
    } else if a1 < b1 {
        assert(a3 == b3 && a2 == b2);
        lemma_seq_lt_at(sa, sb, 2);
    } else {
        assert(a3 == b3 && a2 == b2 && a1 == b1);
        lemma_seq_lt_at(sa, sb, 3);
    }
}

/// Lexicographic order of the six stamp fields.
pub open spec fn fields_lt(a: (int, int, int, int, int, int), b: (int, int, int, int, int, int)) -> bool {
    ||| a.0 < b.0
    ||| a.0 == b.0 && a.1 < b.1
    ||| a.0 == b.0 && a.1 == b.1 && a.2 < b.2
    ||| a.0 == b.0 && a.1 == b.1 && a.2 == b.2 && a.3 < b.3
    ||| a.0 == b.0 && a.1 == b.1 && a.2 == b.2 && a.3 == b.3 && a.4 < b.4
    ||| a.0 == b.0 && a.1 == b.1 && a.2 == b.2 && a.3 == b.3 && a.4 == b.4 && a.5 < b.5
}

/// Fields a stamp renders with fixed widths.
pub open spec fn fields_fit(f: (int, int, int, int, int, int)) -> bool {
    0 <= f.0 <= 9999 && 0 <= f.1 <= 99 && 0 <= f.2 <= 99 && 0 <= f.3 <= 99 && 0 <= f.4 <= 99 && 0 <= f.5 <= 99
}

#[verifier::spinoff_prover]
#[verifier::rlimit(50)]
proof fn lemma_fields_order(a: (int, int, int, int, int, int), b: (int, int, int, int, int, int))
    requires
        fields_fit(a),
        fields_fit(b),
        fields_lt(a, b),
    ensures
        crate::text::seq_lt(stamp_fields_spec(a.0, a.1, a.2, a.3, a.4, a.5), stamp_fields_spec(b.0, b.1, b.2, b.3, b.4, b.5)),
{
    let p4 = |n: int| int_decimal_padded(n, 4);
    let p2 = |n: int| int_decimal_padded(n, 2);
    // The stamp, associated to the right: each block, then what follows it.
    let tail5 = |f: (int, int, int, int, int, int)| p2(f.5) + seq!['Z'];
    let tail4 = |f: (int, int, int, int, int, int)| p2(f.4) + tail5(f);
    let tail3 = |f: (int, int, int, int, int, int)| p2(f.3) + tail4(f);
    let tail_t = |f: (int, int, int, int, int, int)| seq!['T'] + tail3(f);
    let tail2 = |f: (int, int, int, int, int, int)| p2(f.2) + tail_t(f);
    let tail1 = |f: (int, int, int, int, int, int)| p2(f.1) + tail2(f);
    let whole = |f: (int, int, int, int, int, int)| p4(f.0) + tail1(f);
    assert(stamp_fields_spec(a.0, a.1, a.2, a.3, a.4, a.5) =~= whole(a));
    assert(stamp_fields_spec(b.0, b.1, b.2, b.3, b.4, b.5) =~= whole(b));
    lemma_pad4(a.0);
    lemma_pad4(b.0);
    lemma_pad2(a.1);
    lemma_pad2(b.1);
    lemma_pad2(a.2);
    lemma_pad2(b.2);
    lemma_pad2(a.3);
    lemma_pad2(b.3);
    lemma_pad2(a.4);
    lemma_pad2(b.4);
    if a.0 < b.0 {
        lemma_pad4_order(a.0, b.0);
        lemma_lt_prefix(p4(a.0), p4(b.0), tail1(a), tail1(b));
    } else {
        lemma_eq_prefix(p4(a.0), tail1(a), tail1(b));
        if a.1 < b.1 {
            lemma_pad2_order(a.1, b.1);
            lemma_lt_prefix(p2(a.1), p2(b.1), tail2(a), tail2(b));
        } else {
            lemma_eq_prefix(p2(a.1), tail2(a), tail2(b));
            if a.2 < b.2 {
                lemma_pad2_order(a.2, b.2);
                lemma_lt_prefix(p2(a.2), p2(b.2), tail_t(a), tail_t(b));
            } else {
                lemma_eq_prefix(p2(a.2), tail_t(a), tail_t(b));
                lemma_eq_prefix(seq!['T'], tail3(a), tail3(b));
                if a.3 < b.3 {
                    lemma_pad2_order(a.3, b.3);
                    lemma_lt_prefix(p2(a.3), p2(b.3), tail4(a), tail4(b));
                } else {
                    lemma_eq_prefix(p2(a.3), tail4(a), tail4(b));
                    if a.4 < b.4 {
                        lemma_pad2_order(a.4, b.4);
                        lemma_lt_prefix(p2(a.4), p2(b.4), tail5(a), tail5(b));
                    } else {
                        lemma_eq_prefix(p2(a.4), tail5(a), tail5(b));
                        lemma_pad2_order(a.5, b.5);
                        lemma_lt_prefix(p2(a.5), p2(b.5), seq!['Z'], seq!['Z']);
                    }
                }
            }
        }
    }
}

} // verus!

verus! {

proof fn lemma_sod_parts(s: int)
    requires
        0 <= s < 86400,
    ensures
        s == 3600 * (s / 3600) + 60 * ((s % 3600) / 60) + s % 60,
        0 <= s / 3600 <= 23,
        0 <= (s % 3600) / 60 <= 59,
        0 <= s % 60 <= 59,
{
    assert(s == 3600 * (s / 3600) + 60 * ((s % 3600) / 60) + s % 60 && 0 <= s / 3600 <= 23 && 0 <= (s
        % 3600) / 60 <= 59 && 0 <= s % 60 <= 59) by (nonlinear_arith)
        requires
            0 <= s < 86400,
    {
        vstd::arithmetic::div_mod::lemma_fundamental_div_mod(s, 3600);
        vstd::arithmetic::div_mod::lemma_fundamental_div_mod(s % 3600, 60);
        vstd::arithmetic::div_mod::lemma_mod_bound(s, 3600);
        vstd::arithmetic::div_mod::lemma_mod_bound(s % 3600, 60);
        vstd::arithmetic::div_mod::lemma_mod_bound(s, 60);
        assert(s % 60 == (s % 3600) % 60) by {
            vstd::arithmetic::div_mod::lemma_mod_mod(s, 60, 60);
        }
    }
}

/// The snapshot stamp sorts chronologically: of two instants, the earlier one
/// has the lexically smaller stamp, for the instants whose year has four
/// digits (years 0 through 9999).
pub proof fn lemma_stamp_sortable(a: int, b: int)
    requires
        secs_in_range(a),
        secs_in_range(b),
        a < b,
        0 <= civil_from_days_spec(a / 86400).0,
        civil_from_days_spec(b / 86400).0 <= 9999,
    ensures
        crate::text::seq_lt(utc_stamp_spec(a), utc_stamp_spec(b)),
{
    let da = a / 86400;
    let db = b / 86400;
    let sa = a % 86400;
    let sb = b % 86400;
    vstd::arithmetic::div_mod::lemma_fundamental_div_mod(a, 86400);
    vstd::arithmetic::div_mod::lemma_fundamental_div_mod(b, 86400);
    vstd::arithmetic::div_mod::lemma_mod_bound(a, 86400);
    vstd::arithmetic::div_mod::lemma_mod_bound(b, 86400);
    assert(day_in_range(da) && day_in_range(db)) by (nonlinear_arith)
        requires
            secs_in_range(a),
            secs_in_range(b),
            a == 86400 * da + sa,
            b == 86400 * db + sb,
            0 <= sa < 86400,
            0 <= sb < 86400,
    ;
    assert(da <= db) by (nonlinear_arith)
        requires
            a < b,
            a == 86400 * da + sa,
            b == 86400 * db + sb,
            0 <= sa < 86400,
            0 <= sb < 86400,
    ;
    lemma_civil_from_days(da);
    lemma_civil_from_days(db);
    let (ya, ma, dda) = civil_from_days_spec(da);
    let (yb, mb, ddb) = civil_from_days_spec(db);
    if da < db {
        lemma_civil_order(da, db);
    }
    lemma_sod_parts(sa);
    lemma_sod_parts(sb);
    let fa = (ya, ma, dda, sa / 3600, (sa % 3600) / 60, sa % 60);
    let fb = (yb, mb, ddb, sb / 3600, (sb % 3600) / 60, sb % 60);
    assert(fields_fit(fa) && fields_fit(fb));
    if da == db {
        assert(sa < sb);
        assert(fields_lt(fa, fb));
    } else {
        assert(fields_lt(fa, fb));
    }
    lemma_fields_order(fa, fb);
}

} // verus!
