//! Date math and parsing with zero dependencies.
//!
//! Uses Howard Hinnant's `days_from_civil` / `civil_from_days` algorithms,
//! valid proleptic Gregorian for any year.
use vstd::prelude::*;
use vstd::arithmetic::div_mod::{lemma_fundamental_div_mod, lemma_fundamental_div_mod_converse};
use crate::numbers::{
    all_digits, all_digits_in, decimal, i64_of_text, parse_i64, parse_u32, parse_u64,
    push_decimal_padded, u32_of_text, u64_of_text, zero_pad,
};
use crate::text::{
    ascii_lower, chars_eq_str, chars_of, copy_range, find_split, split_first, string_of,
    to_ascii_lower, trim, trim_chars, trim_range,
};

verus! {

// ---------------------------------------------------------------------------
// The Gregorian calendar
// ---------------------------------------------------------------------------
pub open spec fn is_leap_year(y: int) -> bool {
    y % 4 == 0 && (y % 100 != 0 || y % 400 == 0)
}

pub open spec fn days_in_month(y: int, m: int) -> int {
    if m == 2 {
        if is_leap_year(y) {
            29
        } else {
            28
        }
    } else if m == 4 || m == 6 || m == 9 || m == 11 {
        30
    } else {
        31
    }
}

/// `(y, m, d)` is a day of the proleptic Gregorian calendar.
pub open spec fn is_valid_date(y: int, m: int, d: int) -> bool {
    1 <= m <= 12 && 1 <= d <= days_in_month(y, m)
}

// ---------------------------------------------------------------------------
// Hinnant's day counting: years begin in March, eras are 400 years long
// ---------------------------------------------------------------------------
/// The month counted from March (March is 0, February 11).
pub open spec fn shifted_month(m: int) -> int {
    if m > 2 {
        m - 3
    } else {
        m + 9
    }
}

/// Day of the March-based year on which shifted month `mp` begins.
pub open spec fn month_start(mp: int) -> int {
    (153 * mp + 2) / 5
}

/// Day of the era on which year `yoe` of the era begins.
pub open spec fn year_start(yoe: int) -> int {
    365 * yoe + yoe / 4 - yoe / 100
}

/// The year of the era that holds day `doe` of the era.
pub open spec fn year_of_era(doe: int) -> int {
    (doe - doe / 1460 + doe / 36524 - doe / 146096) / 365
}

/// Days since 1970-01-01 of `(y, m, d)`, as `days_from_civil` computes them.
pub open spec fn civil_to_days(y: int, m: int, d: int) -> int {
    let y1 = if m <= 2 {
        y - 1
    } else {
        y
    };
    let era = y1 / 400;
    let yoe = y1 - era * 400;
    era * 146097 + year_start(yoe) + month_start(shifted_month(m)) + d - 1 - 719468
}

/// The date `(y, m, d)` of a day counted from 1970-01-01, as
/// `civil_from_days` computes it.
pub open spec fn days_to_civil(z: int) -> (int, int, int) {
    let z1 = z + 719468;
    let era = z1 / 146097;
    let doe = z1 - era * 146097;
    let yoe = year_of_era(doe);
    let doy = doe - year_start(yoe);
    let mp = (5 * doy + 2) / 153;
    let d = doy - month_start(mp) + 1;
    let m = if mp < 10 {
        mp + 3
    } else {
        mp - 9
    };
    (if m <= 2 {
        yoe + era * 400 + 1
    } else {
        yoe + era * 400
    }, m, d)
}

/// The arguments on which `days_from_civil`'s `i64` and `u64` arithmetic
/// stays in range (it would overflow on the others).
pub open spec fn days_from_civil_fits(y: int, m: int, d: int) -> bool {
    let y1 = if m <= 2 {
        y - 1
    } else {
        y
    };
    let era = y1 / 400;
    let yoe = y1 - era * 400;
    let doe = year_start(yoe) + month_start(shifted_month(m)) + d - 1;
    &&& i64::MIN <= y1
    &&& (y1 < 0 ==> i64::MIN <= y1 - 399)
    &&& !(shifted_month(m) == 0 && d == 0)
    &&& i64::MIN <= era * 146097 <= i64::MAX
    &&& era * 146097 + doe <= i64::MAX
    &&& i64::MIN <= era * 146097 + doe - 719468
}

/// The days on which `civil_from_days`'s arithmetic stays in range.
pub open spec fn civil_from_days_fits(z: int) -> bool {
    z + 719468 <= i64::MAX
}

// ---------------------------------------------------------------------------
// Bounded facts of the algorithm, checked over all their values
// ---------------------------------------------------------------------------
pub open spec fn leap_after(yoe: int) -> int {
    if is_leap_year(yoe + 1) {
        1
    } else {
        0
    }
}

proof fn lemma_year_of_era_bv(doe: u32, yoe: u32, start: u32)
    by (bit_vector)
    requires
        doe < 146097,
        yoe == (doe - doe / 1460 + doe / 36524 - doe / 146096) / 365,
        start == 365 * yoe + yoe / 4 - yoe / 100,
    ensures
        yoe <= 399,
        start <= doe,
        doe - start <= 365,
        doe - start == 365 ==> (yoe % 4 == 3 && (yoe % 100 != 99 || yoe % 400 == 399)),
{
}

/// Day `doe` of an era lies in year `year_of_era(doe)`, within its length.
pub proof fn lemma_year_of_era(doe: int)
    requires
        0 <= doe < 146097,
    ensures
        0 <= year_of_era(doe) <= 399,
        year_start(year_of_era(doe)) <= doe,
        doe - year_start(year_of_era(doe)) <= 364 + leap_after(year_of_era(doe)),
{
    let yoe = year_of_era(doe);
    assert(0 <= yoe <= 146097) by (nonlinear_arith)
        requires
            yoe == (doe - doe / 1460 + doe / 36524 - doe / 146096) / 365,
            0 <= doe < 146097,
    ;
    lemma_year_of_era_bv(doe as u32, yoe as u32, year_start(yoe) as u32);
    lemma_leap_after(yoe);
}

/// In era years, the year after `yoe` is leap when `yoe` is 3 mod 4, but not
/// 99 mod 100 unless 399 mod 400.
pub proof fn lemma_leap_after(yoe: int)
    requires
        0 <= yoe <= 399,
    ensures
        leap_after(yoe) == (if yoe % 4 == 3 && (yoe % 100 != 99 || yoe % 400 == 399) {
            1int
        } else {
            0int
        }),
{
}

proof fn lemma_year_start_bv(yoe: u32, doy: u32, doe: u32, q: u32)
    by (bit_vector)
    requires
        yoe <= 399,
        doy <= 365,
        doy == 365 ==> (yoe % 4 == 3 && (yoe % 100 != 99 || yoe % 400 == 399)),
        doe == 365 * yoe + yoe / 4 - yoe / 100 + doy,
        q == (doe - doe / 1460 + doe / 36524 - doe / 146096) / 365,
    ensures
        doe < 146097,
        q == yoe,
{
}

/// A day within year `yoe` of an era maps back to `yoe`.
pub proof fn lemma_year_start(yoe: int, doy: int)
    requires
        0 <= yoe <= 399,
        0 <= doy <= 364 + leap_after(yoe),
    ensures
        0 <= year_start(yoe) + doy < 146097,
        year_of_era(year_start(yoe) + doy) == yoe,
{
    lemma_leap_after(yoe);
    let doe = year_start(yoe) + doy;
    assert(0 <= year_start(yoe) <= 146097) by (nonlinear_arith)
        requires
            0 <= yoe <= 399,
    ;
    let q = year_of_era(doe);
    assert(0 <= q <= 146097) by (nonlinear_arith)
        requires
            q == (doe - doe / 1460 + doe / 36524 - doe / 146096) / 365,
            0 <= doe < 146097 * 2,
    ;
    lemma_year_start_bv(yoe as u32, doy as u32, doe as u32, q as u32);
}

proof fn lemma_month_bv(doy: u32, mp: u32, x: u32, y: u32)
    by (bit_vector)
    requires
        doy <= 365,
        153 * mp <= 5 * doy + 2,
        5 * doy + 2 < 153 * mp + 153,
        x == (153 * mp + 2) / 5,
        y == (153 * mp + 155) / 5,
    ensures
        mp <= 11,
        x <= doy,
        mp < 11 ==> doy < y,
{
}

/// Day `doy` of a March-based year lies in shifted month `(5 doy + 2) / 153`.
pub proof fn lemma_month(doy: int)
    requires
        0 <= doy <= 365,
    ensures
        0 <= (5 * doy + 2) / 153 <= 11,
        month_start((5 * doy + 2) / 153) <= doy,
        (5 * doy + 2) / 153 < 11 ==> doy < month_start((5 * doy + 2) / 153 + 1),
{
    let mp = (5 * doy + 2) / 153;
    lemma_fundamental_div_mod(5 * doy + 2, 153);
    assert(0 <= mp <= 12);
    assert(month_start(mp + 1) == (153 * mp + 155) / 5);
    assert(0 <= month_start(mp) <= 500) by (nonlinear_arith)
        requires
            0 <= mp <= 12,
    ;
    assert(0 <= month_start(mp + 1) <= 500) by (nonlinear_arith)
        requires
            0 <= mp <= 12,
    ;
    lemma_month_bv(doy as u32, mp as u32, month_start(mp) as u32, month_start(mp + 1) as u32);
}

proof fn lemma_month_inverse_bv(mp: u32, doy: u32, x: u32, y: u32)
    by (bit_vector)
    requires
        mp <= 11,
        x == (153 * mp + 2) / 5,
        y == (153 * mp + 155) / 5,
        x <= doy,
        doy <= 365,
        mp < 11 ==> doy < y,
    ensures
        153 * mp <= 5 * doy + 2,
        5 * doy + 2 < 153 * mp + 153,
{
}

pub proof fn lemma_month_inverse(mp: int, doy: int)
    requires
        0 <= mp <= 11,
        month_start(mp) <= doy <= 365,
        mp < 11 ==> doy < month_start(mp + 1),
    ensures
        (5 * doy + 2) / 153 == mp,
{
    assert(month_start(mp + 1) == (153 * mp + 155) / 5);
    assert(0 <= month_start(mp) <= 500) by (nonlinear_arith)
        requires
            0 <= mp <= 12,
    ;
    assert(0 <= month_start(mp + 1) <= 500) by (nonlinear_arith)
        requires
            0 <= mp <= 12,
    ;
    lemma_month_inverse_bv(mp as u32, doy as u32, month_start(mp) as u32, month_start(mp + 1) as u32);
    lemma_fundamental_div_mod_converse(5 * doy + 2, 153, mp, 5 * doy + 2 - 153 * mp);
}

/// Leap years repeat every 400 years.
pub proof fn lemma_leap_period(era: int, k: int)
    ensures
        is_leap_year(era * 400 + k) == is_leap_year(k),
{
    assert((era * 400 + k) % 4 == k % 4 && (era * 400 + k) % 100 == k % 100 && (era * 400 + k)
        % 400 == k % 400) by (nonlinear_arith);
}

/// Month lengths, counted from March: shifted month `mp` lasts from
/// `month_start(mp)` to `month_start(mp + 1)`.
pub proof fn lemma_month_lengths(y: int, m: int)
    requires
        1 <= m <= 12,
    ensures
        m != 2 ==> month_start(shifted_month(m)) + days_in_month(y, m) == month_start(
            shifted_month(m) + 1,
        ),
        m == 2 ==> month_start(shifted_month(m)) == 337,
        0 <= shifted_month(m) <= 11,
        m == 1 ==> month_start(shifted_month(m)) + 31 <= 337,
{
    assert(month_start(0) == 0);
    assert(month_start(1) == 31);
    assert(month_start(2) == 61);
    assert(month_start(3) == 92);
    assert(month_start(4) == 122);
    assert(month_start(5) == 153);
    assert(month_start(6) == 184);
    assert(month_start(7) == 214);
    assert(month_start(8) == 245);
    assert(month_start(9) == 275);
    assert(month_start(10) == 306);
    assert(month_start(11) == 337);
    assert(month_start(12) == 367);
}

// ---------------------------------------------------------------------------
// Laws of the day counting
// ---------------------------------------------------------------------------
/// Every day count gives a valid calendar date.
pub proof fn lemma_days_to_civil_valid(z: int)
    ensures
        is_valid_date(days_to_civil(z).0, days_to_civil(z).1, days_to_civil(z).2),
{
    let z1 = z + 719468;
    let era = z1 / 146097;
    let doe = z1 - era * 146097;
    lemma_fundamental_div_mod(z1, 146097);
    assert(0 <= doe < 146097);
    lemma_year_of_era(doe);
    let yoe = year_of_era(doe);
    let doy = doe - year_start(yoe);
    lemma_month(doy);
    let mp = (5 * doy + 2) / 153;
    let d = doy - month_start(mp) + 1;
    let m = if mp < 10 {
        mp + 3
    } else {
        mp - 9
    };
    let y = days_to_civil(z).0;
    assert(shifted_month(m) == mp);
    lemma_month_lengths(y, m);
    if m == 2 {
        assert(y == era * 400 + (yoe + 1));
        lemma_leap_period(era, yoe + 1);
    }
}

/// `days_from_civil` undoes `civil_from_days`: converting a day count to a
/// date and back gives the day count.
pub proof fn lemma_civil_days_round_trip(z: int)
    ensures
        civil_to_days(days_to_civil(z).0, days_to_civil(z).1, days_to_civil(z).2) == z,
{
    let z1 = z + 719468;
    let era = z1 / 146097;
    let doe = z1 - era * 146097;
    lemma_fundamental_div_mod(z1, 146097);
    lemma_year_of_era(doe);
    let yoe = year_of_era(doe);
    let doy = doe - year_start(yoe);
    lemma_month(doy);
    let mp = (5 * doy + 2) / 153;
    let m = days_to_civil(z).1;
    assert(shifted_month(m) == mp);
    let y1 = yoe + era * 400;
    lemma_fundamental_div_mod_converse(y1, 400, era, yoe);
}

/// `civil_from_days` undoes `days_from_civil` on valid dates: a date
/// converted to a day count and back is the same date.
pub proof fn lemma_days_civil_round_trip(y: int, m: int, d: int)
    requires
        is_valid_date(y, m, d),
    ensures
        days_to_civil(civil_to_days(y, m, d)) == (y, m, d),
{
    let y1 = if m <= 2 {
        y - 1
    } else {
        y
    };
    let era = y1 / 400;
    let yoe = y1 - era * 400;
    lemma_fundamental_div_mod(y1, 400);
    let mp = shifted_month(m);
    let doy = month_start(mp) + d - 1;
    lemma_month_lengths(y, m);
    if m == 2 {
        assert(y == era * 400 + (yoe + 1));
        lemma_leap_period(era, yoe + 1);
    } else if m == 1 {
        assert(doy <= 364);
    } else {
        assert(doy <= 364) by {
            assert(month_start(shifted_month(m) + 1) <= 337);
        }
    }
    lemma_year_start(yoe, doy);
    let doe = year_start(yoe) + doy;
    let z = civil_to_days(y, m, d);
    let z1 = z + 719468;
    assert(z1 == era * 146097 + doe);
    lemma_fundamental_div_mod_converse(z1, 146097, era, doe);
    lemma_month_inverse(mp, doy);
}

// ---------------------------------------------------------------------------
// Executable day counting
// ---------------------------------------------------------------------------
/// Days since the Unix epoch (1970-01-01) for a (year, month, day).
pub fn days_from_civil(y: i64, m: u32, d: u32) -> (r: i64)
    requires
        days_from_civil_fits(y as int, m as int, d as int),
    ensures
        r == civil_to_days(y as int, m as int, d as int),
{
    let y1: i64 = if m <= 2 {
        y - 1
    } else {
        y
    };
    let era: i64 = (if y1 >= 0 {
        y1
    } else {
        y1 - 399
    }) / 400;
    assert(era == y1 / 400);
    let yoe = (y1 - era * 400) as u64;
    let mp: u32 = if m > 2 {
        m - 3
    } else {
        m + 9
    };
    let doy: u64 = (153 * mp as u64 + 2) / 5 + d as u64 - 1;
    let doe: u64 = yoe * 365 + yoe / 4 - yoe / 100 + doy;
    era * 146_097 + doe as i64 - 719_468
}

/// Inverse of [`days_from_civil`]: days since epoch → (year, month, day).
pub fn civil_from_days(z: i64) -> (r: (i64, u32, u32))
    requires
        civil_from_days_fits(z as int),
    ensures
        (r.0 as int, r.1 as int, r.2 as int) == days_to_civil(z as int),
{
    let z1: i64 = z + 719_468;
    let era: i64 = (if z1 >= 0 {
        z1
    } else {
        z1 - 146_096
    }) / 146_097;
    assert(era == (z1 as int) / 146097);
    proof {
        lemma_fundamental_div_mod(z1 as int, 146097);
        lemma_year_of_era((z1 - era * 146097) as int);
    }
    let doe = (z1 - era * 146_097) as u64;
    let yoe: u64 = (doe - doe / 1460 + doe / 36_524 - doe / 146_096) / 365;
    let y: i64 = yoe as i64 + era * 400;
    let doy: u64 = doe - (365 * yoe + yoe / 4 - yoe / 100);
    proof {
        lemma_month(doy as int);
    }
    let mp: u64 = (5 * doy + 2) / 153;
    let d = (doy - (153 * mp + 2) / 5 + 1) as u32;
    let m = (if mp < 10 {
        mp + 3
    } else {
        mp - 9
    }) as u32;
    let y = if m <= 2 {
        y + 1
    } else {
        y
    };
    (y, m, d)
}

// ---------------------------------------------------------------------------
// Dates in text
// ---------------------------------------------------------------------------
/// The three `-`-separated fields of a text, if it has exactly three.
pub open spec fn three_fields(s: Seq<char>) -> Option<(Seq<char>, Seq<char>, Seq<char>)> {
    match split_first(s, '-') {
        None => None,
        Some((f0, r0)) => match split_first(r0, '-') {
            None => None,
            Some((f1, r1)) => if split_first(r1, '-') is Some {
                None
            } else {
                Some((f0, f1, r1))
            },
        },
    }
}

/// The year, month and day of a `YYYY-MM-DD` text (each field trimmed and
/// read as `parse` reads `i64`, `u32` and `u32`).
pub open spec fn date_fields(s: Seq<char>) -> Option<(int, int, int)> {
    match three_fields(trim(s)) {
        None => None,
        Some((f0, f1, f2)) => match (i64_of_text(trim(f0)), u32_of_text(trim(f1)), u32_of_text(
            trim(f2),
        )) {
            (Some(y), Some(m), Some(d)) => Some((y as int, m as int, d as int)),
            _ => None,
        },
    }
}

/// The start (UTC) of the day a `YYYY-MM-DD` text names, in Unix seconds;
/// nothing when the text is not a valid date.
pub open spec fn date_to_unix(s: Seq<char>) -> Option<int> {
    match date_fields(s) {
        Some((y, m, d)) => if is_valid_date(y, m, d) {
            Some(civil_to_days(y, m, d) * 86400)
        } else {
            None
        },
        None => None,
    }
}

/// Reads the fields of a `YYYY-MM-DD` text.
fn read_date_fields(s: &str) -> (r: Option<(i64, u32, u32)>)
    ensures
        match r {
            Some((y, m, d)) => date_fields(s@) == Some((y as int, m as int, d as int)),
            None => date_fields(s@) is None,
        },
{
    let cs = chars_of(s);
    let n = cs.len();
    assert(cs@.subrange(0, n as int) == cs@);
    let (a, b) = trim_range(cs.as_slice(), 0, n);
    let p0 = find_split(cs.as_slice(), a, b, '-');
    if p0 == b {
        return None;
    }
    let p1 = find_split(cs.as_slice(), p0 + 1, b, '-');
    if p1 == b {
        return None;
    }
    let p2 = find_split(cs.as_slice(), p1 + 1, b, '-');
    if p2 < b {
        return None;
    }
    let (y0, y1) = trim_range(cs.as_slice(), a, p0);
    let (m0, m1) = trim_range(cs.as_slice(), p0 + 1, p1);
    let (d0, d1) = trim_range(cs.as_slice(), p1 + 1, b);
    let yf = copy_range(cs.as_slice(), y0, y1);
    let mf = copy_range(cs.as_slice(), m0, m1);
    let df = copy_range(cs.as_slice(), d0, d1);
    let y = parse_i64(yf.as_slice());
    let m = parse_u32(mf.as_slice());
    let d = parse_u32(df.as_slice());
    match (y, m, d) {
        (Some(y), Some(m), Some(d)) => Some((y, m, d)),
        _ => None,
    }
}

/// Whether `days_from_civil(y, m, d)` stays in range.
fn civil_fits(y: i64, m: u32, d: u32) -> (b: bool)
    ensures
        b == days_from_civil_fits(y as int, m as int, d as int),
{
    let y1: i128 = if m <= 2 {
        y as i128 - 1
    } else {
        y as i128
    };
    let era: i128 = if y1 >= 0 {
        y1 / 400
    } else {
        (y1 - 399) / 400
    };
    assert(era == (y1 as int) / 400);
    let yoe: i128 = y1 - era * 400;
    let mp: i128 = if m > 2 {
        m as i128 - 3
    } else {
        m as i128 + 9
    };
    let doe: i128 = 365 * yoe + yoe / 4 - yoe / 100 + (153 * mp + 2) / 5 + d as i128 - 1;
    let lo = i64::MIN as i128;
    let hi = i64::MAX as i128;
    lo <= y1 && (y1 >= 0 || lo <= y1 - 399) && !(mp == 0 && d == 0) && lo <= era * 146097 && era
        * 146097 <= hi && era * 146097 + doe <= hi && lo <= era * 146097 + doe - 719468
}

/// A date is valid exactly when converting it to days and back gives it again.
pub proof fn lemma_valid_iff_round_trip(y: int, m: int, d: int)
    ensures
        is_valid_date(y, m, d) <==> days_to_civil(civil_to_days(y, m, d)) == (y, m, d),
{
    if is_valid_date(y, m, d) {
        lemma_days_civil_round_trip(y, m, d);
    }
    lemma_days_to_civil_valid(civil_to_days(y, m, d));
}

/// The timestamp (start of the day, UTC) of a `YYYY-MM-DD` text: nothing when
/// the text is not a date of the calendar or its timestamp does not fit in
/// `i64`.
pub open spec fn date_timestamp(s: Seq<char>) -> Option<int> {
    match date_to_unix(s) {
        Some(t) => if i64::MIN <= t <= i64::MAX {
            Some(t)
        } else {
            None
        },
        None => None,
    }
}

/// A date whose timestamp fits in `i64` is in the range that
/// `days_from_civil` computes without overflow.
proof fn lemma_fits_when_timestamp_fits(y: int, m: int, d: int)
    requires
        is_valid_date(y, m, d),
        i64::MIN <= civil_to_days(y, m, d) * 86400 <= i64::MAX,
    ensures
        days_from_civil_fits(y, m, d),
{
    let y1 = if m <= 2 {
        y - 1
    } else {
        y
    };
    let era = y1 / 400;
    let yoe = y1 - era * 400;
    let doe = year_start(yoe) + month_start(shifted_month(m)) + d - 1;
    assert(0 <= yoe < 400);
    assert(0 <= year_start(yoe) <= 146000);
    assert(0 <= month_start(shifted_month(m)) <= 337);
    assert(0 <= doe <= 146400);
    let days = civil_to_days(y, m, d);
    assert(days == era * 146097 + doe - 719468);
    assert(-106751991167301 <= days <= 106751991167300);
    assert(-106751991167301 - 146400 <= era * 146097 <= 106751991167300 + 719468);
    assert(-800000000 <= era <= 800000000) by (nonlinear_arith)
        requires
            -106751991167301 - 146400 <= era * 146097 <= 106751991167300 + 719468,
    ;
    assert(-400000000000 <= y1 <= 400000000000);
}

/// Parse a `YYYY-MM-DD` date into a Unix timestamp (start of day, UTC):
/// `None` when the text is not a date or its timestamp does not fit in `i64`.
pub fn parse_date_to_unix(s: &str) -> (r: Option<i64>)
    ensures
        match r {
            Some(t) => date_timestamp(s@) == Some(t as int),
            None => date_timestamp(s@) is None,
        },
{
    let (y, m, d) = match read_date_fields(s) {
        Some(f) => f,
        None => {
            return None;
        },
    };
    if m < 1 || m > 12 {
        return None;
    }
    proof {
        if is_valid_date(y as int, m as int, d as int) && i64::MIN <= civil_to_days(
            y as int,
            m as int,
            d as int,
        ) * 86400 <= i64::MAX {
            lemma_fits_when_timestamp_fits(y as int, m as int, d as int);
        }
    }
    if !civil_fits(y, m, d) {
        return None;
    }
    let days = days_from_civil(y, m, d);
    let (yr, mo, dy) = civil_from_days(days);
    proof {
        lemma_valid_iff_round_trip(y as int, m as int, d as int);
    }
    if yr != y || mo != m || dy != d {
        return None;
    }
    days.checked_mul(86_400)
}

// ---------------------------------------------------------------------------
// Relative dates
// ---------------------------------------------------------------------------
/// Seconds in the unit that a suffix names: `d` a day, `w` a week, `m` a
/// month of 30 days.
pub open spec fn unit_seconds(c: char) -> Option<int> {
    if c == 'd' {
        Some(86400)
    } else if c == 'w' {
        Some(604800)
    } else if c == 'm' {
        Some(2592000)
    } else {
        None
    }
}

/// A trimmed text `N` followed by a unit suffix, with `N` all digits.
pub open spec fn is_relative(t: Seq<char>) -> bool {
    t.len() >= 2 && unit_seconds(t.last()) is Some && all_digits(t.drop_last())
}

/// The time a `--since`/`--until` value denotes: `YYYY-MM-DD` at the start of
/// that day (UTC), or `N` days, weeks or months before `now`; nothing for any
/// other text or a time outside `i64`.
pub open spec fn resolved_date(s: Seq<char>, now: int) -> Option<int> {
    let t = trim(s);
    if is_relative(t) {
        match u64_of_text(t.drop_last()) {
            Some(n) => {
                let v = now - n * unit_seconds(t.last())->0;
                if i64::MIN <= v <= i64::MAX {
                    Some(v)
                } else {
                    None
                }
            },
            None => None,
        }
    } else {
        date_timestamp(s)
    }
}

/// Resolve a `--since`/`--until` value against `now` (Unix seconds):
/// `YYYY-MM-DD`, or a relative `Nd` / `Nw` / `Nm` (days, weeks, 30-day months).
pub fn resolve_date_spec(spec: &str, now: i64) -> (r: Option<i64>)
    ensures
        match r {
            Some(t) => resolved_date(spec@, now as int) == Some(t as int),
            None => resolved_date(spec@, now as int) is None,
        },
{
    let cs = chars_of(spec);
    let n = cs.len();
    assert(cs@.subrange(0, n as int) == cs@);
    let (a, b) = trim_range(cs.as_slice(), 0, n);
    let ghost t = cs@.subrange(a as int, b as int);
    if b - a >= 2 {
        let last = cs[b - 1];
        assert(t.last() == last);
        assert(t.drop_last() == cs@.subrange(a as int, b - 1));
        let unit: Option<i64> = if last == 'd' {
            Some(86_400)
        } else if last == 'w' {
            Some(604_800)
        } else if last == 'm' {
            Some(2_592_000)
        } else {
            None
        };
        if let Some(u) = unit {
            if all_digits_in(cs.as_slice(), a, b - 1) {
                let digits = copy_range(cs.as_slice(), a, b - 1);
                let count = match parse_u64(digits.as_slice()) {
                    Some(c) => c,
                    None => {
                        return None;
                    },
                };
                assert(0 <= (count as i128) * (u as i128) <= 0x1_0000_0000_0000_0000 * 2_592_000)
                    by (nonlinear_arith)
                    requires
                        0 <= count <= u64::MAX,
                        0 < u <= 2_592_000,
                ;
                let v: i128 = now as i128 - (count as i128) * (u as i128);
                if v < i64::MIN as i128 || v > i64::MAX as i128 {
                    return None;
                }
                return Some(v as i64);
            }
        }
    }
    parse_date_to_unix(spec)
}

/// The last second that `--until` keeps for a value: the whole day that a
/// `YYYY-MM-DD` text names (up to the second before the next day starts, or
/// the largest `i64` where that does not fit), or the moment that a relative
/// value names.
pub open spec fn until_bound(s: Seq<char>, now: int) -> Option<int> {
    match resolved_date(s, now) {
        None => None,
        Some(v) => if is_relative(trim(s)) {
            Some(v)
        } else if v + 86399 <= i64::MAX {
            Some(v + 86399)
        } else {
            Some(i64::MAX as int)
        },
    }
}

/// Whether a value is relative (`Nd`, `Nw` or `Nm` once trimmed).
fn relative_text(spec: &str) -> (b: bool)
    ensures
        b == is_relative(trim(spec@)),
{
    let cs = chars_of(spec);
    let n = cs.len();
    assert(cs@.subrange(0, n as int) == cs@);
    let (a, b) = trim_range(cs.as_slice(), 0, n);
    let ghost t = cs@.subrange(a as int, b as int);
    if b - a < 2 {
        return false;
    }
    let last = cs[b - 1];
    assert(t.last() == last);
    assert(t.drop_last() == cs@.subrange(a as int, b - 1));
    if last != 'd' && last != 'w' && last != 'm' {
        return false;
    }
    all_digits_in(cs.as_slice(), a, b - 1)
}

/// Resolve an `--until` value against `now` (Unix seconds) to the last
/// second it keeps: a `YYYY-MM-DD` date keeps its whole day, a relative
/// `Nd` / `Nw` / `Nm` value keeps up to that moment.
pub fn resolve_until(spec: &str, now: i64) -> (r: Option<i64>)
    ensures
        match r {
            Some(t) => until_bound(spec@, now as int) == Some(t as int),
            None => until_bound(spec@, now as int) is None,
        },
{
    match resolve_date_spec(spec, now) {
        None => None,
        Some(v) => {
            if relative_text(spec) {
                Some(v)
            } else if v > i64::MAX - 86_399 {
                Some(i64::MAX)
            } else {
                Some(v + 86_399)
            }
        },
    }
}

// ---------------------------------------------------------------------------
// Buckets
// ---------------------------------------------------------------------------
/// Time bucket granularity for trend reporting.
#[derive(Debug, Clone, Copy, PartialEq, Eq, Structural)]
pub enum Bucket {
    Day,
    Week,
    Month,
}

/// The bucket that a name denotes, ignoring surrounding whitespace and ASCII case.
pub open spec fn bucket_of_name(name: Seq<char>) -> Option<Bucket> {
    let n = ascii_lower(trim(name));
    if n == "day"@ || n == "daily"@ {
        Some(Bucket::Day)
    } else if n == "week"@ || n == "weekly"@ {
        Some(Bucket::Week)
    } else if n == "month"@ || n == "monthly"@ {
        Some(Bucket::Month)
    } else {
        None
    }
}

impl Bucket {
    /// Parse a bucket name (`day`/`week`/`month`, case-insensitive).
    pub fn from_name(name: &str) -> (r: Option<Self>)
        ensures
            r == bucket_of_name(name@),
    {
        let cs = chars_of(name);
        let t = trim_chars(cs.as_slice());
        let n = to_ascii_lower(t.as_slice());
        if chars_eq_str(n.as_slice(), "day") || chars_eq_str(n.as_slice(), "daily") {
            Some(Bucket::Day)
        } else if chars_eq_str(n.as_slice(), "week") || chars_eq_str(n.as_slice(), "weekly") {
            Some(Bucket::Week)
        } else if chars_eq_str(n.as_slice(), "month") || chars_eq_str(n.as_slice(), "monthly") {
            Some(Bucket::Month)
        } else {
            None
        }
    }
}

/// `YYYY-MM-DD`, zero-padded.
pub open spec fn day_text(y: int, m: int, d: int) -> Seq<char> {
    zero_pad(decimal(y as nat), 4) + seq!['-'] + zero_pad(decimal(m as nat), 2) + seq!['-'] + zero_pad(
        decimal(d as nat),
        2,
    )
}

/// `YYYY-MM`, zero-padded.
pub open spec fn month_text(y: int, m: int) -> Seq<char> {
    zero_pad(decimal(y as nat), 4) + seq!['-'] + zero_pad(decimal(m as nat), 2)
}

/// The bucket key of a timestamp: its UTC day, the Monday that begins its
/// week, or its month.
pub open spec fn bucket_text(ts: nat, bucket: Bucket) -> Seq<char> {
    let days = (ts / 86400) as int;
    match bucket {
        Bucket::Day => {
            let c = days_to_civil(days);
            day_text(c.0, c.1, c.2)
        },
        Bucket::Week => {
            let c = days_to_civil(days - (days + 3) % 7);
            day_text(c.0, c.1, c.2)
        },
        Bucket::Month => {
            let c = days_to_civil(days);
            month_text(c.0, c.1)
        },
    }
}

/// Days from three days before the epoch on fall in years after 1600.
pub proof fn lemma_recent_year(z: int)
    requires
        z >= -3,
    ensures
        days_to_civil(z).0 >= 1600,
        1 <= days_to_civil(z).1 <= 12,
        1 <= days_to_civil(z).2 <= 31,
{
    let z1 = z + 719468;
    lemma_fundamental_div_mod(z1, 146097);
    let era = z1 / 146097;
    assert(era >= 4);
    lemma_year_of_era(z1 - era * 146097);
    lemma_days_to_civil_valid(z);
}

/// Appends `YYYY-MM-DD` (or `YYYY-MM` without the day).
fn push_date(out: &mut Vec<char>, y: i64, m: u32, d: u32, with_day: bool)
    requires
        y >= 0,
    ensures
        final(out)@ == old(out)@ + if with_day {
            day_text(y as int, m as int, d as int)
        } else {
            month_text(y as int, m as int)
        },
{
    push_decimal_padded(out, y as u64, 4);
    out.push('-');
    push_decimal_padded(out, m as u64, 2);
    if with_day {
        out.push('-');
        push_decimal_padded(out, d as u64, 2);
    }
}

/// A sortable, human-readable bucket key for a Unix timestamp.
pub fn bucket_key(ts: u64, bucket: Bucket) -> (r: String)
    ensures
        r@ == bucket_text(ts as nat, bucket),
{
    let days = (ts / 86_400) as i64;
    let mut out: Vec<char> = Vec::new();
    match bucket {
        Bucket::Day | Bucket::Month => {
            proof {
                lemma_recent_year(days as int);
            }
            let (y, m, d) = civil_from_days(days);
            let with_day = match bucket {
                Bucket::Month => false,
                _ => true,
            };
            push_date(&mut out, y, m, d, with_day);
        },
        Bucket::Week => {
            // 1970-01-01 was Thursday; Monday-based week: (days+3) % 7 == 0 on Monday.
            let monday = days - (days + 3) % 7;
            proof {
                lemma_recent_year(monday as int);
            }
            let (wy, wm, wd) = civil_from_days(monday);
            push_date(&mut out, wy, wm, wd, true);
        },
    }
    assert(out@ == Seq::<char>::empty() + out@);
    string_of(out.as_slice())
}

} // verus!
