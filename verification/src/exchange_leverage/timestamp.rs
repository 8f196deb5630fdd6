//! Calendar dates of Unix days and the RFC 3339 timestamps of OKX requests.

use vstd::prelude::*;

use crate::text::{decimal, signed_zero_padded, signed_zero_padded_decimal, zero_padded, zero_padded_decimal};

verus! {

/// Gregorian leap year.
pub open spec fn is_leap_year(y: int) -> bool {
    y % 4 == 0 && (y % 100 != 0 || y % 400 == 0)
}

/// Days of year `y`.
pub open spec fn year_length(y: int) -> int {
    if is_leap_year(y) {
        366
    } else {
        365
    }
}

/// Days of month `m` (1 to 12) of year `y`.
pub open spec fn days_in_month(y: int, m: int) -> int {
    if m == 2 {
        if is_leap_year(y) {
            29
        } else {
            28
        }
    } else if m == 4 || m == 6 || m == 9 || m == 11 {
        30
    } else {
        31
    }
}

/// Days of year `y` before the first of month `m`.
pub open spec fn days_before_month(y: int, m: int) -> int
    decreases m,
{
    if m <= 1 {
        0
    } else {
        days_before_month(y, m - 1) + days_in_month(y, m - 1)
    }
}

/// Days from 1970-01-01 to the first of January of year `y` (negative
/// before 1970).
pub open spec fn days_before_year(y: int) -> int
    decreases (if y >= 1970 { y - 1970 } else { 1970 - y }),
{
    if y == 1970 {
        0
    } else if y > 1970 {
        days_before_year(y - 1) + year_length(y - 1)
    } else {
        days_before_year(y + 1) - year_length(y)
    }
}

/// Days from 1970-01-01 to the date `y-m-d`.
pub open spec fn days_from_civil(y: int, m: int, d: int) -> int {
    days_before_year(y) + days_before_month(y, m) + d - 1
}

/// `y-m-d` names a day of the proleptic Gregorian calendar.
pub open spec fn valid_date(y: int, m: int, d: int) -> bool {
    1 <= m <= 12 && 1 <= d <= days_in_month(y, m)
}

/// The date (year, month, day) of day `days` after 1970-01-01.
pub open spec fn civil_date(days: int) -> (int, int, int) {
    choose|t: (int, int, int)| valid_date(t.0, t.1, t.2) && days_from_civil(t.0, t.1, t.2) == days
}

/// Leap years from year 1 to year `y - 1`, counted with floor division so that
/// the difference between two years counts the leap years between them.
spec fn leap_years_before(y: int) -> int {
    (y - 1) / 4 - (y - 1) / 100 + (y - 1) / 400
}

proof fn lemma_leap_step(y: int)
    ensures
        leap_years_before(y + 1) == leap_years_before(y) + (if is_leap_year(y) { 1int } else { 0 }),
{
    assert(y / 4 == (y - 1) / 4 + (if y % 4 == 0 { 1int } else { 0 }));
    assert(y / 100 == (y - 1) / 100 + (if y % 100 == 0 { 1int } else { 0 }));
    assert(y / 400 == (y - 1) / 400 + (if y % 400 == 0 { 1int } else { 0 }));
    assert(y % 100 == 0 ==> y % 4 == 0);
    assert(y % 400 == 0 ==> y % 100 == 0);
}

proof fn lemma_days_before_year_closed(y: int)
    ensures
        days_before_year(y) == 365 * (y - 1970) + leap_years_before(y) - 477,
    decreases (if y >= 1970 { y - 1970 } else { 1970 - y }),
{
    if y == 1970 {
    } else if y > 1970 {
        lemma_days_before_year_closed(y - 1);
        lemma_leap_step(y - 1);
    } else {
        lemma_days_before_year_closed(y + 1);
        lemma_leap_step(y);
    }
}

proof fn lemma_days_before_month_table(y: int, m: int)
    requires
        1 <= m <= 12,
    ensures
        days_before_month(y, m) == (if m == 1 {
            0int
        } else if m == 2 {
            31int
        } else {
            (153 * (m - 3) + 2) / 5 + 59 + (if is_leap_year(y) { 1int } else { 0 })
        }),
{
    reveal_with_fuel(days_before_month, 12);
}

/// First day, counted from 1 March, of year `k` of a 400-year era that starts
/// on 1 March of a year divisible by 400.
spec fn era_year_start(k: int) -> int {
    365 * k + k / 4 - k / 100
}

/// The year that ends in February of era year `k` (year `k + 1` of the era)
/// is a leap year.
spec fn ends_in_leap_year(k: int) -> bool {
    (k + 1) % 4 == 0 && ((k + 1) % 100 != 0 || (k + 1) % 400 == 0)
}

proof fn lemma_year_of_era(doe: int)
    requires
        0 <= doe <= 146096,
    ensures
        ({
            let yoe = (doe - doe / 1460 + doe / 36524 - doe / 146096) / 365;
            let doy = doe - era_year_start(yoe);
            &&& 0 <= yoe <= 399
            &&& 0 <= doy
            &&& doy <= 364 || (doy == 365 && ends_in_leap_year(yoe))
        }),
{
}

proof fn lemma_month_of_year(doy: int)
    requires
        0 <= doy <= 365,
    ensures
        ({
            let mp = (5 * doy + 2) / 153;
            let d = doy - (153 * mp + 2) / 5 + 1;
            &&& 0 <= mp <= 11
            &&& 1 <= d
            &&& mp == 11 ==> d == doy - 336
            &&& mp < 11 ==> d <= days_in_month(0, if mp < 10 { mp + 3 } else { mp - 9 })
        }),
{
}

/// The date of a Unix day, as (year, month, day); the year is truncated to
/// `i32` as the exchange timestamps carry it.
pub fn civil_from_days(days: i64) -> (r: (i32, u32, u32))
    requires
        days <= i64::MAX - 719_468,
    ensures
        r.0 == civil_date(days as int).0 as i32,
        r.1 == civil_date(days as int).1,
        r.2 == civil_date(days as int).2,
{
    let z: i64 = days + 719_468;
    let era: i64 = if z >= 0 {
        (z as u64 / 146_097) as i64
    } else {
        -((((-(z + 1)) as u64) / 146_097) as i64) - 1
    };
    assert(era == (z as int) / 146_097);
    let doe: u32 = (z - era * 146_097) as u32;
    let yoe: u32 = (doe - doe / 1460 + doe / 36524 - doe / 146_096) / 365;
    proof {
        lemma_year_of_era(doe as int);
    }
    let y: i64 = yoe as i64 + era * 400;
    let doy: u32 = doe - (365 * yoe + yoe / 4 - yoe / 100);
    proof {
        lemma_month_of_year(doy as int);
    }
    let mp: u32 = (5 * doy + 2) / 153;
    let d: u32 = doy - (153 * mp + 2) / 5 + 1;
    let m: u32 = if mp < 10 {
        mp + 3
    } else {
        mp - 9
    };
    let year: i64 = if m <= 2 {
        y + 1
    } else {
        y
    };
    proof {
        lemma_civil_parts(days as int, era as int, yoe as int, doy as int, mp as int, d as int, m as int, year as int);
    }
    (year as i32, m, d)
}

/// Leap years and leap-ness of the March-based year `yoe` of era `era`.
proof fn lemma_era_leaps(era: int, yoe: int)
    requires
        0 <= yoe <= 399,
    ensures
        leap_years_before(yoe + era * 400 + 1) == 97 * era + yoe / 4 - yoe / 100,
        is_leap_year(yoe + era * 400 + 1) == ends_in_leap_year(yoe),
{
    let y = yoe + era * 400;
    assert(y / 4 == yoe / 4 + 100 * era);
    assert(y / 100 == yoe / 100 + 4 * era);
    assert(y / 400 == era);
    assert((y + 1) % 4 == (yoe + 1) % 4);
    assert((y + 1) % 100 == (yoe + 1) % 100);
    assert((y + 1) % 400 == (yoe + 1) % 400);
}

/// The day count of the March-based year `y`'s day `doy`, reached through
/// the January-based date (`year`, `m`, `d`).
proof fn lemma_day_count_of_parts(y: int, doy: int, mp: int, d: int, m: int, year: int)
    requires
        0 <= mp <= 11,
        d == doy - (153 * mp + 2) / 5 + 1,
        m == (if mp < 10 { mp + 3 } else { mp - 9 }),
        year == (if m <= 2 { y + 1 } else { y }),
    ensures
        days_from_civil(year, m, d) == 365 * (y - 1970) + leap_years_before(y + 1) - 418 + doy,
{
    lemma_days_before_year_closed(year);
    lemma_days_before_month_table(year, m);
    lemma_leap_step(y);
    if m <= 2 {
        assert(year == y + 1);
    } else {
        assert(year == y);
    }
}

proof fn lemma_civil_parts(days: int, era: int, yoe: int, doy: int, mp: int, d: int, m: int, year: int)
    requires
        era == (days + 719_468) / 146_097,
        doy == days + 719_468 - era * 146_097 - era_year_start(yoe),
        0 <= yoe <= 399,
        0 <= doy,
        doy <= 364 || (doy == 365 && ends_in_leap_year(yoe)),
        d == doy - (153 * mp + 2) / 5 + 1,
        0 <= mp <= 11,
        1 <= d,
        mp == 11 ==> d == doy - 336,
        mp < 11 ==> d <= days_in_month(0, m),
        m == (if mp < 10 { mp + 3 } else { mp - 9 }),
        year == (if m <= 2 { yoe + era * 400 + 1 } else { yoe + era * 400 }),
    ensures
        civil_date(days) == (year, m, d),
{
    let y = yoe + era * 400;
    lemma_era_leaps(era, yoe);
    lemma_day_count_of_parts(y, doy, mp, d, m, year);
    assert(days_from_civil(year, m, d) == days);
    if m == 2 {
        assert(year == y + 1);
        assert(d <= days_in_month(year, m));
    } else {
        assert(days_in_month(year, m) == days_in_month(0, m));
    }
    assert(valid_date(year, m, d));
    lemma_civil_date_of(year, m, d);
}

/// Every valid date is the date of its own day count: `civil_date` reads back
/// what `days_from_civil` counts.
pub proof fn lemma_civil_date_of(y: int, m: int, d: int)
    requires
        valid_date(y, m, d),
    ensures
        civil_date(days_from_civil(y, m, d)) == (y, m, d),
{
    let days = days_from_civil(y, m, d);
    let w = (y, m, d);
    assert(valid_date(w.0, w.1, w.2) && days_from_civil(w.0, w.1, w.2) == days);
    let t = civil_date(days);
    lemma_civil_date_unique(t.0, t.1, t.2, y, m, d);
}

/// Two valid dates with the same day count are the same date.
pub proof fn lemma_civil_date_unique(y1: int, m1: int, d1: int, y2: int, m2: int, d2: int)
    requires
        valid_date(y1, m1, d1),
        valid_date(y2, m2, d2),
        days_from_civil(y1, m1, d1) == days_from_civil(y2, m2, d2),
    ensures
        y1 == y2 && m1 == m2 && d1 == d2,
{
    lemma_day_within_year(y1, m1, d1);
    lemma_day_within_year(y2, m2, d2);
    if y1 < y2 {
        lemma_days_before_year_grows(y1, y2);
    } else if y2 < y1 {
        lemma_days_before_year_grows(y2, y1);
    }
    assert(y1 == y2);
    lemma_day_within_month(y1, m1, d1);
    lemma_day_within_month(y2, m2, d2);
    if m1 < m2 {
        lemma_days_before_month_grows(y1, m1, m2);
    } else if m2 < m1 {
        lemma_days_before_month_grows(y1, m2, m1);
    }
}

proof fn lemma_day_within_year(y: int, m: int, d: int)
    requires
        valid_date(y, m, d),
    ensures
        days_before_year(y) <= days_from_civil(y, m, d) < days_before_year(y) + year_length(y),
{
    lemma_days_before_month_table(y, m);
}

proof fn lemma_day_within_month(y: int, m: int, d: int)
    requires
        valid_date(y, m, d),
    ensures
        days_before_month(y, m) <= days_before_month(y, m) + d - 1 < days_before_month(y, m + 1),
{
}

proof fn lemma_days_before_year_grows(a: int, b: int)
    requires
        a < b,
    ensures
        days_before_year(a) + year_length(a) <= days_before_year(b),
    decreases b - a,
{
    lemma_days_before_year_closed(a);
    lemma_days_before_year_closed(a + 1);
    lemma_leap_step(a);
    if a + 1 < b {
        lemma_days_before_year_grows(a + 1, b);
    }
}

proof fn lemma_days_before_month_grows(y: int, a: int, b: int)
    requires
        1 <= a < b <= 12,
    ensures
        days_before_month(y, a + 1) <= days_before_month(y, b),
    decreases b - a,
{
    if a + 1 < b {
        lemma_days_before_month_grows(y, a + 1, b);
    }
}

/// The RFC 3339 text, with milliseconds and `Z`, of `millis` milliseconds
/// into second `secs` of Unix time: `YYYY-MM-DDTHH:MM:SS.mmmZ`.
pub open spec fn rfc3339_millis_text(secs: int, millis: nat) -> Seq<char> {
    let date = civil_date(secs / 86_400);
    let sod = secs % 86_400;
    signed_zero_padded((date.0 as i32) as int, 4) + "-"@ + zero_padded(decimal(date.1 as nat), 2)
        + "-"@ + zero_padded(decimal(date.2 as nat), 2) + "T"@ + zero_padded(
        decimal((sod / 3600) as nat),
        2,
    ) + ":"@ + zero_padded(decimal(((sod % 3600) / 60) as nat), 2) + ":"@ + zero_padded(
        decimal((sod % 60) as nat),
        2,
    ) + "."@ + zero_padded(decimal(millis), 3) + "Z"@
}

/// The OKX request timestamp of `millis` milliseconds into second `secs`.
pub fn format_rfc3339_millis(secs: i64, millis: u32) -> (r: String)
    ensures
        r@ == rfc3339_millis_text(secs as int, millis as nat),
{
    let days: i64 = if secs >= 0 {
        (secs as u64 / 86_400) as i64
    } else {
        -((((-(secs + 1)) as u64) / 86_400) as i64) - 1
    };
    assert(days == (secs as int) / 86_400);
    let day_secs: u32 = if secs >= 0 {
        (secs as u64 % 86_400) as u32
    } else {
        (86_399 - ((-(secs + 1)) as u64) % 86_400) as u32
    };
    assert(day_secs == (secs as int) % 86_400);
    let (year, month, day) = civil_from_days(days);
    let hour: u32 = day_secs / 3600;
    let minute: u32 = (day_secs % 3600) / 60;
    let second: u32 = day_secs % 60;
    let mut out = signed_zero_padded_decimal(year as i64, 4);
    out.append("-");
    out.append(zero_padded_decimal(month as u64, 2).as_str());
    out.append("-");
    out.append(zero_padded_decimal(day as u64, 2).as_str());
    out.append("T");
    out.append(zero_padded_decimal(hour as u64, 2).as_str());
    out.append(":");
    out.append(zero_padded_decimal(minute as u64, 2).as_str());
    out.append(":");
    out.append(zero_padded_decimal(second as u64, 2).as_str());
    out.append(".");
    out.append(zero_padded_decimal(millis as u64, 3).as_str());
    out.append("Z");
    out
}

} // verus!
