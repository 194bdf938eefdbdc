//! Calendar arithmetic on the proleptic Gregorian calendar, epoch
//! milliseconds and their ISO-8601 rendering.
use vstd::prelude::*;

use crate::text::{decimal, push_char, push_zero_padded, zero_padded};

verus! {

// ---------------------------------------------------------------------------
// The calendar
// ---------------------------------------------------------------------------

/// Leap years of the proleptic Gregorian calendar.
pub open spec fn is_leap_year(y: int) -> bool {
    y % 4 == 0 && (y % 100 != 0 || y % 400 == 0)
}

/// Length of month `m` (1 = January) of year `y`.
pub open spec fn days_in_month(y: int, m: int) -> int {
    if m == 2 {
        if is_leap_year(y) {
            29
        } else {
            28
        }
    } else if m == 4 || m == 6 || m == 9 || m == 11 {
        30
    } else {
        31
    }
}

/// A real calendar date: month in `1..=12`, day within the month.
pub open spec fn is_valid_date(y: int, m: int, d: int) -> bool {
    1 <= m <= 12 && 1 <= d <= days_in_month(y, m)
}

/// Number of days in the years before year `y`, counted from year 0
/// (negative for negative `y`).
pub open spec fn days_before_year(y: int) -> int {
    365 * y + (y + 3) / 4 - (y + 99) / 100 + (y + 399) / 400
}

/// Number of days in the months before month `m` of year `y`.
pub open spec fn days_before_month(y: int, m: int) -> int
    decreases m,
{
    if m <= 1 {
        0
    } else {
        days_before_month(y, m - 1) + days_in_month(y, m - 1)
    }
}

/// Day number of `y-m-d`, counted from 0000-01-01 (day 0).
pub open spec fn day_number(y: int, m: int, d: int) -> int {
    days_before_year(y) + days_before_month(y, m) + d - 1
}

/// Days from 1970-01-01 to `y-m-d` (negative before the epoch).
pub open spec fn epoch_day(y: int, m: int, d: int) -> int {
    day_number(y, m, d) - day_number(1970, 1, 1)
}

/// The calendar date that lies `n` days after 1970-01-01.
pub open spec fn date_of_epoch_day(n: int) -> (int, int, int) {
    choose|ymd: (int, int, int)|
        is_valid_date(ymd.0, ymd.1, ymd.2) && epoch_day(ymd.0, ymd.1, ymd.2) == n
}

// ---------------------------------------------------------------------------
// Days counted from 0000-03-01, with March as the first month of the year.
// These agree with the calendar for months 1..=12 and extend it to the
// month numbers that `ymd_to_epoch_days` also accepts.
// ---------------------------------------------------------------------------

/// Days from the start of a 400-year era to March 1 of its year `k`.
pub open spec fn era_days_before(k: int) -> int {
    365 * k + k / 4 - k / 100
}

/// Days from March 1 to the first day of the month that is `mm` months
/// after March.
pub open spec fn days_after_march(mm: int) -> int {
    (153 * mm + 2) / 5
}

/// The year that holds month `m` when years start in March.
pub open spec fn march_year(y: int, m: int) -> int {
    if m <= 2 {
        y - 1
    } else {
        y
    }
}

/// Month `m` counted from March (March is 0, February is 11).
pub open spec fn march_month(m: int) -> int {
    if m > 2 {
        m - 3
    } else {
        m + 9
    }
}

/// Day number of day `d` of month `m` of year `y`, counted from
/// 0000-03-01, for any month number: month 13 reads as January of the
/// next year, month 14 as February of the next year, and so on by offset.
pub open spec fn shifted_day_number(y: int, m: int, d: int) -> int {
    let yy = march_year(y, m);
    146097 * (yy / 400) + era_days_before(yy % 400) + days_after_march(march_month(m)) + d - 1
}

/// The inputs on which `ymd_to_epoch_days` computes without overflow or
/// underflow.
pub open spec fn ymd_to_epoch_days_defined(y: u64, m: u64, d: u64) -> bool {
    let yy = march_year(y as int, m as int);
    let mm = march_month(m as int);
    let doy = days_after_march(mm) + d - 1;
    &&& (m <= 2 ==> y >= 1)
    &&& 153 * mm + 2 <= u64::MAX
    &&& days_after_march(mm) + d <= u64::MAX
    &&& doy >= 0
    &&& era_days_before(yy % 400) + doy <= u64::MAX
    &&& 146097 * (yy / 400) + era_days_before(yy % 400) + doy <= u64::MAX
    &&& shifted_day_number(y as int, m as int, d as int) >= 719468
}

// ---------------------------------------------------------------------------
// Lemmas
// ---------------------------------------------------------------------------

/// Day numbers of 1970-01-01 and 0000-03-01.
pub proof fn lemma_epoch_constants()
    ensures
        day_number(1970, 1, 1) == 719528,
        day_number(0, 3, 1) == 60,
{
    reveal_with_fuel(days_before_month, 3);
}

/// Table of month starts: months from March on are offset from March 1 by
/// `days_after_march`; January and February by the same offsets minus a
/// year's worth of March-to-December.
pub proof fn lemma_days_before_month(y: int, m: int)
    requires
        1 <= m <= 12,
    ensures
        m >= 3 ==> days_before_month(y, m) == 59 + (if is_leap_year(y) {
            1int
        } else {
            0int
        }) + days_after_march(m - 3),
        m <= 2 ==> days_before_month(y, m) == days_after_march(m + 9) - 306,
{
    reveal_with_fuel(days_before_month, 12);
}

/// A year has 365 days, plus one in leap years.
pub proof fn lemma_year_length(y: int)
    ensures
        days_before_year(y + 1) == days_before_year(y) + 365 + (if is_leap_year(y) {
            1int
        } else {
            0int
        }),
{
    assert((y + 4) / 4 == (y + 3) / 4 + (if y % 4 == 0 {
        1int
    } else {
        0int
    }));
    assert((y + 100) / 100 == (y + 99) / 100 + (if y % 100 == 0 {
        1int
    } else {
        0int
    }));
    assert((y + 400) / 400 == (y + 399) / 400 + (if y % 400 == 0 {
        1int
    } else {
        0int
    }));
}

/// Day count of March 1 of year `y`, from 0000-03-01, split into whole
/// 400-year eras and the rest.
pub proof fn lemma_era_split(y: int)
    ensures
        days_before_year(y) + (if is_leap_year(y) {
            1int
        } else {
            0int
        }) - 1 == 146097 * (y / 400) + era_days_before(y % 400),
{
    let e = y / 400;
    let k = y % 400;
    assert(y == 400 * e + k);
    assert((y + 3) / 4 == 100 * e + (k + 3) / 4);
    assert((y + 99) / 100 == 4 * e + (k + 99) / 100);
    assert((y + 399) / 400 == e + (k + 399) / 400);
    assert(is_leap_year(y) == is_leap_year(k));
}

/// Locating a day within a 400-year era: `yoe` is the era year holding
/// day `doe`, and the day falls within that March-based year.
#[verifier::rlimit(50)]
pub proof fn lemma_year_of_era(doe: int)
    requires
        0 <= doe < 146097,
    ensures
        ({
            let yoe = (doe - doe / 1460 + doe / 36524 - doe / 146096) / 365;
            &&& 0 <= yoe <= 399
            &&& era_days_before(yoe) <= doe
            &&& doe - era_days_before(yoe) <= 364 + (if is_leap_year(yoe + 1) {
                1int
            } else {
                0int
            })
        }),
{
}

/// Locating a day within a March-based year: `mp` is its month counted
/// from March and `doy - days_after_march(mp)` its offset in that month.
pub proof fn lemma_month_of_year(doy: int)
    requires
        0 <= doy <= 365,
    ensures
        ({
            let mp = (5 * doy + 2) / 153;
            &&& 0 <= mp <= 11
            &&& days_after_march(mp) <= doy
            &&& doy - days_after_march(mp) < days_after_march(mp + 1) - days_after_march(mp)
        }),
{
}

/// Two valid dates are ordered like their day numbers; in particular a
/// day number names at most one valid date.
pub proof fn lemma_day_number_bounds(y: int, m: int, d: int)
    requires
        is_valid_date(y, m, d),
    ensures
        days_before_year(y) <= day_number(y, m, d) < days_before_year(y + 1),
        days_before_year(y) + days_before_month(y, m) <= day_number(y, m, d)
            < days_before_year(y) + days_before_month(y, m) + days_in_month(y, m),
{
    reveal_with_fuel(days_before_month, 13);
    lemma_year_length(y);
}

/// `days_before_year` is strictly increasing.
pub proof fn lemma_days_before_year_increasing(a: int, b: int)
    requires
        a < b,
    ensures
        days_before_year(a) + 365 <= days_before_year(b),
    decreases b - a,
{
    lemma_year_length(a);
    if a + 1 < b {
        lemma_days_before_year_increasing(a + 1, b);
    }
}

/// `days_before_month` is strictly increasing within a year.
pub proof fn lemma_days_before_month_increasing(y: int, a: int, b: int)
    requires
        1 <= a < b <= 12,
    ensures
        days_before_month(y, a) + days_in_month(y, a) <= days_before_month(y, b),
    decreases b - a,
{
    reveal_with_fuel(days_before_month, 2);
    if a + 1 < b {
        lemma_days_before_month_increasing(y, a + 1, b);
    }
}

/// Distinct valid dates have distinct day numbers.
pub proof fn lemma_day_number_injective(y1: int, m1: int, d1: int, y2: int, m2: int, d2: int)
    requires
        is_valid_date(y1, m1, d1),
        is_valid_date(y2, m2, d2),
        day_number(y1, m1, d1) == day_number(y2, m2, d2),
    ensures
        y1 == y2 && m1 == m2 && d1 == d2,
{
    lemma_day_number_bounds(y1, m1, d1);
    lemma_day_number_bounds(y2, m2, d2);
    if y1 < y2 {
        lemma_days_before_year_increasing(y1 + 1, y2 + 1);
        lemma_days_before_year_increasing(y1, y2);
        if y1 + 1 < y2 {
            lemma_days_before_year_increasing(y1 + 1, y2);
        }
    } else if y2 < y1 {
        lemma_days_before_year_increasing(y2, y1);
        if y2 + 1 < y1 {
            lemma_days_before_year_increasing(y2 + 1, y1);
        }
    } else {
        if m1 < m2 {
            lemma_days_before_month_increasing(y1, m1, m2);
        } else if m2 < m1 {
            lemma_days_before_month_increasing(y1, m2, m1);
        }
    }
}

/// Month lengths from March to January do not depend on the year.
pub proof fn lemma_march_month_length(y: int, mp: int)
    requires
        0 <= mp <= 10,
    ensures
        days_after_march(mp + 1) - days_after_march(mp) == days_in_month(
            y,
            if mp < 10 {
                mp + 3
            } else {
                mp - 9
            },
        ),
{
}

/// The calendar date of the day `doy` days after March 1 of year `yy`.
pub proof fn lemma_date_in_march_year(yy: int, doy: int)
    requires
        0 <= doy <= 364 + (if is_leap_year(yy + 1) {
            1int
        } else {
            0int
        }),
    ensures
        ({
            let mp = (5 * doy + 2) / 153;
            let d = doy - days_after_march(mp) + 1;
            let m = if mp < 10 {
                mp + 3
            } else {
                mp - 9
            };
            let y = yy + (if m <= 2 {
                1int
            } else {
                0int
            });
            &&& is_valid_date(y, m, d)
            &&& day_number(y, m, d) == days_before_year(yy) + (if is_leap_year(yy) {
                1int
            } else {
                0int
            }) - 1 + 60 + doy
        }),
{
    lemma_month_of_year(doy);
    let mp = (5 * doy + 2) / 153;
    let d = doy - days_after_march(mp) + 1;
    let m = if mp < 10 {
        mp + 3
    } else {
        mp - 9
    };
    let y = yy + (if m <= 2 {
        1int
    } else {
        0int
    });
    if mp <= 10 {
        lemma_march_month_length(y, mp);
    } else {
        assert(days_after_march(11) == 337);
        assert(d <= days_in_month(y, m));
    }
    lemma_days_before_month(y, m);
    if m <= 2 {
        lemma_year_length(yy);
    }
}

/// Leap years repeat every 400 years.
pub proof fn lemma_leap_period(e: int, k: int)
    ensures
        is_leap_year(400 * e + k) == is_leap_year(k),
{
    let y = 400 * e + k;
    assert(4 * (100 * e) == 400 * e && 100 * (4 * e) == 400 * e) by (nonlinear_arith);
    vstd::arithmetic::div_mod::lemma_mod_multiples_vanish(100 * e, k, 4);
    vstd::arithmetic::div_mod::lemma_mod_multiples_vanish(4 * e, k, 100);
    vstd::arithmetic::div_mod::lemma_mod_multiples_vanish(e, k, 400);
}

/// Splitting a year into its 400-year era and the year within the era.
pub proof fn lemma_year_split(e: int, k: int)
    requires
        0 <= k < 400,
    ensures
        (400 * e + k) / 400 == e,
        (400 * e + k) % 400 == k,
{
}

/// Splitting a day count from 0000-03-01 into a 400-year era, the
/// March-based year within it and the day within that year.
pub proof fn lemma_era_decompose(n: int)
    ensures
        ({
            let era = n / 146097;
            let doe = n % 146097;
            let yoe = (doe - doe / 1460 + doe / 36524 - doe / 146096) / 365;
            let doy = doe - era_days_before(yoe);
            let yy = yoe + era * 400;
            &&& 0 <= doy <= 364 + (if is_leap_year(yy + 1) {
                1int
            } else {
                0int
            })
            &&& days_before_year(yy) + (if is_leap_year(yy) {
                1int
            } else {
                0int
            }) - 1 + doy == n
        }),
{
    let era = n / 146097;
    let doe = n % 146097;
    lemma_year_of_era(doe);
    let yoe = (doe - doe / 1460 + doe / 36524 - doe / 146096) / 365;
    let doy = doe - era_days_before(yoe);
    let yy = yoe + era * 400;
    assert(yy == 400 * era + yoe);
    lemma_year_split(era, yoe);
    lemma_era_split(yy);
    lemma_leap_period(era, yoe + 1);
    assert(yy + 1 == 400 * era + (yoe + 1));
    assert(n == 146097 * era + doe);
}

/// The calendar date of the day `n` days after 0000-03-01, computed by
/// splitting into 400-year eras, March-based years and months.
pub proof fn lemma_civil_from_days(n: int) -> (ymd: (int, int, int))
    ensures
        is_valid_date(ymd.0, ymd.1, ymd.2),
        day_number(ymd.0, ymd.1, ymd.2) == n + 60,
        ymd == ({
            let era = n / 146097;
            let doe = n % 146097;
            let yoe = (doe - doe / 1460 + doe / 36524 - doe / 146096) / 365;
            let doy = doe - era_days_before(yoe);
            let mp = (5 * doy + 2) / 153;
            let d = doy - days_after_march(mp) + 1;
            let m = if mp < 10 {
                mp + 3
            } else {
                mp - 9
            };
            let y = yoe + era * 400 + (if m <= 2 {
                1int
            } else {
                0int
            });
            (y, m, d)
        }),
{
    lemma_era_decompose(n);
    let era = n / 146097;
    let doe = n % 146097;
    let yoe = (doe - doe / 1460 + doe / 36524 - doe / 146096) / 365;
    let doy = doe - era_days_before(yoe);
    let yy = yoe + era * 400;
    lemma_date_in_march_year(yy, doy);
    let mp = (5 * doy + 2) / 153;
    let d = doy - days_after_march(mp) + 1;
    let m = if mp < 10 {
        mp + 3
    } else {
        mp - 9
    };
    let y = yy + (if m <= 2 {
        1int
    } else {
        0int
    });
    (y, m, d)
}

/// `date_of_epoch_day(n)` is the unique valid date with epoch day `n`.
pub proof fn lemma_date_of_epoch_day(n: int)
    ensures
        ({
            let ymd = date_of_epoch_day(n);
            is_valid_date(ymd.0, ymd.1, ymd.2) && epoch_day(ymd.0, ymd.1, ymd.2) == n
        }),
        forall|y: int, m: int, d: int|
            is_valid_date(y, m, d) && epoch_day(y, m, d) == n ==> date_of_epoch_day(n) == (y, m, d),
{
    lemma_epoch_constants();
    let w = lemma_civil_from_days(n + 719468);
    assert(is_valid_date(w.0, w.1, w.2) && epoch_day(w.0, w.1, w.2) == n);
    let ymd = date_of_epoch_day(n);
    assert forall|y: int, m: int, d: int|
        is_valid_date(y, m, d) && epoch_day(y, m, d) == n implies date_of_epoch_day(n) == (
        y,
        m,
        d,
    ) by {
        lemma_day_number_injective(ymd.0, ymd.1, ymd.2, y, m, d);
    }
}

/// Shifted day numbers agree with calendar day numbers for months 1..=12,
/// for any day of the month (the count is linear in the day).
pub proof fn lemma_shifted_day_number(y: int, m: int, d: int)
    requires
        1 <= m <= 12,
    ensures
        shifted_day_number(y, m, d) == day_number(y, m, d) - 60,
{
    let yy = march_year(y, m);
    lemma_era_split(yy);
    lemma_days_before_month(y, m);
    if m <= 2 {
        lemma_year_length(yy);
        assert(yy + 1 == y);
    }
}

// ---------------------------------------------------------------------------
// Laws
// ---------------------------------------------------------------------------

/// Every day number, before or after the epoch, names exactly one valid
/// calendar date, and converting that date back gives the same number.
pub proof fn law_epoch_day_roundtrip(n: int)
    ensures
        ({
            let ymd = date_of_epoch_day(n);
            is_valid_date(ymd.0, ymd.1, ymd.2) && epoch_day(ymd.0, ymd.1, ymd.2) == n
        }),
{
    lemma_date_of_epoch_day(n);
}

/// Converting a valid calendar date to its epoch day and back gives the
/// same date.
pub proof fn law_date_roundtrip(y: int, m: int, d: int)
    requires
        is_valid_date(y, m, d),
    ensures
        date_of_epoch_day(epoch_day(y, m, d)) == (y, m, d),
{
    lemma_date_of_epoch_day(epoch_day(y, m, d));
}

/// Each calendar date that `epoch_days_to_ymd` can return is accepted by
/// `ymd_to_epoch_days`: a valid date whose epoch day is at least 0 and at
/// most the largest day count `epoch_days_to_ymd` takes.
pub proof fn law_valid_dates_convert(y: u64, m: u64, d: u64)
    requires
        is_valid_date(y as int, m as int, d as int),
        0 <= epoch_day(y as int, m as int, d as int) <= u64::MAX - 719468,
    ensures
        ymd_to_epoch_days_defined(y, m, d),
{
    lemma_epoch_constants();
    lemma_shifted_day_number(y as int, m as int, d as int);
    if m <= 2 && y == 0 {
        // Dates in year 0 lie before the epoch.
        lemma_day_number_bounds(y as int, m as int, d as int);
        lemma_days_before_year_increasing(1, 1970);
        assert(false);
    }
    let yy = march_year(y as int, m as int);
    assert(yy >= 0);
    assert(0 <= era_days_before(yy % 400) <= 146096);
}

// ---------------------------------------------------------------------------
// Executable conversions
// ---------------------------------------------------------------------------

/// The calendar date `days` days after 1970-01-01.
pub fn epoch_days_to_ymd(days: u64) -> (ymd: (u64, u64, u64))
    requires
        days <= u64::MAX - 719468,
    ensures
        is_valid_date(ymd.0 as int, ymd.1 as int, ymd.2 as int),
        epoch_day(ymd.0 as int, ymd.1 as int, ymd.2 as int) == days,
        (ymd.0 as int, ymd.1 as int, ymd.2 as int) == date_of_epoch_day(days as int),
{
    let days = days + 719_468;
    let era = days / 146_097;
    let doe = days % 146_097;
    proof {
        lemma_year_of_era(doe as int);
    }
    let yoe = (doe - doe / 1460 + doe / 36524 - doe / 146_096) / 365;
    let y = yoe + era * 400;
    let doy = doe - (365 * yoe + yoe / 4 - yoe / 100);
    proof {
        lemma_month_of_year(doy as int);
    }
    let mp = (5 * doy + 2) / 153;
    let d = doy - (153 * mp + 2) / 5 + 1;
    let m = if mp < 10 {
        mp + 3
    } else {
        mp - 9
    };
    let y = if m <= 2 {
        y + 1
    } else {
        y
    };
    proof {
        let w = lemma_civil_from_days(days as int);
        assert(w == (y as int, m as int, d as int));
        lemma_epoch_constants();
        lemma_date_of_epoch_day(days - 719468);
    }
    (y, m, d)
}

/// Days from 1970-01-01 to `y-m-d`.
///
/// For months 1..=12 this is the calendar's epoch day (the day of the
/// month may run past the month's end and counts on linearly). Other month
/// numbers count on from March of the year: 13 is January and 14 February
/// of the next year, and so on by a fixed offset per month.
pub fn ymd_to_epoch_days(y: u64, m: u64, d: u64) -> (days: u64)
    requires
        ymd_to_epoch_days_defined(y, m, d),
    ensures
        1 <= m <= 12 ==> days == epoch_day(y as int, m as int, d as int),
        days == shifted_day_number(y as int, m as int, d as int) - 719468,
{
    let yy = if m <= 2 {
        y - 1
    } else {
        y
    };
    let mm = if m > 2 {
        m - 3
    } else {
        m + 9
    };
    let era = yy / 400;
    let yoe = yy % 400;
    let doy = (153 * mm + 2) / 5 + d - 1;
    let doe = yoe * 365 + yoe / 4 - yoe / 100 + doy;
    let r = era * 146_097 + doe - 719_468;
    proof {
        lemma_epoch_constants();
        if 1 <= m <= 12 {
            lemma_shifted_day_number(y as int, m as int, d as int);
        }
    }
    r
}

// ---------------------------------------------------------------------------
// Epoch milliseconds
// ---------------------------------------------------------------------------

/// `ms` floor-divided by 1000 and then reinterpreted as an unsigned 64-bit
/// second count (negative counts wrap around, as an `as u64` cast does).
pub open spec fn wrapped_epoch_secs(ms: int) -> int {
    let q = ms / 1000;
    if q >= 0 {
        q
    } else {
        q + 0x1_0000_0000_0000_0000
    }
}

/// ISO-8601 UTC text for epoch milliseconds `ms`:
/// `YYYY-MM-DDTHH:MM:SS.mmmZ`, the year padded to at least four digits.
pub open spec fn iso8601_text(ms: int) -> Seq<char> {
    let secs = wrapped_epoch_secs(ms);
    let millis = ms % 1000;
    let days = secs / 86400;
    let rem = secs % 86400;
    let ymd = date_of_epoch_day(days);
    zero_padded(ymd.0 as nat, 4) + seq!['-'] + zero_padded(ymd.1 as nat, 2) + seq!['-']
        + zero_padded(ymd.2 as nat, 2) + seq!['T'] + zero_padded((rem / 3600) as nat, 2) + seq![
        ':',
    ] + zero_padded(((rem % 3600) / 60) as nat, 2) + seq![':'] + zero_padded((rem % 60) as nat, 2)
        + seq!['.'] + zero_padded(millis as nat, 3) + seq!['Z']
}

/// Formats epoch milliseconds as ISO-8601 UTC text with millisecond
/// precision, e.g. `1970-01-01T00:00:00.000Z`.
pub fn ms_to_iso8601(ms: i64) -> (s: String)
    ensures
        s@ == iso8601_text(ms as int),
{
    let q = ms / 1000;
    let r = ms % 1000;
    let (q, millis) = if r < 0 {
        (q - 1, r + 1000)
    } else {
        (q, r)
    };
    assert(q == ms as int / 1000 && millis == ms as int % 1000);
    let secs: u64 = if q >= 0 {
        q as u64
    } else {
        ((q + i64::MAX + 1) as u64) + 0x8000_0000_0000_0000u64
    };
    let secs_per_day: u64 = 86400;
    let days = secs / secs_per_day;
    let remaining = secs % secs_per_day;
    let hours = remaining / 3600;
    let minutes = (remaining % 3600) / 60;
    let seconds = remaining % 60;
    let (year, month, day) = epoch_days_to_ymd(days);
    let mut s = String::new();
    push_zero_padded(&mut s, year, 4);
    push_char(&mut s, '-');
    push_zero_padded(&mut s, month, 2);
    push_char(&mut s, '-');
    push_zero_padded(&mut s, day, 2);
    push_char(&mut s, 'T');
    push_zero_padded(&mut s, hours, 2);
    push_char(&mut s, ':');
    push_zero_padded(&mut s, minutes, 2);
    push_char(&mut s, ':');
    push_zero_padded(&mut s, seconds, 2);
    push_char(&mut s, '.');
    push_zero_padded(&mut s, millis as u64, 3);
    push_char(&mut s, 'Z');
    s
}

/// The system clock, declared so that verified code can hold a reading.
#[verifier::external_type_specification]
#[verifier::external_body]
pub struct ExSystemTime(std::time::SystemTime);

/// Reads the system clock.
///
/// Trusted: calls `std::time::SystemTime::now`. Nothing is claimed of the
/// reading.
#[verifier::external_body]
fn system_now() -> std::time::SystemTime {
    std::time::SystemTime::now()
}

/// How long after the Unix epoch the reading `t` lies; `None` when it lies
/// before the epoch.
///
/// Trusted: calls `SystemTime::duration_since(UNIX_EPOCH)`, whose error
/// case (a reading earlier than the epoch) becomes `None`. Nothing is
/// claimed of the duration.
#[verifier::external_body]
fn since_unix_epoch(t: &std::time::SystemTime) -> Option<std::time::Duration> {
    t.duration_since(std::time::UNIX_EPOCH).ok()
}

/// Whole milliseconds in `d`.
///
/// Trusted: calls `Duration::as_millis`. Nothing is claimed of the value
/// beyond its type.
#[verifier::external_body]
fn duration_millis(d: &std::time::Duration) -> u128 {
    d.as_millis()
}

/// Epoch milliseconds as `i64`, from the milliseconds since the epoch that
/// the clock reads (`None` when it reads earlier than the epoch, which
/// counts as 0): saturating at `i64::MAX`.
pub fn clock_millis(since_epoch_ms: Option<u128>) -> (ms: i64)
    ensures
        ms == match since_epoch_ms {
            None => 0,
            Some(m) => if m <= i64::MAX {
                m as int
            } else {
                i64::MAX as int
            },
        },
{
    let now: u128 = match since_epoch_ms {
        Some(m) => m,
        None => 0,
    };
    if now <= i64::MAX as u128 {
        now as i64
    } else {
        i64::MAX
    }
}

/// The current time in epoch milliseconds: 0 when the clock reads
/// earlier than the epoch, saturating at `i64::MAX` (see `clock_millis`).
pub fn now_ms() -> (ms: i64)
    ensures
        ms >= 0,
{
    let since = match since_unix_epoch(&system_now()) {
        Some(d) => Some(duration_millis(&d)),
        None => None,
    };
    clock_millis(since)
}

} // verus!
