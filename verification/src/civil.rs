//! Mathematical model of the proleptic-Gregorian calendar.
//!
//! Everything in this module is specification: the calendar rules stated
//! directly (leap years, month lengths, days before a year or a month), the
//! day-serial of a date counted from `1970-01-01`, and the lemmas that relate
//! Hinnant's closed-form integer algorithms (used by [`crate::types`]) to that
//! direct statement. The public proof functions at the end of the file are the
//! laws of the calendar: the serial is a bijection between valid
//! `(year, month, day)` triples and integers, and it is strictly increasing in
//! the lexicographic order of the triples.

use vstd::prelude::*;

verus! {

// ─── The calendar, stated directly ──────────────────────────────────────────

/// Gregorian leap-year rule: divisible by 4 but not by 100, unless also by 400.
pub open spec fn is_leap(y: int) -> bool {
    (y % 4 == 0 && y % 100 != 0) || y % 400 == 0
}

/// Number of days in month `m` of year `y` (`0` for a month outside `1..=12`).
pub open spec fn month_length(y: int, m: int) -> int {
    if m == 2 {
        if is_leap(y) {
            29
        } else {
            28
        }
    } else if m == 4 || m == 6 || m == 9 || m == 11 {
        30
    } else if 1 <= m <= 12 {
        31
    } else {
        0
    }
}

/// Number of days in year `y`.
pub open spec fn year_length(y: int) -> int {
    if is_leap(y) {
        366
    } else {
        365
    }
}

/// `(y, m, d)` names a real proleptic-Gregorian date.
pub open spec fn is_valid_ymd(y: int, m: int, d: int) -> bool {
    1 <= m <= 12 && 1 <= d <= month_length(y, m)
}

/// Days from `0001-01-01` to `y-01-01` (negative for earlier years): 365 per
/// year plus one per leap year in between.
pub open spec fn days_before_year(y: int) -> int {
    let p = y - 1;
    365 * p + p / 4 - p / 100 + p / 400
}

/// Days from `y-01-01` to the first day of month `m` of year `y`: the sum of
/// the lengths of the months before `m`.
pub open spec fn days_before_month(y: int, m: int) -> int
    decreases m,
{
    if m <= 1 {
        0
    } else {
        days_before_month(y, m - 1) + month_length(y, m - 1)
    }
}

/// Day-serial of `(y, m, d)`: signed number of days from `1970-01-01`.
pub open spec fn civil_serial(y: int, m: int, d: int) -> int {
    (days_before_year(y) + days_before_month(y, m) + d - 1) - days_before_year(1970)
}

/// Lexicographic order on `(year, month, day)` triples.
pub open spec fn ymd_lt(a: (int, int, int), b: (int, int, int)) -> bool {
    a.0 < b.0 || (a.0 == b.0 && (a.1 < b.1 || (a.1 == b.1 && a.2 < b.2)))
}

/// The valid date whose serial is `z` (unique by [`lemma_serial_injective`],
/// existing by [`lemma_date_of_serial`]).
pub open spec fn date_of_serial(z: int) -> (int, int, int) {
    choose|t: (int, int, int)| is_valid_ymd(t.0, t.1, t.2) && civil_serial(t.0, t.1, t.2) == z
}

/// `true` when the serial of `(y, m, d)` is representable as an `i32`.
pub open spec fn serial_fits_i32(y: int, m: int, d: int) -> bool {
    i32::MIN <= civil_serial(y, m, d) <= i32::MAX
}

// ─── Hinnant's algorithms, as integer formulae ──────────────────────────────

/// Hinnant's `days_from_civil`, with years counted from March so that the
/// leap day is the last day of its year.
pub open spec fn hinnant_serial(y: int, m: int, d: int) -> int {
    let yp = if m <= 2 { y - 1 } else { y };
    let era = yp / 400;
    let yoe = yp - era * 400;
    let mp = if m > 2 { m - 3 } else { m + 9 };
    let doy = (153 * mp + 2) / 5 + d - 1;
    let doe = yoe * 365 + yoe / 4 - yoe / 100 + doy;
    era * 146097 + doe - 719468
}

/// First day of March-based year `k` of a 400-year era, counted from the
/// start of the era.
pub open spec fn year_start(k: int) -> int {
    365 * k + k / 4 - k / 100
}

/// Year of era, as Hinnant computes it from the day of era.
pub open spec fn year_of_era(doe: int) -> int {
    (doe - doe / 1460 + doe / 36524 - doe / 146096) / 365
}

/// Hinnant's `civil_from_days`.
pub open spec fn civil_from_serial(z: int) -> (int, int, int) {
    let zz = z + 719468;
    let era = zz / 146097;
    let doe = zz - era * 146097;
    let yoe = year_of_era(doe);
    let yp = yoe + era * 400;
    let doy = doe - year_start(yoe);
    let mp = (5 * doy + 2) / 153;
    let d = doy - (153 * mp + 2) / 5 + 1;
    let m = if mp < 10 { mp + 3 } else { mp - 9 };
    let y = if m <= 2 { yp + 1 } else { yp };
    (y, m, d)
}

/// Day of the year (from January 1st) at which month `m` starts in a common
/// year.
pub open spec fn common_month_offset(m: int) -> int {
    if m == 1 {
        0
    } else if m == 2 {
        31
    } else if m == 3 {
        59
    } else if m == 4 {
        90
    } else if m == 5 {
        120
    } else if m == 6 {
        151
    } else if m == 7 {
        181
    } else if m == 8 {
        212
    } else if m == 9 {
        243
    } else if m == 10 {
        273
    } else if m == 11 {
        304
    } else {
        334
    }
}

// ─── Lemmas ─────────────────────────────────────────────────────────────────

/// Closed form of [`days_before_month`].
pub proof fn lemma_days_before_month_closed(y: int, m: int)
    requires
        1 <= m <= 12,
    ensures
        days_before_month(y, m) == common_month_offset(m) + (if m > 2 && is_leap(y) {
            1int
        } else {
            0int
        }),
{
    reveal_with_fuel(days_before_month, 13);
}

/// Hinnant's `days_from_civil` agrees with the direct definition of the
/// serial on every valid date.
pub proof fn lemma_hinnant_matches(y: int, m: int, d: int)
    requires
        is_valid_ymd(y, m, d),
    ensures
        hinnant_serial(y, m, d) == civil_serial(y, m, d),
{
    lemma_days_before_month_closed(y, m);
    let yp = if m <= 2 { y - 1 } else { y };
    let era = yp / 400;
    let yoe = yp - era * 400;
    assert(0 <= yoe < 400);
    let leap: int = if is_leap(y) { 1 } else { 0 };
    if m > 2 {
        assert(leap == (if (yoe % 4 == 0 && yoe % 100 != 0) || yoe == 0 { 1int } else { 0int }))
            by (nonlinear_arith)
            requires
                y == era * 400 + yoe,
                0 <= yoe < 400,
                leap == (if (y % 4 == 0 && y % 100 != 0) || y % 400 == 0 { 1int } else { 0int }),
        ;
        assert(days_before_year(y) == 146097 * era + 365 * (yoe - 1) + (yoe - 1) / 4 - (yoe - 1)
            / 100 + (if yoe == 0 { -1int } else { 0int })) by (nonlinear_arith)
            requires
                y == era * 400 + yoe,
                0 <= yoe < 400,
                days_before_year(y) == 365 * (y - 1) + (y - 1) / 4 - (y - 1) / 100 + (y - 1) / 400,
        ;
    } else {
        assert(days_before_year(y) == 146097 * era + 365 * yoe + yoe / 4 - yoe / 100)
            by (nonlinear_arith)
            requires
                y - 1 == era * 400 + yoe,
                0 <= yoe < 400,
                days_before_year(y) == 365 * (y - 1) + (y - 1) / 4 - (y - 1) / 100 + (y - 1) / 400,
        ;
    }
    assert(days_before_year(1970) == 719162);
}

/// The year of era computed from a day of era starts on or before that day,
/// and its (March-based) year lasts past it.
pub proof fn lemma_year_of_era(doe: int)
    requires
        0 <= doe <= 146096,
    ensures
        ({
            let yoe = year_of_era(doe);
            let long: int = if ((yoe + 1) % 4 == 0 && (yoe + 1) % 100 != 0) || yoe == 399 {
                1
            } else {
                0
            };
            &&& 0 <= yoe <= 399
            &&& year_start(yoe) <= doe <= year_start(yoe) + 364 + long
        }),
{
    let yoe = year_of_era(doe);
    assert({
        &&& 0 <= yoe <= 399
        &&& year_start(yoe) <= doe
        &&& (yoe < 399 ==> doe < year_start(yoe + 1))
    }) by (nonlinear_arith)
        requires
            0 <= doe <= 146096,
            yoe == (doe - doe / 1460 + doe / 36524 - doe / 146096) / 365,
    ;
    assert(yoe < 399 ==> year_start(yoe + 1) == year_start(yoe) + 365 + (if (yoe + 1) % 4 == 0 {
        1int
    } else {
        0int
    }) - (if (yoe + 1) % 100 == 0 {
        1int
    } else {
        0int
    })) by (nonlinear_arith)
        requires
            0 <= yoe <= 399,
    ;
    assert(yoe == 399 ==> year_start(yoe) == 145731);
}

/// Hinnant's month-from-day-of-year formula lands on a valid month and day.
pub proof fn lemma_month_of_year(doy: int, long: int)
    requires
        0 <= long <= 1,
        0 <= doy <= 364 + long,
    ensures
        ({
            let mp = (5 * doy + 2) / 153;
            let d = doy - (153 * mp + 2) / 5 + 1;
            let m = if mp < 10 { mp + 3 } else { mp - 9 };
            &&& 0 <= mp <= 11
            &&& 1 <= m <= 12
            &&& 1 <= d
            &&& (m == 2 ==> d <= 28 + long)
            &&& (m != 2 ==> d <= month_length(0, m))
        }),
{
    let mp = (5 * doy + 2) / 153;
    assert(0 <= mp <= 11) by (nonlinear_arith)
        requires
            0 <= doy <= 365,
            mp == (5 * doy + 2) / 153,
    ;
    assert(153 * mp <= 5 * doy + 2 < 153 * mp + 153) by (nonlinear_arith)
        requires
            0 <= doy,
            mp == (5 * doy + 2) / 153,
    ;
    let s = (153 * mp + 2) / 5;
    assert(5 * s <= 153 * mp + 2 < 5 * s + 5) by (nonlinear_arith)
        requires
            0 <= mp,
            s == (153 * mp + 2) / 5,
    ;
}

/// Hinnant's `civil_from_days` yields a valid date with the given serial.
pub proof fn lemma_civil_from_serial(z: int)
    ensures
        ({
            let (y, m, d) = civil_from_serial(z);
            &&& is_valid_ymd(y, m, d)
            &&& civil_serial(y, m, d) == z
        }),
{
    let zz = z + 719468;
    let era = zz / 146097;
    let doe = zz - era * 146097;
    assert(0 <= doe <= 146096);
    lemma_year_of_era(doe);
    let yoe = year_of_era(doe);
    let long: int = if ((yoe + 1) % 4 == 0 && (yoe + 1) % 100 != 0) || yoe == 399 {
        1
    } else {
        0
    };
    let yp = yoe + era * 400;
    let doy = doe - year_start(yoe);
    lemma_month_of_year(doy, long);
    let mp = (5 * doy + 2) / 153;
    let d = doy - (153 * mp + 2) / 5 + 1;
    let m = if mp < 10 { mp + 3 } else { mp - 9 };
    let y = if m <= 2 { yp + 1 } else { yp };
    assert(civil_from_serial(z) == (y, m, d));
    assert(is_leap(yp + 1) == (long == 1)) by (nonlinear_arith)
        requires
            yp == yoe + era * 400,
            0 <= yoe <= 399,
            long == (if ((yoe + 1) % 4 == 0 && (yoe + 1) % 100 != 0) || yoe == 399 {
                1int
            } else {
                0int
            }),
            is_leap(yp + 1) == (((yp + 1) % 4 == 0 && (yp + 1) % 100 != 0) || (yp + 1) % 400
                == 0),
    ;
    assert(is_valid_ymd(y, m, d));
    let yp2 = if m <= 2 { y - 1 } else { y };
    assert(yp2 == yp);
    assert(yp / 400 == era) by (nonlinear_arith)
        requires
            yp == yoe + era * 400,
            0 <= yoe <= 399,
    ;
    assert(hinnant_serial(y, m, d) == z);
    lemma_hinnant_matches(y, m, d);
}

/// Consecutive years are `year_length` days apart.
pub proof fn lemma_days_before_next_year(y: int)
    ensures
        days_before_year(y + 1) == days_before_year(y) + year_length(y),
{
    assert(days_before_year(y + 1) == days_before_year(y) + 365 + (if is_leap(y) {
        1int
    } else {
        0int
    })) by (nonlinear_arith)
        requires
            days_before_year(y + 1) == 365 * y + y / 4 - y / 100 + y / 400,
            days_before_year(y) == 365 * (y - 1) + (y - 1) / 4 - (y - 1) / 100 + (y - 1) / 400,
            is_leap(y) == ((y % 4 == 0 && y % 100 != 0) || y % 400 == 0),
    ;
}

/// A later year starts no earlier than the end of an earlier one.
pub proof fn lemma_days_before_year_monotone(a: int, b: int)
    requires
        a < b,
    ensures
        days_before_year(a) + year_length(a) <= days_before_year(b),
{
    lemma_days_before_next_year(a);
    assert(days_before_year(a + 1) <= days_before_year(b)) by (nonlinear_arith)
        requires
            a + 1 <= b,
            days_before_year(a + 1) == 365 * a + a / 4 - a / 100 + a / 400,
            days_before_year(b) == 365 * (b - 1) + (b - 1) / 4 - (b - 1) / 100 + (b - 1) / 400,
    ;
}

/// A valid date lies within its year, and a later month starts after every
/// day of an earlier one.
pub proof fn lemma_day_within_year(y: int, m1: int, d1: int, m2: int)
    requires
        is_valid_ymd(y, m1, d1),
        m1 < m2 <= 12,
    ensures
        days_before_month(y, m1) + d1 - 1 < days_before_month(y, m2),
{
    lemma_days_before_month_closed(y, m1);
    lemma_days_before_month_closed(y, m2);
}

/// A valid date's day of year is below the length of its year.
pub proof fn lemma_day_of_year_bound(y: int, m: int, d: int)
    requires
        is_valid_ymd(y, m, d),
    ensures
        0 <= days_before_month(y, m) + d - 1 < year_length(y),
{
    lemma_days_before_month_closed(y, m);
}

// ─── Laws ───────────────────────────────────────────────────────────────────

/// The calendar is strictly monotonic: a date that comes earlier in
/// `(year, month, day)` order has a smaller serial.
pub proof fn lemma_serial_strictly_increasing(a: (int, int, int), b: (int, int, int))
    requires
        is_valid_ymd(a.0, a.1, a.2),
        is_valid_ymd(b.0, b.1, b.2),
        ymd_lt(a, b),
    ensures
        civil_serial(a.0, a.1, a.2) < civil_serial(b.0, b.1, b.2),
{
    if a.0 < b.0 {
        lemma_day_of_year_bound(a.0, a.1, a.2);
        lemma_day_of_year_bound(b.0, b.1, b.2);
        lemma_days_before_year_monotone(a.0, b.0);
    } else if a.1 < b.1 {
        lemma_day_within_year(a.0, a.1, a.2, b.1);
    }
}

/// The calendar is unambiguous: two valid dates with the same serial are the
/// same date.
pub proof fn lemma_serial_injective(a: (int, int, int), b: (int, int, int))
    requires
        is_valid_ymd(a.0, a.1, a.2),
        is_valid_ymd(b.0, b.1, b.2),
        civil_serial(a.0, a.1, a.2) == civil_serial(b.0, b.1, b.2),
    ensures
        a == b,
{
    if ymd_lt(a, b) {
        lemma_serial_strictly_increasing(a, b);
    } else if ymd_lt(b, a) {
        lemma_serial_strictly_increasing(b, a);
    }
}

/// The calendar is exact: every integer is the serial of exactly one valid
/// date, namely [`date_of_serial`], which Hinnant's `civil_from_days`
/// computes.
pub proof fn lemma_date_of_serial(z: int)
    ensures
        ({
            let t = date_of_serial(z);
            &&& is_valid_ymd(t.0, t.1, t.2)
            &&& civil_serial(t.0, t.1, t.2) == z
            &&& t == civil_from_serial(z)
        }),
        forall|y: int, m: int, d: int|
            is_valid_ymd(y, m, d) && civil_serial(y, m, d) == z ==> date_of_serial(z) == (y, m, d),
{
    lemma_civil_from_serial(z);
    let c = civil_from_serial(z);
    assert(is_valid_ymd(c.0, c.1, c.2) && civil_serial(c.0, c.1, c.2) == z);
    let t = date_of_serial(z);
    lemma_serial_injective(t, c);
    assert forall|y: int, m: int, d: int|
        is_valid_ymd(y, m, d) && civil_serial(y, m, d) == z implies date_of_serial(z) == (y, m, d) by {
        lemma_serial_injective(t, (y, m, d));
    }
}

/// Round trip from the date side: the date of the serial of a valid
/// `(y, m, d)` is `(y, m, d)` itself.
pub proof fn lemma_ymd_round_trip(y: int, m: int, d: int)
    requires
        is_valid_ymd(y, m, d),
    ensures
        date_of_serial(civil_serial(y, m, d)) == (y, m, d),
{
    lemma_date_of_serial(civil_serial(y, m, d));
}

/// Order is preserved in both directions: for valid dates, one precedes the
/// other in `(year, month, day)` order exactly when its serial is smaller.
pub proof fn lemma_serial_order(a: (int, int, int), b: (int, int, int))
    requires
        is_valid_ymd(a.0, a.1, a.2),
        is_valid_ymd(b.0, b.1, b.2),
    ensures
        ymd_lt(a, b) <==> civil_serial(a.0, a.1, a.2) < civil_serial(b.0, b.1, b.2),
{
    if ymd_lt(a, b) {
        lemma_serial_strictly_increasing(a, b);
    } else if ymd_lt(b, a) {
        lemma_serial_strictly_increasing(b, a);
    }
}

/// Consecutive days have consecutive serials, counted from `1970-01-01` as
/// serial 0: the day after a valid date is the next day of its month, the
/// first of the next month, or New Year's Day.
pub proof fn lemma_next_day(y: int, m: int, d: int)
    requires
        is_valid_ymd(y, m, d),
    ensures
        civil_serial(1970, 1, 1) == 0,
        d < month_length(y, m) ==> civil_serial(y, m, d + 1) == civil_serial(y, m, d) + 1,
        d == month_length(y, m) && m < 12 ==> civil_serial(y, m + 1, 1) == civil_serial(y, m, d)
            + 1,
        d == month_length(y, m) && m == 12 ==> civil_serial(y + 1, 1, 1) == civil_serial(y, m, d)
            + 1,
{
    lemma_days_before_month_closed(y, m);
    if m < 12 {
        lemma_days_before_month_closed(y, m + 1);
    }
    lemma_days_before_next_year(y);
    lemma_days_before_month_closed(y + 1, 1);
}

/// Each year has 365 days, or 366 in a leap year: New Year's Days of
/// consecutive years are `year_length` apart.
pub proof fn lemma_year_length(y: int)
    ensures
        civil_serial(y + 1, 1, 1) - civil_serial(y, 1, 1) == year_length(y),
{
    lemma_days_before_next_year(y);
    lemma_days_before_month_closed(y, 1);
    lemma_days_before_month_closed(y + 1, 1);
}

/// Total number of days in the whole calendar years `from, from + 1, ...,
/// to - 1`.
pub open spec fn days_in_years(from: int, to: int) -> int
    decreases to - from,
{
    if from >= to {
        0
    } else {
        year_length(from) + days_in_years(from + 1, to)
    }
}

/// The days of the whole years between two New Year's Days are the days
/// between them.
pub proof fn lemma_days_in_years(from: int, to: int)
    requires
        from <= to,
    ensures
        days_in_years(from, to) == civil_serial(to, 1, 1) - civil_serial(from, 1, 1),
    decreases to - from,
{
    if from < to {
        lemma_days_in_years(from + 1, to);
        lemma_year_length(from);
    }
}

/// A serial that fits in an `i32` belongs to a year within six million years
/// of the epoch.
pub proof fn lemma_serial_year_bound(y: int, m: int, d: int)
    requires
        is_valid_ymd(y, m, d),
        serial_fits_i32(y, m, d),
    ensures
        -6_000_000 <= y <= 6_000_000,
{
    lemma_day_of_year_bound(y, m, d);
    assert(-6_000_000 <= y <= 6_000_000) by (nonlinear_arith)
        requires
            -2147483648 <= days_before_year(y) + days_before_month(y, m) + d - 1 - 719162
                <= 2147483647,
            0 <= days_before_month(y, m) + d - 1 < 366,
            days_before_year(y) == 365 * (y - 1) + (y - 1) / 4 - (y - 1) / 100 + (y - 1) / 400,
    ;
    assert(days_before_year(1970) == 719162);
}

/// Every date within five million years of the epoch has a serial that fits
/// in an `i32`.
pub proof fn lemma_serial_fits_near_epoch(y: int, m: int, d: int)
    requires
        is_valid_ymd(y, m, d),
        -5_000_000 <= y <= 5_000_000,
    ensures
        serial_fits_i32(y, m, d),
{
    lemma_day_of_year_bound(y, m, d);
    assert(serial_fits_i32(y, m, d)) by (nonlinear_arith)
        requires
            -5_000_000 <= y <= 5_000_000,
            0 <= days_before_month(y, m) + d - 1 < 366,
            days_before_year(y) == 365 * (y - 1) + (y - 1) / 4 - (y - 1) / 100 + (y - 1) / 400,
            civil_serial(y, m, d) == days_before_year(y) + days_before_month(y, m) + d - 1 - 719162,
            serial_fits_i32(y, m, d) == (i32::MIN <= civil_serial(y, m, d) <= i32::MAX),
    ;
    assert(days_before_year(1970) == 719162);
}

} // verus!
