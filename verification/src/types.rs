//! Core temporal and convention types.
//!
//! - [`Date`] — a proleptic-Gregorian calendar date stored as an `i32` day
//!   serial counted from the epoch `1970-01-01`. All conversions are exact
//!   integer arithmetic, proved against the calendar model in
//!   [`crate::civil`].
//! - [`Tenor`] / [`TenorUnit`] — a length of time with a unit.
//! - [`Daycount`] — the ISDA / ICMA day-count conventions; the exact integer
//!   decomposition of a year fraction is [`Daycount::year_fraction_parts`].
//! - [`Compounding`] — the mapping between a discount factor and a zero rate.
//! - [`Frequency`] — a payment frequency for swap legs.
//! - [`BusinessDayConvention`] — the names of the business-day-adjustment
//!   conventions (calendar-aware adjustment is left to the caller).

use vstd::prelude::*;

use crate::civil::{
    civil_from_serial, civil_serial, date_of_serial, hinnant_serial, is_leap, is_valid_ymd,
    lemma_date_of_serial, lemma_day_of_year_bound, lemma_days_before_month_closed,
    lemma_days_before_next_year, lemma_hinnant_matches, lemma_month_of_year,
    lemma_serial_order, lemma_serial_year_bound, days_in_years, lemma_days_in_years,
    lemma_next_day, lemma_year_of_era, lemma_ymd_round_trip,
    month_length, serial_fits_i32, year_length, ymd_lt,
};
use crate::errors::TypeError;

verus! {

// ─── Date ────────────────────────────────────────────────────────────────────

/// A calendar date, stored as a signed day-serial since `1970-01-01`.
///
/// The view of a date is its serial. Every `i32` is a valid serial; the
/// calendar fields of a serial are [`date_of_serial`].
#[derive(Debug, Clone, Copy, PartialEq, Eq, PartialOrd, Ord, Hash)]
pub struct Date(i32);

impl View for Date {
    type V = i32;

    closed spec fn view(&self) -> i32 {
        self.0
    }
}

/// Calendar year of serial `z`.
pub open spec fn serial_year(z: int) -> int {
    date_of_serial(z).0
}

/// Calendar month of serial `z`.
pub open spec fn serial_month(z: int) -> int {
    date_of_serial(z).1
}

/// Calendar day of serial `z`.
pub open spec fn serial_day(z: int) -> int {
    date_of_serial(z).2
}

impl Date {
    /// Constructs a `Date` from proleptic-Gregorian year/month/day.
    ///
    /// Rejects months outside `1..=12`, days outside `1..=31`, days that do
    /// not exist in the given month (February 30, or February 29 in a
    /// non-leap year), and real dates whose day-serial does not fit the `i32`
    /// representation (more than about 5.8 million years from the epoch),
    /// all with [`TypeError::InvalidDate`].
    pub fn from_ymd(year: i32, month: u32, day: u32) -> (r: Result<Self, TypeError>)
        ensures
            match r {
                Ok(date) => is_valid_ymd(year as int, month as int, day as int) && serial_fits_i32(
                    year as int,
                    month as int,
                    day as int,
                ) && date@ == civil_serial(year as int, month as int, day as int),
                Err(e) => !(is_valid_ymd(year as int, month as int, day as int) && serial_fits_i32(
                    year as int,
                    month as int,
                    day as int,
                )) && e == (TypeError::InvalidDate { year, month, day }),
            },
    {
        if month < 1 || month > 12 {
            return Err(TypeError::InvalidDate { year, month, day });
        }
        if day == 0 || day > days_in_month(year, month) {
            return Err(TypeError::InvalidDate { year, month, day });
        }
        let serial = civil_days_wide(year, month, day);
        if serial < i32::MIN as i64 || serial > i32::MAX as i64 {
            return Err(TypeError::InvalidDate { year, month, day });
        }
        Ok(Self(serial as i32))
    }

    /// Constructs a `Date` from its day-serial (days since `1970-01-01`).
    /// Every `i32` is a valid serial.
    pub fn from_serial(days: i32) -> (r: Self)
        ensures
            r@ == days,
    {
        Self(days)
    }

    /// Returns the day-serial since `1970-01-01`.
    pub fn serial(self) -> (r: i32)
        ensures
            r == self@,
    {
        self.0
    }

    /// Returns the proleptic-Gregorian year.
    pub fn year(self) -> (r: i32)
        ensures
            r == serial_year(self@ as int),
    {
        civil_from_days(self.0).0
    }

    /// Returns the month of the year (`1..=12`).
    pub fn month(self) -> (r: u32)
        ensures
            r == serial_month(self@ as int),
            1 <= r <= 12,
    {
        proof {
            lemma_date_of_serial(self@ as int);
        }
        civil_from_days(self.0).1
    }

    /// Returns the day of the month (`1..=31`).
    pub fn day(self) -> (r: u32)
        ensures
            r == serial_day(self@ as int),
            1 <= r <= month_length(serial_year(self@ as int), serial_month(self@ as int)),
    {
        proof {
            lemma_date_of_serial(self@ as int);
        }
        civil_from_days(self.0).2
    }

    /// Adds `days` calendar days (the serial wraps around on overflow).
    pub fn add_days(self, days: i32) -> (r: Self)
        ensures
            r@ == vstd::wrapping::i32_specs::wrapping_add(self@, days),
    {
        Self(self.0.wrapping_add(days))
    }

    /// Returns the signed calendar-day difference `other - self` (the
    /// number of days from `self` to `other`, wrapping around on overflow).
    pub fn days_between(self, other: Self) -> (r: i32)
        ensures
            r == vstd::wrapping::i32_specs::wrapping_sub(other@, self@),
    {
        other.0.wrapping_sub(self.0)
    }
}

/// Returns `true` if `year` is a leap year in the proleptic-Gregorian
/// calendar (divisible by 4 but not by 100, unless also by 400).
pub(crate) fn is_leap_year(year: i32) -> (r: bool)
    ensures
        r == is_leap(year as int),
{
    (year % 4 == 0 && year % 100 != 0) || year % 400 == 0
}

/// Returns the number of days in the given (year, month), `0` for a month
/// outside `1..=12`.
pub(crate) fn days_in_month(year: i32, month: u32) -> (r: u32)
    ensures
        r == month_length(year as int, month as int),
{
    match month {
        1 | 3 | 5 | 7 | 8 | 10 | 12 => 31,
        4 | 6 | 9 | 11 => 30,
        2 => {
            if is_leap_year(year) {
                29
            } else {
                28
            }
        },
        _ => 0,
    }
}

/// Hinnant's `days_from_civil`: converts a proleptic-Gregorian (y, m, d) to
/// the day-serial relative to `1970-01-01`. The intermediate era arithmetic
/// runs in 64 bits, so the only limit is that the serial itself fits.
fn days_from_civil(y: i32, m: u32, d: u32) -> (r: i32)
    requires
        is_valid_ymd(y as int, m as int, d as int),
        serial_fits_i32(y as int, m as int, d as int),
    ensures
        r == civil_serial(y as int, m as int, d as int),
{
    civil_days_wide(y, m, d) as i32
}

/// Hinnant's `days_from_civil` in 64-bit arithmetic, where the serial of any
/// valid date with an `i32` year is representable.
fn civil_days_wide(y: i32, m: u32, d: u32) -> (r: i64)
    requires
        is_valid_ymd(y as int, m as int, d as int),
    ensures
        r == civil_serial(y as int, m as int, d as int),
{
    let yp: i64 = if m <= 2 {
        y as i64 - 1
    } else {
        y as i64
    };
    let era: i64 = if yp >= 0 {
        yp
    } else {
        yp - 399
    } / 400;
    assert(era == yp / 400) by (nonlinear_arith)
        requires
            yp >= 0 ==> era == yp / 400,
            yp < 0 ==> era == -((399 - yp) / 400),
    ;
    // Year-of-era is in [0, 399] by construction of `era`.
    let yoe: i64 = yp - era * 400;
    // Day-of-year with March = 0, in [0, 365].
    let mp: i64 = if m > 2 {
        m as i64 - 3
    } else {
        m as i64 + 9
    };
    let doy: i64 = (153 * mp + 2) / 5 + d as i64 - 1;
    // Day-of-era, in [0, 146096].
    let doe: i64 = yoe * 365 + yoe / 4 - yoe / 100 + doy;
    let serial: i64 = era * 146_097 + doe - 719_468;
    proof {
        assert(serial == hinnant_serial(y as int, m as int, d as int));
        lemma_hinnant_matches(y as int, m as int, d as int);
    }
    serial
}

/// Hinnant's `civil_from_days`: converts a day-serial relative to
/// `1970-01-01` into a proleptic-Gregorian (y, m, d). The era arithmetic
/// runs in 64 bits, so every `i32` serial is accepted.
fn civil_from_days(z: i32) -> (r: (i32, u32, u32))
    ensures
        (r.0 as int, r.1 as int, r.2 as int) == date_of_serial(z as int),
{
    let ghost z0 = z as int;
    proof {
        lemma_date_of_serial(z0);
        let t = date_of_serial(z0);
        lemma_serial_year_bound(t.0, t.1, t.2);
    }
    let z: i64 = z as i64 + 719_468;
    let era: i64 = if z >= 0 {
        z
    } else {
        z - 146_096
    } / 146_097;
    assert(era == (z as int) / 146097) by (nonlinear_arith)
        requires
            z >= 0 ==> era == z / 146097,
            z < 0 ==> era == -((146096 - z) / 146097),
    ;
    // Day-of-era is in [0, 146096] by construction of `era`.
    let doe: u32 = (z - era * 146_097) as u32;
    // Year-of-era, in [0, 399].
    let yoe: u32 = (doe - doe / 1460 + doe / 36_524 - doe / 146_096) / 365;
    proof {
        lemma_year_of_era(doe as int);
    }
    let y_partial: i64 = yoe as i64 + era * 400;
    // Day-of-year (March = 0), in [0, 365].
    let doy: u32 = doe - (365 * yoe + yoe / 4 - yoe / 100);
    // Month-prime, in [0, 11].
    let mp: u32 = (5 * doy + 2) / 153;
    proof {
        let yoe_i = yoe as int;
        let long: int = if ((yoe_i + 1) % 4 == 0 && (yoe_i + 1) % 100 != 0) || yoe_i == 399 {
            1
        } else {
            0
        };
        lemma_month_of_year(doy as int, long);
    }
    let d: u32 = doy - (153 * mp + 2) / 5 + 1;
    let m: u32 = if mp < 10 {
        mp + 3
    } else {
        mp - 9
    };
    let y: i64 = if m <= 2 {
        y_partial + 1
    } else {
        y_partial
    };
    assert((y as int, m as int, d as int) == civil_from_serial(z0));
    (y as i32, m, d)
}


// ─── Tenor ───────────────────────────────────────────────────────────────────

/// The unit of a [`Tenor`].
#[derive(Debug, Clone, Copy, PartialEq, Eq, Hash, Structural)]
pub enum TenorUnit {
    /// Days.
    Days,
    /// Weeks.
    Weeks,
    /// Months.
    Months,
    /// Years.
    Years,
}

/// A tenor — a length of time expressed in a unit.
///
/// `Tenor` is a fully literal value (`count`, `unit`); it does not carry
/// a calendar. Conversion to a date is via [`Tenor::add_to`], which uses the
/// "end-of-month preserved" rule for `Months` / `Years`.
#[derive(Debug, Clone, Copy, PartialEq, Eq, Hash, Structural)]
pub struct Tenor {
    /// Number of units (may be negative for a backwards tenor).
    pub count: i32,
    /// The unit of `count`.
    pub unit: TenorUnit,
}

/// The date `months` calendar months after the date with serial `z`: year
/// and month advanced (floor division handles negative counts); the last day
/// of a month maps to the last day of the target month, any other day of
/// month is kept, clipped to the last day of the target month.
pub open spec fn months_later(z: int, months: int) -> (int, int, int) {
    let start = date_of_serial(z);
    let total = start.1 - 1 + months;
    let y = start.0 + total / 12;
    let m = total % 12 + 1;
    let d = if start.2 == month_length(start.0, start.1) || start.2 > month_length(y, m) {
        month_length(y, m)
    } else {
        start.2
    };
    (y, m, d)
}

/// Serial of [`months_later`].
pub open spec fn months_later_serial(z: int, months: int) -> int {
    let t = months_later(z, months);
    civil_serial(t.0, t.1, t.2)
}

/// `true` when `months` months can be added to serial `z`: the target
/// date's serial fits an `i32`.
pub open spec fn can_add_months(z: int, months: int) -> bool {
    let t = months_later(z, months);
    serial_fits_i32(t.0, t.1, t.2)
}

/// Number of months that a `Months` or `Years` tenor adds (the year count is
/// multiplied by 12 with `i32` wrap-around).
pub open spec fn tenor_months(t: Tenor) -> i32 {
    if t.unit == TenorUnit::Years {
        vstd::wrapping::i32_specs::wrapping_mul(t.count, 12)
    } else {
        t.count
    }
}

/// `true` when [`Tenor::add_to`] is defined on `start`.
pub open spec fn tenor_applies(t: Tenor, start: int) -> bool {
    (t.unit == TenorUnit::Months || t.unit == TenorUnit::Years) ==> can_add_months(
        start,
        tenor_months(t) as int,
    )
}

/// Serial that [`Tenor::add_to`] returns for `start`.
pub open spec fn tenor_target(t: Tenor, start: i32) -> int {
    match t.unit {
        TenorUnit::Days => vstd::wrapping::i32_specs::wrapping_add(start, t.count) as int,
        TenorUnit::Weeks => vstd::wrapping::i32_specs::wrapping_add(
            start,
            vstd::wrapping::i32_specs::wrapping_mul(t.count, 7),
        ) as int,
        TenorUnit::Months | TenorUnit::Years => months_later_serial(
            start as int,
            tenor_months(t) as int,
        ),
    }
}

impl Tenor {
    /// Constructs a tenor.
    pub fn new(count: i32, unit: TenorUnit) -> (r: Self)
        ensures
            r.count == count,
            r.unit == unit,
    {
        Self { count, unit }
    }

    /// Returns `start + tenor` as a `Date`.
    ///
    /// `Days` and `Weeks` are integer-day additions. `Months` and `Years`
    /// use the "end-of-month preserved" rule: if `start` is the last day of
    /// its month, the result is the last day of the target month; if
    /// `start.day()` exceeds the days in the target month, the result is
    /// clipped to the last day of that month. No business-day calendar
    /// adjustment is applied. A month or year tenor must land on a date
    /// whose serial fits an `i32`; [`Tenor::add_to_in_range`] tells.
    pub fn add_to(self, start: Date) -> (r: Date)
        requires
            tenor_applies(self, start@ as int),
        ensures
            r@ == tenor_target(self, start@),
    {
        match self.unit {
            TenorUnit::Days => start.add_days(self.count),
            TenorUnit::Weeks => start.add_days(self.count.wrapping_mul(7)),
            TenorUnit::Months => add_months(start, self.count),
            TenorUnit::Years => add_months(start, self.count.wrapping_mul(12)),
        }
    }

    /// Returns `true` when [`Tenor::add_to`] can add this tenor to `start`:
    /// always for `Days` and `Weeks`, and for `Months` and `Years` when the
    /// target date's serial fits an `i32`.
    pub fn add_to_in_range(self, start: Date) -> (r: bool)
        ensures
            r == tenor_applies(self, start@ as int),
    {
        let months: i32 = match self.unit {
            TenorUnit::Days | TenorUnit::Weeks => return true,
            TenorUnit::Months => self.count,
            TenorUnit::Years => self.count.wrapping_mul(12),
        };
        let target = months_later_wide(start, months);
        i32::MIN as i64 <= target && target <= i32::MAX as i64
    }
}

/// Adds `months` months to `start`, preserving the end of the month.
fn add_months(start: Date, months: i32) -> (r: Date)
    requires
        can_add_months(start@ as int, months as int),
    ensures
        r@ == months_later_serial(start@ as int, months as int),
{
    Date(months_later_wide(start, months) as i32)
}

/// Euclidean quotient and remainder of `total` by 12.
fn floor_div_mod_12(total: i64) -> (r: (i64, i64))
    requires
        -3_000_000_000 <= total <= 3_000_000_000,
    ensures
        r.0 == total / 12,
        r.1 == total % 12,
        -300_000_000 <= r.0 <= 300_000_000,
        0 <= r.1 < 12,
{
    let rem: i64 = total % 12;
    let new_m0: i64 = if rem < 0 {
        rem + 12
    } else {
        rem
    };
    let dy: i64 = (total - new_m0) / 12;
    assert(new_m0 == total % 12 && dy == total / 12) by (nonlinear_arith)
        requires
            total >= 0 ==> rem == total % 12,
            total < 0 ==> rem == -((-total) % 12),
            new_m0 == (if rem < 0 { rem + 12 } else { rem as int }),
            12 * dy == total - new_m0,
    ;
    (dy, new_m0)
}

/// Serial of the date `months` months after `start`, in 64 bits.
#[verifier::spinoff_prover]
fn months_later_wide(start: Date, months: i32) -> (r: i64)
    ensures
        r == months_later_serial(start@ as int, months as int),
{
    let ghost z = start@ as int;
    let (y, m, d) = civil_from_days(start.serial());
    proof {
        lemma_date_of_serial(z);
        lemma_serial_year_bound(y as int, m as int, d as int);
        lemma_months_later_valid(z, months as int);
    }
    // Map month to 0-based for arithmetic, then back to 1-based.
    let total: i64 = m as i64 - 1 + months as i64;
    // Floor-divide / mod by 12 to handle negative tenors.
    let (dy, new_m0) = floor_div_mod_12(total);
    let new_y: i32 = (y as i64 + dy) as i32;
    let new_m: u32 = (new_m0 + 1) as u32;
    let max_d: u32 = days_in_month(new_y, new_m);
    let new_d: u32 = if d == days_in_month(y, m) {
        max_d
    } else {
        d.min(max_d)
    };
    civil_days_wide(new_y, new_m, new_d)
}

// ─── Daycount ────────────────────────────────────────────────────────────────

/// Day-count convention: how a date range becomes a year fraction
/// (ISDA 2006 §4.16 (b), (d), (e), (f), (g); ICMA Rule 251).
#[derive(Debug, Clone, Copy, PartialEq, Eq, Hash)]
pub enum Daycount {
    /// Actual / 360 — ISDA 4.16(e): `(d2 - d1) / 360`.
    Act360,
    /// Actual / 365 (Fixed) — ISDA 4.16(d): `(d2 - d1) / 365`.
    Act365F,
    /// 30/360 (Bond Basis) — ISDA 4.16(f).
    Thirty360BondBasis,
    /// 30E/360 (Eurobond) — ISDA 4.16(g).
    Thirty360E,
    /// Actual / Actual (ISDA) — ISDA 4.16(b): the period is split by
    /// calendar year, leap-year days over 366 and others over 365.
    ActActIsda,
    /// Actual / Actual (ICMA) for a single regular coupon period: the year
    /// fraction is `1 / coupons_per_year`.
    ActActIcma {
        /// Number of regular coupons per year (`1`, `2`, `4`, or `12`).
        coupons_per_year: u32,
    },
    /// Business / 252 — needs a jurisdiction-specific business-day calendar,
    /// which is out of scope: year-fraction queries are rejected.
    Business252,
}

/// A year fraction as an exact sum of integer ratios:
/// `head_days / head_basis + whole_years + tail_days / tail_basis`.
///
/// Single-ratio conventions leave `whole_years` and `tail_days` at zero.
#[derive(Debug, Clone, Copy, PartialEq, Eq)]
pub struct YearFraction {
    /// Numerator of the first ratio (days, or one coupon period).
    pub head_days: i64,
    /// Denominator of the first ratio.
    pub head_basis: u32,
    /// Whole years between the two ratios.
    pub whole_years: i64,
    /// Numerator of the last ratio.
    pub tail_days: i64,
    /// Denominator of the last ratio.
    pub tail_basis: u32,
}

/// A single ratio `days / basis`.
pub open spec fn ratio(days: int, basis: int) -> YearFraction {
    YearFraction {
        head_days: days as i64,
        head_basis: basis as u32,
        whole_years: 0,
        tail_days: 0,
        tail_basis: basis as u32,
    }
}

/// Days of a date under the 30/360 Bond Basis rule, ISDA 2006 §4.16(f):
/// a 31st of the first date counts as the 30th, and a 31st of the second
/// date counts as the 30th when the first date's (adjusted) day is 30.
pub open spec fn thirty_360_bond_basis_days(a: (int, int, int), b: (int, int, int)) -> (int, int) {
    let dd1 = if a.2 == 31 { 30 } else { a.2 };
    let dd2 = if b.2 == 31 && dd1 == 30 { 30 } else { b.2 };
    (dd1, dd2)
}

/// Days of a date under 30E/360, ISDA 2006 §4.16(g): both days are capped
/// at 30.
pub open spec fn thirty_360_e_days(a: (int, int, int), b: (int, int, int)) -> (int, int) {
    let dd1 = if a.2 <= 30 { a.2 } else { 30 };
    let dd2 = if b.2 <= 30 { b.2 } else { 30 };
    (dd1, dd2)
}

/// `360 * (Y2 - Y1) + 30 * (M2 - M1) + (D2 - D1)` with adjusted days.
pub open spec fn thirty_360_count(a: (int, int, int), b: (int, int, int), days: (int, int)) -> int {
    360 * (b.0 - a.0) + 30 * (b.1 - a.1) + (days.1 - days.0)
}

/// Message of the error returned for Act/Act ICMA without coupons.
pub open spec fn icma_reason() -> &'static str {
    "ActActIcma requires coupons_per_year > 0"
}

/// Message of the error returned for Business/252.
pub open spec fn business252_reason() -> &'static str {
    "Business252 requires a calendar; supply already-computed year fractions"
}

/// The year fraction from `d1` to `d2` under `dc`, as an exact sum of
/// ratios, or the error that the convention raises. The span `d2 - d1` is
/// taken with `i32` wrap-around.
pub open spec fn year_fraction_spec(dc: Daycount, d1: i32, d2: i32) -> Result<
    YearFraction,
    TypeError,
> {
    let span = vstd::wrapping::i32_specs::wrapping_sub(d2, d1) as int;
    let a = date_of_serial(d1 as int);
    let b = date_of_serial(d2 as int);
    if span < 0 {
        Err(TypeError::NonPositiveRange)
    } else {
        match dc {
            Daycount::Act360 => Ok(ratio(span, 360)),
            Daycount::Act365F => Ok(ratio(span, 365)),
            Daycount::Thirty360BondBasis => Ok(
                ratio(thirty_360_count(a, b, thirty_360_bond_basis_days(a, b)), 360),
            ),
            Daycount::Thirty360E => Ok(ratio(thirty_360_count(a, b, thirty_360_e_days(a, b)), 360)),
            Daycount::ActActIsda => if a.0 == b.0 {
                Ok(ratio(span, year_length(a.0)))
            } else {
                Ok(
                    YearFraction {
                        head_days: (civil_serial(a.0 + 1, 1, 1) - d1) as i64,
                        head_basis: year_length(a.0) as u32,
                        whole_years: (if b.0 - a.0 >= 2 {
                            b.0 - a.0 - 1
                        } else {
                            0
                        }) as i64,
                        tail_days: (d2 - civil_serial(b.0, 1, 1)) as i64,
                        tail_basis: year_length(b.0) as u32,
                    },
                )
            },
            Daycount::ActActIcma { coupons_per_year } => if coupons_per_year == 0 {
                Err(TypeError::InvalidTenor { reason: icma_reason() })
            } else {
                Ok(ratio(1, coupons_per_year as int))
            },
            Daycount::Business252 => Err(TypeError::InvalidTenor { reason: business252_reason() }),
        }
    }
}

impl Daycount {
    /// Returns the year fraction from `d1` to `d2` under this convention as
    /// an exact sum of integer ratios.
    ///
    /// | Variant | Fraction |
    /// |---|---|
    /// | `Act360` | `(d2 - d1) / 360` |
    /// | `Act365F` | `(d2 - d1) / 365` |
    /// | `Thirty360BondBasis` | `(360*(y2-y1) + 30*(m2-m1) + (D2-D1)) / 360`, ISDA §4.16(f) days |
    /// | `Thirty360E` | the same with both days capped at 30 |
    /// | `ActActIsda` | first partial year + whole years + last partial year |
    /// | `ActActIcma` | `1 / coupons_per_year` |
    ///
    /// # Errors
    ///
    /// - [`TypeError::NonPositiveRange`] if `d2 < d1`.
    /// - [`TypeError::InvalidTenor`] if the variant is [`Daycount::Business252`]
    ///   or if `ActActIcma` has `coupons_per_year == 0`.
    pub fn year_fraction_parts(self, d1: Date, d2: Date) -> (r: Result<YearFraction, TypeError>)
        ensures
            r == year_fraction_spec(self, d1@, d2@),
    {
        let span = d1.days_between(d2);
        if span < 0 {
            return Err(TypeError::NonPositiveRange);
        }
        match self {
            Self::Act360 => Ok(single_ratio(span as i64, 360)),
            Self::Act365F => Ok(single_ratio(span as i64, 365)),
            Self::Thirty360BondBasis => Ok(single_ratio(thirty_360_bond_basis(d1, d2), 360)),
            Self::Thirty360E => Ok(single_ratio(thirty_360_e(d1, d2), 360)),
            Self::ActActIsda => Ok(act_act_isda(d1, d2)),
            Self::ActActIcma { coupons_per_year } => {
                if coupons_per_year == 0 {
                    return Err(
                        TypeError::InvalidTenor { reason: "ActActIcma requires coupons_per_year > 0" },
                    );
                }
                Ok(single_ratio(1, coupons_per_year))
            },
            Self::Business252 => Err(
                TypeError::InvalidTenor {
                    reason: "Business252 requires a calendar; supply already-computed year fractions",
                },
            ),
        }
    }
}

/// A year fraction made of the single ratio `days / basis`.
fn single_ratio(days: i64, basis: u32) -> (r: YearFraction)
    ensures
        r == ratio(days as int, basis as int),
{
    YearFraction { head_days: days, head_basis: basis, whole_years: 0, tail_days: 0, tail_basis: basis }
}

/// 30/360 Bond Basis day count — ISDA 2006 §4.16(f): with `D1 = 31` read as
/// 30, and `D2 = 31` read as 30 when `D1` is 30 or 31,
/// `360*(Y2-Y1) + 30*(M2-M1) + (D2-D1)`, in 64 bits.
fn thirty_360_bond_basis(d1: Date, d2: Date) -> (r: i64)
    ensures
        r == thirty_360_count(
            date_of_serial(d1@ as int),
            date_of_serial(d2@ as int),
            thirty_360_bond_basis_days(date_of_serial(d1@ as int), date_of_serial(d2@ as int)),
        ),
{
    let (y1, m1, day1) = civil_from_days(d1.serial());
    let (y2, m2, day2) = civil_from_days(d2.serial());
    let mut dd1 = day1;
    let mut dd2 = day2;
    if dd1 == 31 {
        dd1 = 30;
    }
    if dd2 == 31 && dd1 == 30 {
        dd2 = 30;
    }
    let dy = y2 as i64 - y1 as i64;
    let dm = m2 as i64 - m1 as i64;
    let dd = dd2 as i64 - dd1 as i64;
    360 * dy + 30 * dm + dd
}

/// 30E/360 day count — ISDA 2006 §4.16(g): both days capped at 30, then
/// `360*(Y2-Y1) + 30*(M2-M1) + (D2-D1)`, in 64 bits.
fn thirty_360_e(d1: Date, d2: Date) -> (r: i64)
    ensures
        r == thirty_360_count(
            date_of_serial(d1@ as int),
            date_of_serial(d2@ as int),
            thirty_360_e_days(date_of_serial(d1@ as int), date_of_serial(d2@ as int)),
        ),
{
    let (y1, m1, day1) = civil_from_days(d1.serial());
    let (y2, m2, day2) = civil_from_days(d2.serial());
    let dd1 = day1.min(30);
    let dd2 = day2.min(30);
    let dy = y2 as i64 - y1 as i64;
    let dm = m2 as i64 - m1 as i64;
    let dd = dd2 as i64 - dd1 as i64;
    360 * dy + 30 * dm + dd
}

/// Number of days in `year`.
fn days_in_year(year: i32) -> (r: u32)
    ensures
        r == year_length(year as int),
{
    if is_leap_year(year) {
        366
    } else {
        365
    }
}

/// Actual / Actual (ISDA) — ISDA 2006 §4.16(b): splits the date range at
/// calendar-year boundaries; the first and last partial years count their
/// days over their own year length, the years in between count one each.
fn act_act_isda(d1: Date, d2: Date) -> (r: YearFraction)
    requires
        vstd::wrapping::i32_specs::wrapping_sub(d2@, d1@) >= 0,
    ensures
        year_fraction_spec(Daycount::ActActIsda, d1@, d2@) == Ok::<YearFraction, TypeError>(r),
{
    proof {
        lemma_date_of_serial(d1@ as int);
        lemma_date_of_serial(d2@ as int);
    }
    let y1 = d1.year();
    let y2 = d2.year();
    if y1 == y2 {
        return single_ratio(d1.days_between(d2) as i64, days_in_year(y1));
    }
    proof {
        let a = date_of_serial(d1@ as int);
        let b = date_of_serial(d2@ as int);
        lemma_serial_year_bound(a.0, a.1, a.2);
        lemma_serial_year_bound(b.0, b.1, b.2);
    }
    // First partial year: d1 .. (y1 + 1)-01-01.
    let first = civil_days_wide(y1 + 1, 1, 1) - d1.serial() as i64;
    // Last partial year: y2-01-01 .. d2.
    let last = d2.serial() as i64 - civil_days_wide(y2, 1, 1);
    // Whole years between y1+1 and y2-1 inclusive each contribute 1.
    let middle: i64 = if y2 - y1 >= 2 {
        (y2 - y1 - 1) as i64
    } else {
        0
    };
    YearFraction {
        head_days: first,
        head_basis: days_in_year(y1),
        whole_years: middle,
        tail_days: last,
        tail_basis: days_in_year(y2),
    }
}

// ─── Compounding ─────────────────────────────────────────────────────────────

/// Compounding convention for converting between discount factors and zero
/// rates over a time `t > 0` at a zero rate `r`:
///
/// | Variant | Discount factor | Inverse |
/// |---|---|---|
/// | `Simple` | `D = 1 / (1 + r*t)` | `r = (1/D - 1) / t` |
/// | `Continuous` | `D = exp(-r*t)` | `r = -ln(D) / t` |
/// | `Periodic { n }` | `D = (1 + r/n)^(-n*t)` | `r = n * (D^(-1/(n*t)) - 1)` |
#[derive(Debug, Clone, Copy, PartialEq, Eq, Hash)]
pub enum Compounding {
    /// Simple interest: `D = 1 / (1 + r * t)`.
    Simple,
    /// Continuously compounded: `D = exp(-r * t)`.
    Continuous,
    /// Periodic compounding with `n` periods per year.
    Periodic {
        /// Number of compounding periods per year (`1` annual, `2`
        /// semi-annual, `4` quarterly, `12` monthly).
        periods_per_year: u32,
    },
}

// ─── Frequency ───────────────────────────────────────────────────────────────

/// A payment frequency (used by swap legs and ICMA day-counts).
#[derive(Debug, Clone, Copy, PartialEq, Eq, Hash)]
pub enum Frequency {
    /// One payment per year.
    Annual,
    /// Two payments per year.
    SemiAnnual,
    /// Four payments per year.
    Quarterly,
    /// Twelve payments per year.
    Monthly,
    /// A single payment at maturity.
    OnceAtMaturity,
}

impl Frequency {
    /// Returns the number of payments per year, or `0` for
    /// [`Frequency::OnceAtMaturity`].
    pub fn periods_per_year(self) -> (r: u32)
        ensures
            r == match self {
                Frequency::Annual => 1u32,
                Frequency::SemiAnnual => 2u32,
                Frequency::Quarterly => 4u32,
                Frequency::Monthly => 12u32,
                Frequency::OnceAtMaturity => 0u32,
            },
    {
        match self {
            Self::Annual => 1,
            Self::SemiAnnual => 2,
            Self::Quarterly => 4,
            Self::Monthly => 12,
            Self::OnceAtMaturity => 0,
        }
    }
}

// ─── Laws ────────────────────────────────────────────────────────────────────

/// A date is determined by its serial: two dates with the same serial are
/// equal.
pub proof fn lemma_date_view_injective(a: Date, b: Date)
    requires
        a@ == b@,
    ensures
        a == b,
{
}

/// The date that a month shift lands on has the calendar fields of the
/// shifted `(year, month, day)`: when `can_add_months(z, months)`, the result
/// of [`Tenor::add_to`] reads back as [`months_later`].
pub proof fn lemma_months_later_fields(z: int, months: int)
    ensures
        date_of_serial(months_later_serial(z, months)) == months_later(z, months),
{
    lemma_months_later_valid(z, months);
    let t = months_later(z, months);
    lemma_ymd_round_trip(t.0, t.1, t.2);
}

/// Adding `n` days and measuring the distance back gives `n` again:
/// `a.days_between(a.add_days(n)) == n` for every date and every `n`.
pub proof fn lemma_days_between_add_days(a: i32, n: i32)
    ensures
        vstd::wrapping::i32_specs::wrapping_sub(
            vstd::wrapping::i32_specs::wrapping_add(a, n),
            a,
        ) == n,
{
}

/// Adding the distance between two dates to the first gives the second:
/// `a.add_days(a.days_between(b)) == b` for every pair of dates.
pub proof fn lemma_add_days_days_between(a: i32, b: i32)
    ensures
        vstd::wrapping::i32_specs::wrapping_add(a, vstd::wrapping::i32_specs::wrapping_sub(b, a))
            == b,
{
}

/// Round trip from calendar fields: the fields of the date built from a valid
/// `(y, m, d)` are `(y, m, d)`.
pub proof fn lemma_fields_of_from_ymd(y: int, m: int, d: int)
    requires
        is_valid_ymd(y, m, d),
    ensures
        serial_year(civil_serial(y, m, d)) == y,
        serial_month(civil_serial(y, m, d)) == m,
        serial_day(civil_serial(y, m, d)) == d,
{
    lemma_ymd_round_trip(y, m, d);
}

/// Round trip from the serial: the calendar fields of any serial form a valid
/// date that [`Date::from_ymd`] accepts and maps back to the same serial.
pub proof fn lemma_from_ymd_of_fields(z: i32)
    ensures
        is_valid_ymd(serial_year(z as int), serial_month(z as int), serial_day(z as int)),
        serial_fits_i32(serial_year(z as int), serial_month(z as int), serial_day(z as int)),
        civil_serial(serial_year(z as int), serial_month(z as int), serial_day(z as int)) == z,
{
    lemma_date_of_serial(z as int);
}

/// Dates are ordered as their serials: of two valid dates, one comes earlier
/// in `(year, month, day)` order exactly when its serial is smaller.
pub proof fn lemma_from_ymd_order(a: (int, int, int), b: (int, int, int))
    requires
        is_valid_ymd(a.0, a.1, a.2),
        is_valid_ymd(b.0, b.1, b.2),
    ensures
        ymd_lt(a, b) <==> civil_serial(a.0, a.1, a.2) < civil_serial(b.0, b.1, b.2),
{
    lemma_serial_order(a, b);
}

/// The target of a month shift is a valid date in the month `months` after
/// the start month; it is the last day of that month when the start is the
/// last day of its month, and otherwise the start day, clipped to the
/// target month.
pub proof fn lemma_months_later_valid(z: int, months: int)
    ensures
        ({
            let s = date_of_serial(z);
            let t = months_later(z, months);
            &&& is_valid_ymd(t.0, t.1, t.2)
            &&& 12 * t.0 + t.1 == 12 * s.0 + s.1 + months
            &&& (s.2 == month_length(s.0, s.1) ==> t.2 == month_length(t.0, t.1))
            &&& (s.2 < month_length(s.0, s.1) && s.2 <= month_length(t.0, t.1) ==> t.2 == s.2)
            &&& (s.2 > month_length(t.0, t.1) ==> t.2 == month_length(t.0, t.1))
        }),
{
    lemma_date_of_serial(z);
}

/// Shifting by zero months is the identity.
pub proof fn lemma_zero_months(z: int)
    ensures
        months_later(z, 0) == date_of_serial(z),
        months_later_serial(z, 0) == z,
{
    lemma_date_of_serial(z);
}

/// A tenor of `n` years lands where a tenor of `12 * n` months does.
pub proof fn lemma_years_are_twelve_months(count: i32, start: i32)
    requires
        i32::MIN <= 12 * count <= i32::MAX,
    ensures
        tenor_target(Tenor { count, unit: TenorUnit::Years }, start) == tenor_target(
            Tenor { count: (12 * count) as i32, unit: TenorUnit::Months },
            start,
        ),
{
    assert(vstd::wrapping::i32_specs::wrapping_mul(count, 12) == 12 * count) by (nonlinear_arith)
        requires
            i32::MIN <= 12 * count <= i32::MAX,
            vstd::wrapping::i32_specs::wrapping_mul(count, 12)
                == vstd::wrapping::i32_specs::signed_crop(count * 12),
    ;
}

/// The calendar fields of an `i32` serial: a valid date with that serial,
/// within six million years of the epoch.
proof fn lemma_fields_of_serial(z: i32)
    ensures
        is_valid_ymd(date_of_serial(z as int).0, date_of_serial(z as int).1, date_of_serial(z as int).2),
        civil_serial(date_of_serial(z as int).0, date_of_serial(z as int).1, date_of_serial(z as int).2) == z,
        -6_000_000 <= date_of_serial(z as int).0 <= 6_000_000,
{
    lemma_date_of_serial(z as int);
    let t = date_of_serial(z as int);
    lemma_serial_year_bound(t.0, t.1, t.2);
}

/// Act/Act ISDA splits `[d1, d2)` at calendar-year boundaries: the first
/// ratio counts the days from `d1` to the next New Year's Day over the length
/// of `d1`'s year, every calendar year lying strictly between the two dates'
/// years counts one, and the last ratio counts the days from the New Year's
/// Day of `d2`'s year to `d2` over that year's length. Together the parts
/// cover every day of the range exactly once.
pub proof fn lemma_act_act_isda_split(d1: i32, d2: i32)
    requires
        d1 <= d2,
        d2 - d1 <= i32::MAX,
    ensures
        ({
            let a = date_of_serial(d1 as int);
            let b = date_of_serial(d2 as int);
            match year_fraction_spec(Daycount::ActActIsda, d1, d2) {
                Ok(f) => {
                    &&& a.0 <= b.0
                    &&& f.head_basis == year_length(a.0)
                    &&& f.whole_years == (if a.0 < b.0 { b.0 - a.0 - 1 } else { 0 })
                    &&& (a.0 == b.0 ==> f.head_days == d2 - d1 && f.tail_days == 0)
                    &&& (a.0 < b.0 ==> {
                        &&& f.tail_basis == year_length(b.0)
                        &&& civil_serial(a.0 + 1, 1, 1) == d1 + f.head_days
                        &&& 0 < f.head_days <= year_length(a.0)
                        &&& 0 <= f.tail_days < year_length(b.0)
                        &&& f.head_days + days_in_years(a.0 + 1, b.0) + f.tail_days == d2 - d1
                        &&& f.whole_years == b.0 - (a.0 + 1)
                    })
                },
                Err(_) => false,
            }
        }),
{
    let a = date_of_serial(d1 as int);
    let b = date_of_serial(d2 as int);
    lemma_fields_of_serial(d1);
    lemma_fields_of_serial(d2);
    lemma_serial_order(b, a);
    assert(vstd::wrapping::i32_specs::wrapping_sub(d2, d1) == d2 - d1);
    if a.0 < b.0 {
        lemma_day_of_year_bound(a.0, a.1, a.2);
        lemma_day_of_year_bound(b.0, b.1, b.2);
        lemma_days_before_next_year(a.0);
        lemma_days_before_month_closed(a.0 + 1, 1);
        lemma_days_before_month_closed(b.0, 1);
        lemma_days_in_years(a.0 + 1, b.0);
        let head = civil_serial(a.0 + 1, 1, 1) - d1;
        let tail = d2 - civil_serial(b.0, 1, 1);
        assert(0 < head <= 366 && 0 <= tail < 366);
        let f = YearFraction {
            head_days: head as i64,
            head_basis: year_length(a.0) as u32,
            whole_years: (b.0 - a.0 - 1) as i64,
            tail_days: tail as i64,
            tail_basis: year_length(b.0) as u32,
        };
        assert(year_fraction_spec(Daycount::ActActIsda, d1, d2) == Ok::<YearFraction, TypeError>(f));
    } else {
        assert(year_fraction_spec(Daycount::ActActIsda, d1, d2) == Ok::<YearFraction, TypeError>(
            ratio(d2 - d1, year_length(a.0)),
        ));
    }
}

/// 30E/360 gives every date a day index of its own, `360 * Y + 30 * M +
/// min(D, 30)`, with the day capped at 30 whatever the other date is, and
/// counts the difference of the two indices over 360.
pub proof fn lemma_thirty_360_e_count(d1: i32, d2: i32)
    requires
        d1 <= d2,
        d2 - d1 <= i32::MAX,
    ensures
        ({
            let a = date_of_serial(d1 as int);
            let b = date_of_serial(d2 as int);
            let cap1 = if a.2 < 30 { a.2 } else { 30 };
            let cap2 = if b.2 < 30 { b.2 } else { 30 };
            match year_fraction_spec(Daycount::Thirty360E, d1, d2) {
                Ok(f) => f.head_days == (360 * b.0 + 30 * b.1 + cap2) - (360 * a.0 + 30 * a.1 + cap1)
                    && f.head_basis == 360 && f.whole_years == 0 && f.tail_days == 0,
                Err(_) => false,
            }
        }),
{
    let a = date_of_serial(d1 as int);
    let b = date_of_serial(d2 as int);
    lemma_fields_of_serial(d1);
    lemma_fields_of_serial(d2);
    assert(vstd::wrapping::i32_specs::wrapping_sub(d2, d1) == d2 - d1);
    let c = thirty_360_count(a, b, thirty_360_e_days(a, b));
    assert(-5_000_000_000 < c < 5_000_000_000);
    assert(year_fraction_spec(Daycount::Thirty360E, d1, d2) == Ok::<YearFraction, TypeError>(
        ratio(c, 360),
    ));
}

/// Under 30E/360 a 31st counts as the 30th of its month: moving the start
/// back from a 31st to the 30th before it leaves the year fraction unchanged.
pub proof fn lemma_thirty_360_e_start_31st(d1: i32, d2: i32)
    requires
        d1 <= d2,
        d2 - d1 < i32::MAX,
        date_of_serial(d1 as int).2 == 31,
    ensures
        year_fraction_spec(Daycount::Thirty360E, (d1 - 1) as i32, d2) == year_fraction_spec(
            Daycount::Thirty360E,
            d1,
            d2,
        ),
{
    lemma_date_of_serial(d1 as int);
    let a = date_of_serial(d1 as int);
    assert(d1 > i32::MIN) by {
        lemma_serial_year_bound(a.0, a.1, a.2);
        lemma_day_of_year_bound(a.0, a.1, a.2);
    }
    lemma_next_day(a.0, a.1, 30);
    lemma_ymd_round_trip(a.0, a.1, 30);
    lemma_thirty_360_e_count((d1 - 1) as i32, d2);
    lemma_thirty_360_e_count(d1, d2);
}

/// Under 30E/360 a 31st counts as the 30th of its month: moving the end back
/// from a 31st to the 30th before it leaves the year fraction unchanged.
pub proof fn lemma_thirty_360_e_end_31st(d1: i32, d2: i32)
    requires
        d1 < d2,
        d2 - d1 <= i32::MAX,
        date_of_serial(d2 as int).2 == 31,
    ensures
        year_fraction_spec(Daycount::Thirty360E, d1, (d2 - 1) as i32) == year_fraction_spec(
            Daycount::Thirty360E,
            d1,
            d2,
        ),
{
    lemma_date_of_serial(d2 as int);
    let b = date_of_serial(d2 as int);
    lemma_next_day(b.0, b.1, 30);
    lemma_ymd_round_trip(b.0, b.1, 30);
    lemma_thirty_360_e_count(d1, (d2 - 1) as i32);
    lemma_thirty_360_e_count(d1, d2);
}

/// The actual-day conventions count every calendar day of `[d1, d2)`:
/// Act/360 over 360, Act/365F over 365.
pub proof fn lemma_actual_day_counts(d1: i32, d2: i32)
    requires
        d1 <= d2,
        d2 - d1 <= i32::MAX,
    ensures
        year_fraction_spec(Daycount::Act360, d1, d2) == Ok::<YearFraction, TypeError>(
            YearFraction {
                head_days: (d2 - d1) as i64,
                head_basis: 360,
                whole_years: 0,
                tail_days: 0,
                tail_basis: 360,
            },
        ),
        year_fraction_spec(Daycount::Act365F, d1, d2) == Ok::<YearFraction, TypeError>(
            YearFraction {
                head_days: (d2 - d1) as i64,
                head_basis: 365,
                whole_years: 0,
                tail_days: 0,
                tail_basis: 365,
            },
        ),
{
    assert(vstd::wrapping::i32_specs::wrapping_sub(d2, d1) == d2 - d1);
}

/// The 30/360 Bond Basis and 30E/360 counts, from the calendar fields of the
/// two dates.
proof fn lemma_thirty_360_values(d1: i32, d2: i32)
    requires
        d1 <= d2,
        d2 - d1 <= i32::MAX,
    ensures
        ({
            let a = date_of_serial(d1 as int);
            let b = date_of_serial(d2 as int);
            &&& year_fraction_spec(Daycount::Thirty360BondBasis, d1, d2) == Ok::<
                YearFraction,
                TypeError,
            >(ratio(thirty_360_count(a, b, thirty_360_bond_basis_days(a, b)), 360))
            &&& year_fraction_spec(Daycount::Thirty360E, d1, d2) == Ok::<YearFraction, TypeError>(
                ratio(thirty_360_count(a, b, thirty_360_e_days(a, b)), 360),
            )
            &&& -5_000_000_000 < thirty_360_count(a, b, thirty_360_bond_basis_days(a, b))
                < 5_000_000_000
            &&& -5_000_000_000 < thirty_360_count(a, b, thirty_360_e_days(a, b)) < 5_000_000_000
        }),
{
    let a = date_of_serial(d1 as int);
    let b = date_of_serial(d2 as int);
    lemma_fields_of_serial(d1);
    lemma_fields_of_serial(d2);
    assert(vstd::wrapping::i32_specs::wrapping_sub(d2, d1) == d2 - d1);
}

/// 30/360 Bond Basis and 30E/360 agree when neither date falls on a 31st.
pub proof fn lemma_bond_basis_without_31st(d1: i32, d2: i32)
    requires
        d1 <= d2,
        d2 - d1 <= i32::MAX,
        date_of_serial(d1 as int).2 != 31,
        date_of_serial(d2 as int).2 != 31,
    ensures
        year_fraction_spec(Daycount::Thirty360BondBasis, d1, d2) == year_fraction_spec(
            Daycount::Thirty360E,
            d1,
            d2,
        ),
{
    lemma_fields_of_serial(d1);
    lemma_fields_of_serial(d2);
    lemma_thirty_360_values(d1, d2);
    let a = date_of_serial(d1 as int);
    let b = date_of_serial(d2 as int);
    assert(thirty_360_bond_basis_days(a, b) == thirty_360_e_days(a, b));
}

/// Under 30/360 Bond Basis a start on the 31st counts as the 30th: moving
/// the start back from a 31st to the 30th before it leaves the year fraction
/// unchanged.
pub proof fn lemma_bond_basis_start_31st(d1: i32, d2: i32)
    requires
        d1 <= d2,
        d2 - d1 < i32::MAX,
        date_of_serial(d1 as int).2 == 31,
    ensures
        year_fraction_spec(Daycount::Thirty360BondBasis, (d1 - 1) as i32, d2)
            == year_fraction_spec(Daycount::Thirty360BondBasis, d1, d2),
{
    lemma_date_of_serial(d1 as int);
    let a = date_of_serial(d1 as int);
    assert(d1 > i32::MIN) by {
        lemma_serial_year_bound(a.0, a.1, a.2);
        lemma_day_of_year_bound(a.0, a.1, a.2);
    }
    lemma_next_day(a.0, a.1, 30);
    lemma_ymd_round_trip(a.0, a.1, 30);
    let a0 = date_of_serial((d1 - 1) as int);
    assert(a0 == (a.0, a.1, 30int));
    lemma_thirty_360_values((d1 - 1) as i32, d2);
    lemma_thirty_360_values(d1, d2);
    let b = date_of_serial(d2 as int);
    assert(thirty_360_bond_basis_days(a0, b) == thirty_360_bond_basis_days(a, b));
}

/// Under 30/360 Bond Basis an end on the 31st counts as the 30th when the
/// start falls on the 30th or 31st of its month, and as a full 31st day
/// otherwise (one day more than the 30th before it).
pub proof fn lemma_bond_basis_end_31st(d1: i32, d2: i32)
    requires
        d1 < d2,
        d2 - d1 <= i32::MAX,
        date_of_serial(d2 as int).2 == 31,
    ensures
        date_of_serial(d1 as int).2 >= 30 ==> year_fraction_spec(
            Daycount::Thirty360BondBasis,
            d1,
            (d2 - 1) as i32,
        ) == year_fraction_spec(Daycount::Thirty360BondBasis, d1, d2),
        date_of_serial(d1 as int).2 < 30 ==> match (
            year_fraction_spec(Daycount::Thirty360BondBasis, d1, d2),
            year_fraction_spec(Daycount::Thirty360BondBasis, d1, (d2 - 1) as i32),
        ) {
            (Ok(f), Ok(g)) => f.head_days == g.head_days + 1 && f.head_basis == 360
                && g.head_basis == 360,
            _ => false,
        },
{
    let b = date_of_serial(d2 as int);
    lemma_fields_of_serial(d2);
    lemma_fields_of_serial(d1);
    lemma_next_day(b.0, b.1, 30);
    lemma_ymd_round_trip(b.0, b.1, 30);
    let b0 = date_of_serial((d2 - 1) as int);
    assert(b0 == (b.0, b.1, 30int));
    lemma_thirty_360_values(d1, (d2 - 1) as i32);
    lemma_thirty_360_values(d1, d2);
    let a = date_of_serial(d1 as int);
    if a.2 >= 30 {
        assert(thirty_360_bond_basis_days(a, b0) == thirty_360_bond_basis_days(a, b));
    } else {
        assert(thirty_360_bond_basis_days(a, b0).1 + 1 == thirty_360_bond_basis_days(a, b).1);
    }
}

/// A day tenor moves the date by exactly its count, backwards for a negative
/// count (`start.days_between(target) == count`), and a week tenor by seven
/// days per week, both with `i32` wrap-around.
pub proof fn lemma_day_tenors_move_by_count(count: i32, start: i32)
    ensures
        vstd::wrapping::i32_specs::wrapping_sub(
            tenor_target(Tenor { count, unit: TenorUnit::Days }, start) as i32,
            start,
        ) == count,
        vstd::wrapping::i32_specs::wrapping_sub(
            tenor_target(Tenor { count, unit: TenorUnit::Weeks }, start) as i32,
            start,
        ) == vstd::wrapping::i32_specs::wrapping_mul(count, 7),
{
    lemma_days_between_add_days(start, count);
    lemma_days_between_add_days(start, vstd::wrapping::i32_specs::wrapping_mul(count, 7));
}

/// A month tenor lands `count` months after the start month (backwards for a
/// negative count), on the last day of the month when the start is the last
/// day of its month, and otherwise on the start day clipped to the target
/// month.
pub proof fn lemma_month_tenor_lands(count: i32, start: i32)
    ensures
        ({
            let s = date_of_serial(start as int);
            let t = date_of_serial(tenor_target(Tenor { count, unit: TenorUnit::Months }, start));
            &&& is_valid_ymd(t.0, t.1, t.2)
            &&& 12 * t.0 + t.1 == 12 * s.0 + s.1 + count
            &&& (s.2 == month_length(s.0, s.1) ==> t.2 == month_length(t.0, t.1))
            &&& (s.2 < month_length(s.0, s.1) && s.2 <= month_length(t.0, t.1) ==> t.2 == s.2)
            &&& (s.2 > month_length(t.0, t.1) ==> t.2 == month_length(t.0, t.1))
        }),
{
    lemma_months_later_fields(start as int, count as int);
    lemma_months_later_valid(start as int, count as int);
}

// ─── BusinessDayConvention ───────────────────────────────────────────────────

/// Business-day-adjustment convention.
///
/// Names only: holiday calendars are jurisdiction-specific and out of scope.
/// The crate accepts already-adjusted dates; callers compose with their own
/// calendar and apply one of the conventions below.
#[derive(Debug, Clone, Copy, PartialEq, Eq, Hash)]
pub enum BusinessDayConvention {
    /// No adjustment.
    Unadjusted,
    /// Roll forward to the next business day.
    Following,
    /// Roll forward unless the next business day is in a new month, in which
    /// case roll backwards.
    ModifiedFollowing,
    /// Roll backward to the previous business day.
    Preceding,
    /// Roll backwards unless the previous business day is in a previous
    /// month, in which case roll forwards.
    ModifiedPreceding,
}

} // verus!
