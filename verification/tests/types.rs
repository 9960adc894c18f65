use regit_curves::errors::TypeError;
use regit_curves::types::{
    BusinessDayConvention, Date, Daycount, Frequency, Tenor, TenorUnit, YearFraction,
};

fn d(y: i32, m: u32, day: u32) -> Date {
    Date::from_ymd(y, m, day).unwrap()
}

/// Evaluates an exact year fraction the way floating-point callers do.
fn to_f64(p: YearFraction) -> f64 {
    p.head_days as f64 / f64::from(p.head_basis)
        + p.whole_years as f64
        + p.tail_days as f64 / f64::from(p.tail_basis)
}

fn year_fraction(dc: Daycount, d1: Date, d2: Date) -> Result<f64, TypeError> {
    dc.year_fraction_parts(d1, d2).map(to_f64)
}

// ─── Date ────────────────────────────────────────────────────────────

#[test]
fn date_epoch_is_serial_zero() {
    let d = Date::from_ymd(1970, 1, 1).unwrap();
    assert_eq!(d.serial(), 0);
}

#[test]
fn date_from_serial_roundtrip() {
    let d = Date::from_serial(0);
    assert_eq!((d.year(), d.month(), d.day()), (1970, 1, 1));
}

#[test]
fn date_y2k() {
    let d = Date::from_ymd(2000, 1, 1).unwrap();
    assert_eq!(d.serial(), 10_957);
    assert_eq!((d.year(), d.month(), d.day()), (2000, 1, 1));
}

#[test]
fn date_leap_year_feb_29_2000() {
    let d = Date::from_ymd(2000, 2, 29).unwrap();
    assert_eq!((d.year(), d.month(), d.day()), (2000, 2, 29));
}

#[test]
fn date_non_leap_feb_29_2100_rejected() {
    let err = Date::from_ymd(2100, 2, 29).unwrap_err();
    assert!(matches!(err, TypeError::InvalidDate { .. }));
}

#[test]
fn date_non_leap_feb_29_1900_rejected() {
    let err = Date::from_ymd(1900, 2, 29).unwrap_err();
    assert!(matches!(err, TypeError::InvalidDate { .. }));
}

#[test]
fn date_leap_year_2000_has_366_days() {
    let jan = Date::from_ymd(2000, 1, 1).unwrap();
    let dec = Date::from_ymd(2000, 12, 31).unwrap();
    assert_eq!(jan.days_between(dec), 365);
}

#[test]
fn date_year_2100_has_365_days() {
    let jan = Date::from_ymd(2100, 1, 1).unwrap();
    let dec = Date::from_ymd(2100, 12, 31).unwrap();
    assert_eq!(jan.days_between(dec), 364);
}

#[test]
fn date_year_1900_has_365_days() {
    let jan = Date::from_ymd(1900, 1, 1).unwrap();
    let dec = Date::from_ymd(1900, 12, 31).unwrap();
    assert_eq!(jan.days_between(dec), 364);
}

#[test]
fn date_year_2400_is_leap() {
    assert!(Date::from_ymd(2400, 2, 29).is_ok());
}

#[test]
fn date_invalid_month_rejected() {
    assert!(Date::from_ymd(2024, 0, 15).is_err());
    assert!(Date::from_ymd(2024, 13, 15).is_err());
}

#[test]
fn date_invalid_day_rejected() {
    assert!(Date::from_ymd(2024, 1, 0).is_err());
    assert!(Date::from_ymd(2024, 4, 31).is_err());
    assert!(Date::from_ymd(2023, 2, 29).is_err());
}

#[test]
fn date_roundtrip_representative_set() {
    let dates: [(i32, u32, u32); 32] = [
        (1900, 1, 1),
        (1900, 2, 28),
        (1900, 12, 31),
        (1904, 2, 29),
        (1969, 12, 31),
        (1970, 1, 1),
        (1970, 1, 2),
        (1972, 2, 29),
        (1999, 12, 31),
        (2000, 1, 1),
        (2000, 2, 29),
        (2000, 12, 31),
        (2001, 1, 1),
        (2004, 2, 29),
        (2008, 2, 29),
        (2012, 2, 29),
        (2016, 2, 29),
        (2019, 12, 31),
        (2020, 1, 1),
        (2020, 2, 29),
        (2020, 12, 31),
        (2023, 12, 31),
        (2024, 1, 1),
        (2024, 2, 29),
        (2024, 7, 4),
        (2024, 12, 31),
        (2100, 1, 1),
        (2100, 2, 28),
        (2100, 12, 31),
        (2200, 6, 15),
        (2400, 2, 29),
        (2500, 12, 31),
    ];
    for &(y, m, d) in &dates {
        let date = Date::from_ymd(y, m, d).unwrap();
        assert_eq!(date.year(), y, "year mismatch for {y}-{m}-{d}");
        assert_eq!(date.month(), m, "month mismatch for {y}-{m}-{d}");
        assert_eq!(date.day(), d, "day mismatch for {y}-{m}-{d}");
    }
}

#[test]
fn date_roundtrip_serial_iter() {
    let start = Date::from_ymd(2024, 1, 1).unwrap();
    for offset in 0..400 {
        let d = start.add_days(offset);
        let recon = Date::from_ymd(d.year(), d.month(), d.day()).unwrap();
        assert_eq!(d, recon);
    }
}

#[test]
fn date_add_days_signed() {
    let d = Date::from_ymd(2024, 3, 1).unwrap();
    let prev = d.add_days(-1);
    assert_eq!((prev.year(), prev.month(), prev.day()), (2024, 2, 29));
}

#[test]
fn date_days_between_signed() {
    let a = Date::from_ymd(2024, 1, 1).unwrap();
    let b = Date::from_ymd(2024, 1, 11).unwrap();
    assert_eq!(a.days_between(b), 10);
    assert_eq!(b.days_between(a), -10);
}

#[test]
fn date_ordering() {
    let a = Date::from_ymd(2024, 1, 1).unwrap();
    let b = Date::from_ymd(2024, 6, 1).unwrap();
    assert!(a < b);
    assert!(b > a);
}

#[test]
fn date_copy_eq_hash() {
    let d = Date::from_ymd(2024, 1, 1).unwrap();
    let copy = d;
    assert_eq!(d, copy);
    let mut set = std::collections::HashSet::new();
    set.insert(d);
    assert!(set.contains(&copy));
}

// ─── Tenor ───────────────────────────────────────────────────────────

#[test]
fn tenor_days() {
    let t = Tenor::new(7, TenorUnit::Days);
    let start = Date::from_ymd(2024, 1, 1).unwrap();
    let end = t.add_to(start);
    assert_eq!((end.year(), end.month(), end.day()), (2024, 1, 8));
}

#[test]
fn tenor_weeks() {
    let t = Tenor::new(2, TenorUnit::Weeks);
    let start = Date::from_ymd(2024, 1, 1).unwrap();
    let end = t.add_to(start);
    assert_eq!((end.year(), end.month(), end.day()), (2024, 1, 15));
}

#[test]
fn tenor_months_end_of_month() {
    let t = Tenor::new(1, TenorUnit::Months);
    let start = Date::from_ymd(2024, 1, 31).unwrap();
    let end = t.add_to(start);
    assert_eq!((end.year(), end.month(), end.day()), (2024, 2, 29));
}

#[test]
fn tenor_months_non_leap() {
    let t = Tenor::new(1, TenorUnit::Months);
    let start = Date::from_ymd(2023, 1, 31).unwrap();
    let end = t.add_to(start);
    assert_eq!((end.year(), end.month(), end.day()), (2023, 2, 28));
}

#[test]
fn tenor_months_cross_year_back() {
    let t = Tenor::new(-1, TenorUnit::Months);
    let start = Date::from_ymd(2024, 1, 15).unwrap();
    let end = t.add_to(start);
    assert_eq!((end.year(), end.month(), end.day()), (2023, 12, 15));
}

#[test]
fn tenor_years() {
    let t = Tenor::new(5, TenorUnit::Years);
    let start = Date::from_ymd(2020, 6, 15).unwrap();
    let end = t.add_to(start);
    assert_eq!((end.year(), end.month(), end.day()), (2025, 6, 15));
}

#[test]
fn tenor_years_leap_day() {
    let t = Tenor::new(1, TenorUnit::Years);
    let start = Date::from_ymd(2024, 2, 29).unwrap();
    let end = t.add_to(start);
    assert_eq!((end.year(), end.month(), end.day()), (2025, 2, 28));
}

#[test]
fn tenor_constructor_fields() {
    let t = Tenor::new(3, TenorUnit::Months);
    assert_eq!(t.count, 3);
    assert_eq!(t.unit, TenorUnit::Months);
}

#[test]
fn tenor_unit_copy_eq() {
    let u = TenorUnit::Days;
    let copy = u;
    assert_eq!(u, copy);
}

// ─── Daycount ────────────────────────────────────────────────────────

#[test]
fn daycount_act360_isda_example() {
    let d1 = Date::from_ymd(2003, 11, 1).unwrap();
    let d2 = Date::from_ymd(2004, 5, 1).unwrap();
    let tau = year_fraction(Daycount::Act360, d1, d2).unwrap();
    assert!((tau - 182.0_f64 / 360.0).abs() < 1e-15);
}

#[test]
fn daycount_act365f_example() {
    let d1 = Date::from_ymd(2024, 1, 1).unwrap();
    let d2 = Date::from_ymd(2024, 7, 1).unwrap();
    let tau = year_fraction(Daycount::Act365F, d1, d2).unwrap();
    assert!((tau - 182.0_f64 / 365.0).abs() < 1e-15);
}

#[test]
fn daycount_act_act_isda_single_year() {
    let d1 = Date::from_ymd(2024, 1, 1).unwrap();
    let d2 = Date::from_ymd(2024, 7, 1).unwrap();
    let tau = year_fraction(Daycount::ActActIsda, d1, d2).unwrap();
    assert!((tau - 182.0_f64 / 366.0).abs() < 1e-15);
}

#[test]
fn daycount_act_act_isda_single_year_non_leap() {
    let d1 = Date::from_ymd(2023, 1, 1).unwrap();
    let d2 = Date::from_ymd(2023, 7, 1).unwrap();
    let tau = year_fraction(Daycount::ActActIsda, d1, d2).unwrap();
    assert!((tau - 181.0_f64 / 365.0).abs() < 1e-15);
}

#[test]
fn daycount_act_act_isda_cross_year() {
    let d1 = Date::from_ymd(2003, 11, 1).unwrap();
    let d2 = Date::from_ymd(2004, 5, 1).unwrap();
    let tau = year_fraction(Daycount::ActActIsda, d1, d2).unwrap();
    let expected = 61.0_f64 / 365.0 + 121.0_f64 / 366.0;
    assert!((tau - expected).abs() < 1e-15);
}

#[test]
fn daycount_act_act_isda_multi_year() {
    let d1 = Date::from_ymd(2003, 6, 15).unwrap();
    let d2 = Date::from_ymd(2007, 6, 15).unwrap();
    let tau = year_fraction(Daycount::ActActIsda, d1, d2).unwrap();
    let first = f64::from(d1.days_between(Date::from_ymd(2004, 1, 1).unwrap())) / 365.0;
    let last = f64::from(Date::from_ymd(2007, 1, 1).unwrap().days_between(d2)) / 365.0;
    let expected = first + 3.0 + last;
    assert!((tau - expected).abs() < 1e-14);
}

#[test]
fn daycount_thirty_360_e() {
    let d1 = Date::from_ymd(2003, 11, 1).unwrap();
    let d2 = Date::from_ymd(2004, 5, 1).unwrap();
    let tau = year_fraction(Daycount::Thirty360E, d1, d2).unwrap();
    assert!((tau - 180.0_f64 / 360.0).abs() < 1e-15);
}

#[test]
fn daycount_thirty_360_e_clip() {
    let d1 = Date::from_ymd(2024, 1, 31).unwrap();
    let d2 = Date::from_ymd(2024, 5, 31).unwrap();
    let tau = year_fraction(Daycount::Thirty360E, d1, d2).unwrap();
    assert!((tau - 120.0_f64 / 360.0).abs() < 1e-15);
}

#[test]
fn daycount_thirty_360_bb_isda_example() {
    let d1 = Date::from_ymd(2007, 2, 28).unwrap();
    let d2 = Date::from_ymd(2007, 8, 31).unwrap();
    let tau = year_fraction(Daycount::Thirty360BondBasis, d1, d2).unwrap();
    assert!((tau - 183.0_f64 / 360.0).abs() < 1e-15);
}

#[test]
fn daycount_thirty_360_bb_d1_is_31() {
    let d1 = Date::from_ymd(2024, 1, 31).unwrap();
    let d2 = Date::from_ymd(2024, 7, 31).unwrap();
    let tau = year_fraction(Daycount::Thirty360BondBasis, d1, d2).unwrap();
    assert!((tau - 0.5).abs() < 1e-15);
}

#[test]
fn daycount_thirty_360_bb_d2_is_31_d1_not_30() {
    let d1 = Date::from_ymd(2024, 1, 15).unwrap();
    let d2 = Date::from_ymd(2024, 7, 31).unwrap();
    let tau = year_fraction(Daycount::Thirty360BondBasis, d1, d2).unwrap();
    assert!((tau - 196.0_f64 / 360.0).abs() < 1e-15);
}

#[test]
fn daycount_act_act_icma_quarterly() {
    let d1 = Date::from_ymd(2024, 1, 1).unwrap();
    let d2 = Date::from_ymd(2024, 4, 1).unwrap();
    let tau = year_fraction(Daycount::ActActIcma { coupons_per_year: 4 }, d1, d2).unwrap();
    assert!((tau - 0.25).abs() < 1e-15);
}

#[test]
fn daycount_act_act_icma_zero_freq_rejected() {
    let d1 = Date::from_ymd(2024, 1, 1).unwrap();
    let d2 = Date::from_ymd(2024, 4, 1).unwrap();
    let err = year_fraction(Daycount::ActActIcma { coupons_per_year: 0 }, d1, d2).unwrap_err();
    assert!(matches!(err, TypeError::InvalidTenor { .. }));
}

#[test]
fn daycount_business252_rejected() {
    let d1 = Date::from_ymd(2024, 1, 1).unwrap();
    let d2 = Date::from_ymd(2024, 4, 1).unwrap();
    let err = year_fraction(Daycount::Business252, d1, d2).unwrap_err();
    match err {
        TypeError::InvalidTenor { reason } => {
            assert!(reason.contains("Business252"));
        }
        other => panic!("unexpected variant {other:?}"),
    }
}

#[test]
fn daycount_negative_range_rejected() {
    let d1 = Date::from_ymd(2024, 6, 1).unwrap();
    let d2 = Date::from_ymd(2024, 1, 1).unwrap();
    let err = year_fraction(Daycount::Act360, d1, d2).unwrap_err();
    assert!(matches!(err, TypeError::NonPositiveRange));
}

#[test]
fn daycount_zero_range_ok() {
    let d = Date::from_ymd(2024, 1, 1).unwrap();
    let tau = year_fraction(Daycount::Act360, d, d).unwrap();
    assert!((tau - 0.0).abs() < 1e-15);
}

#[test]
fn daycount_copy_eq() {
    let dc = Daycount::Act360;
    let copy = dc;
    assert_eq!(dc, copy);
}

// ─── Frequency ───────────────────────────────────────────────────────

#[test]
fn frequency_periods_per_year() {
    assert_eq!(Frequency::Annual.periods_per_year(), 1);
    assert_eq!(Frequency::SemiAnnual.periods_per_year(), 2);
    assert_eq!(Frequency::Quarterly.periods_per_year(), 4);
    assert_eq!(Frequency::Monthly.periods_per_year(), 12);
    assert_eq!(Frequency::OnceAtMaturity.periods_per_year(), 0);
}

#[test]
fn frequency_copy_eq() {
    let f = Frequency::Quarterly;
    let copy = f;
    assert_eq!(f, copy);
}

// ─── BusinessDayConvention ───────────────────────────────────────────

#[test]
fn business_day_convention_copy_eq() {
    let c = BusinessDayConvention::ModifiedFollowing;
    let copy = c;
    assert_eq!(c, copy);
}

#[test]
fn business_day_convention_debug_includes_variant() {
    let s = format!("{:?}", BusinessDayConvention::Following);
    assert!(s.contains("Following"));
}

// ─── Integration: calendar round trips ───────────────────────────────

#[test]
fn date_ymd_round_trip_on_representative_dates() {
    let cases: [(i32, u32, u32); 50] = [
        (1900, 1, 1),
        (1900, 2, 28),
        (1904, 2, 29),
        (1969, 12, 31),
        (1970, 1, 1),
        (1972, 2, 29),
        (1999, 12, 31),
        (2000, 1, 1),
        (2000, 2, 29),
        (2000, 3, 1),
        (2003, 7, 15),
        (2003, 12, 31),
        (2004, 1, 1),
        (2004, 2, 29),
        (2004, 3, 1),
        (2007, 5, 15),
        (2008, 2, 29),
        (2008, 3, 1),
        (2008, 12, 31),
        (2010, 6, 30),
        (2012, 2, 29),
        (2015, 8, 15),
        (2016, 2, 29),
        (2019, 11, 30),
        (2020, 2, 29),
        (2020, 3, 1),
        (2021, 1, 1),
        (2022, 7, 4),
        (2023, 4, 15),
        (2024, 1, 1),
        (2024, 1, 2),
        (2024, 2, 29),
        (2024, 3, 1),
        (2024, 12, 31),
        (2025, 1, 1),
        (2026, 5, 23),
        (2030, 11, 11),
        (2040, 7, 4),
        (2050, 12, 31),
        (2060, 2, 29),
        (2070, 6, 15),
        (2080, 1, 1),
        (2090, 12, 31),
        (2100, 1, 1),
        (2100, 2, 28),
        (2100, 12, 31),
        (2104, 2, 29),
        (2200, 6, 30),
        (2300, 3, 1),
        (2400, 2, 29),
    ];
    for &(y, m, day) in &cases {
        let dt = Date::from_ymd(y, m, day).unwrap();
        assert_eq!(dt.year(), y);
        assert_eq!(dt.month(), m);
        assert_eq!(dt.day(), day);
    }
}

#[test]
fn tenor_round_trip_consistency() {
    let base = d(2024, 6, 15);
    let cases: &[(i32, TenorUnit, i32)] = &[
        (1, TenorUnit::Days, 1),
        (7, TenorUnit::Days, 7),
        (30, TenorUnit::Days, 30),
        (180, TenorUnit::Days, 180),
        (1, TenorUnit::Weeks, 7),
        (4, TenorUnit::Weeks, 28),
    ];
    for &(count, unit, expected_days) in cases {
        let target = Tenor::new(count, unit).add_to(base);
        let span = target.days_between(base).abs();
        assert_eq!(span, expected_days, "tenor {count} {unit:?}");
    }

    let one_year = Tenor::new(1, TenorUnit::Years).add_to(base);
    assert_eq!(one_year.year(), 2025);
    assert_eq!(one_year.month(), 6);
    assert_eq!(one_year.day(), 15);

    let six_months = Tenor::new(6, TenorUnit::Months).add_to(base);
    assert_eq!(six_months.year(), 2024);
    assert_eq!(six_months.month(), 12);
    assert_eq!(six_months.day(), 15);
}
