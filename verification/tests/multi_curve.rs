use regit_curves::multi_curve::{MultiCurve, MultiCurveBootstrap};
use regit_curves::types::{Date, Daycount, Tenor, TenorUnit};

/// Solver settings of a bootstrap, as a test-side stand-in for the
/// floating-point configuration.
#[derive(Debug, Clone, Copy, PartialEq, Default)]
struct BootstrapConfig {
    tolerance: f64,
    max_iter: usize,
    bracket: f64,
    iterative: bool,
    iter_max: usize,
    iter_tol: f64,
}

fn d(y: i32, m: u32, day: u32) -> Date {
    Date::from_ymd(y, m, day).unwrap()
}

#[test]
fn multi_curve_bootstrap_with_config_round_trip() {
    let reference = d(2024, 1, 2);
    let cfg = BootstrapConfig {
        tolerance: 1e-10,
        max_iter: 50,
        bracket: 0.25,
        iterative: false,
        iter_max: 4,
        iter_tol: 1e-12,
    };
    let mcb = MultiCurveBootstrap::<BootstrapConfig>::new(reference, Daycount::Act360).with_config(cfg);
    assert_eq!(mcb.config, cfg);
}

#[test]
fn multi_curve_bootstrap_debug_includes_struct_name() {
    let mcb = MultiCurveBootstrap::<BootstrapConfig>::new(d(2024, 1, 2), Daycount::Act360);
    let dbg = format!("{mcb:?}");
    assert!(dbg.contains("MultiCurveBootstrap"));
}

#[test]
fn multi_curve_bootstrap_new_carries_defaults() {
    let reference = d(2024, 1, 2);
    let mcb = MultiCurveBootstrap::<BootstrapConfig>::new(reference, Daycount::Act360);
    assert_eq!(mcb.reference_date, reference);
    assert_eq!(mcb.daycount, Daycount::Act360);
    assert_eq!(mcb.config, BootstrapConfig::default());
}

#[test]
fn with_config_keeps_reference_and_daycount() {
    let reference = d(2024, 1, 2);
    let mcb = MultiCurveBootstrap::<u32>::new(reference, Daycount::ActActIsda).with_config(7);
    assert_eq!(mcb.reference_date, reference);
    assert_eq!(mcb.daycount, Daycount::ActActIsda);
    assert_eq!(mcb.config, 7);
}

#[test]
fn projection_curve_lookup_is_by_literal_tenor() {
    let m3 = Tenor::new(3, TenorUnit::Months);
    let m6 = Tenor::new(6, TenorUnit::Months);
    let d90 = Tenor::new(90, TenorUnit::Days);
    let mc = MultiCurve {
        discount: "ois",
        projection: vec![(m3, "3m"), (m6, "6m"), (m3, "3m-second")],
    };
    assert_eq!(*mc.discount_curve(), "ois");
    assert_eq!(mc.projection_curve(m3), Some(&"3m"));
    assert_eq!(mc.projection_curve(m6), Some(&"6m"));
    assert_eq!(mc.projection_curve(d90), None);
}

#[test]
fn projection_curve_on_ois_only_set_is_none() {
    let mc: MultiCurve<u8> = MultiCurve { discount: 1, projection: Vec::new() };
    assert!(mc.projection_curve(Tenor::new(3, TenorUnit::Months)).is_none());
    assert_eq!(*mc.discount_curve(), 1);
}

#[test]
fn projection_curve_returns_some_for_present_tenor_and_none_otherwise() {
    let reference = d(2024, 1, 2);
    let tenor_3m = Tenor::new(3, TenorUnit::Months);
    let tenor_6m = Tenor::new(6, TenorUnit::Months);
    // Curves are represented by their reference dates.
    let mc = MultiCurve { discount: reference, projection: vec![(tenor_3m, reference)] };
    assert!(mc.projection_curve(tenor_3m).is_some());
    assert!(mc.projection_curve(tenor_6m).is_none());
    assert_eq!(*mc.discount_curve(), reference);
}
