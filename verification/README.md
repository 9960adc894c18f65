# regit_curves

Calendar, tenor and day-count conventions for interest-rate yield curves,
with the integer calendar arithmetic proved correct in Verus.

## Layout

- `src/` — the verified library.
  - `civil.rs` — the proleptic-Gregorian calendar stated directly (leap
    years, month lengths, days before a year or month, the day-serial from
    `1970-01-01`) and the laws proved about it: the serial is a bijection
    between valid dates and integers, strictly increasing in date order, and
    Hinnant's `days_from_civil` / `civil_from_days` formulae compute it.
  - `types.rs` — `Date`, `Tenor`, `Daycount` (exact integer year-fraction
    decomposition), `Compounding`, `Frequency`, `BusinessDayConvention`.
  - `errors.rs` — `TypeError`.
  - `interpolation.rs` — `InterpolationKind`, the names of the
    interpolation methods, and which of them are non-local.
  - `math.rs` — `MathError`.
  - `multi_curve.rs` — `MultiCurve` and `MultiCurveBootstrap`, generic in
    the curve and solver-configuration representations.
- `tests/` — tests of the library.
- `app/` — the floating-point layer (interpolation methods, linear solvers,
  Brent's root-finder, floating-point year fractions and compounding
  conversions), ordinary Rust on top of the library.
