//! Error types of the calendar and convention layer.

use vstd::prelude::*;

verus! {

/// Errors raised by the calendar, tenor, day-count and compounding layer.
#[derive(Debug, Clone, Copy, PartialEq, Eq)]
pub enum TypeError {
    /// `(year, month, day)` is not a real proleptic-Gregorian date.
    InvalidDate {
        /// Year as supplied.
        year: i32,
        /// Month as supplied.
        month: u32,
        /// Day as supplied.
        day: u32,
    },
    /// A date range or time runs backwards (or is zero where a positive
    /// span is required).
    NonPositiveRange,
    /// A convention was queried with parameters it cannot serve.
    InvalidTenor {
        /// Why the convention cannot serve the query.
        reason: &'static str,
    },
    /// A floating-point input is `NaN` or infinite.
    NonFinite {
        /// Name of the offending input.
        name: &'static str,
    },
}

} // verus!
