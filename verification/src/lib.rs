//! Calendar, tenor and day-count conventions for interest-rate yield curves,
//! with the integer calendar arithmetic proved against a direct mathematical
//! model of the proleptic-Gregorian calendar.

pub mod civil;
pub mod errors;
pub mod interpolation;
pub mod types;
pub mod math;
pub mod multi_curve;
