//! Names of the interpolation methods, and the properties of each method
//! that do not depend on its floating-point parameters.

use vstd::prelude::*;

verus! {

/// The interpolation methods, by name (a clamped cubic spline's endpoint
/// slopes are not part of the name).
#[derive(Debug, Clone, Copy, PartialEq, Eq, Hash)]
pub enum InterpolationKind {
    /// Piecewise linear.
    Linear,
    /// Piecewise log-linear on the discount factor.
    LogLinear,
    /// Linear on the continuously-compounded zero rate.
    LinearInZero,
    /// Piecewise constant instantaneous forward.
    PiecewiseConstantForward,
    /// C² cubic spline, with any boundary condition.
    CubicSpline,
    /// Hagan–West monotone-convex.
    ConvexMonotone,
    /// Bessel-slope Hermite cubic.
    HermiteBessel,
    /// Fritsch–Carlson monotone cubic.
    MonotoneCubic,
    /// Hyman monotonicity filter on a cubic spline.
    MonotoneHyman,
    /// Steffen monotone cubic.
    MonotoneSteffen,
}

/// Methods whose value at one pillar depends on the values at later pillars:
/// the global cubic spline and the two methods built on global slopes.
pub open spec fn is_nonlocal(kind: InterpolationKind) -> bool {
    kind == InterpolationKind::CubicSpline || kind == InterpolationKind::HermiteBessel || kind
        == InterpolationKind::MonotoneHyman
}

/// Returns `true` if the method's value at one pillar depends on the value at
/// later pillars, so that a sequential bootstrap needs an outer iteration.
/// `ConvexMonotone` is local: each segment depends only on its four adjacent
/// knots.
pub fn method_is_nonlocal(kind: InterpolationKind) -> (r: bool)
    ensures
        r == is_nonlocal(kind),
{
    match kind {
        InterpolationKind::CubicSpline
        | InterpolationKind::HermiteBessel
        | InterpolationKind::MonotoneHyman => true,
        InterpolationKind::ConvexMonotone
        | InterpolationKind::Linear
        | InterpolationKind::LogLinear
        | InterpolationKind::LinearInZero
        | InterpolationKind::PiecewiseConstantForward
        | InterpolationKind::MonotoneCubic
        | InterpolationKind::MonotoneSteffen => false,
    }
}

} // verus!
