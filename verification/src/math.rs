//! Errors of the numerical primitives.
//!
//! The solvers themselves (Gaussian elimination, Cholesky, the Thomas
//! tridiagonal algorithm, Brent's root-finder) work on floating-point
//! numbers; their shared failure modes are the plain enum [`MathError`].

use vstd::prelude::*;

verus! {

/// Errors raised by the numerical primitives.
///
/// These are domain errors: the input violates an algorithm's preconditions
/// (singular matrix, non-SPD matrix, bracket that fails to straddle a root).
#[derive(Debug, Clone, Copy, PartialEq, Eq, Hash)]
pub enum MathError {
    /// A pivot collapsed below tolerance during elimination — the matrix is
    /// singular (up to round-off).
    Singular,
    /// Cholesky decomposition encountered a non-positive pivot — the matrix
    /// is not symmetric positive-definite.
    NotSpd,
    /// Inputs to a solver have inconsistent dimensions.
    DimensionMismatch,
    /// Iterative algorithm did not converge to the requested tolerance
    /// within the iteration cap.
    NoConvergence,
    /// `f(a)` and `f(b)` do not straddle zero, so a bracketed root-finder
    /// cannot make progress.
    BracketNotStraddling,
}

/// Human-readable description of each [`MathError`].
pub open spec fn math_error_text(e: MathError) -> Seq<char> {
    match e {
        MathError::Singular => "matrix is singular"@,
        MathError::NotSpd => "matrix is not symmetric positive-definite"@,
        MathError::DimensionMismatch => "inputs have inconsistent dimensions"@,
        MathError::NoConvergence => "iterative algorithm did not converge"@,
        MathError::BracketNotStraddling => "f(a) and f(b) do not straddle zero"@,
    }
}

impl MathError {
    /// Returns the human-readable description of the error.
    pub fn to_string(&self) -> (r: String)
        ensures
            r@ == math_error_text(*self),
    {
        match self {
            Self::Singular => "matrix is singular".to_owned(),
            Self::NotSpd => "matrix is not symmetric positive-definite".to_owned(),
            Self::DimensionMismatch => "inputs have inconsistent dimensions".to_owned(),
            Self::NoConvergence => "iterative algorithm did not converge".to_owned(),
            Self::BracketNotStraddling => "f(a) and f(b) do not straddle zero".to_owned(),
        }
    }
}

} // verus!
