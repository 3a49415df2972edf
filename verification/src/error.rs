//! The ways in which a calibration request can be refused.

use vstd::prelude::*;

verus! {

/// Why a calibration step did not produce a result. Every variant is
/// recoverable at the call that returned it.
#[derive(Debug, Clone, Copy, PartialEq, Eq, Structural)]
pub enum CalibrationError {
    /// The calendar axis of a curve has fewer than two years, or is not
    /// strictly sorted in one direction.
    InvalidCurve,
    /// An interpolation query lies outside the years that the curve covers.
    OutOfRangeQuery,
    /// No calendar year reached the precision threshold for the date with this
    /// measured `age` and `error`; `precision` is the threshold that was used.
    EmptyPosterior { age: i32, error: i32, precision: u64 },
    /// The densities to be rescaled are all zero.
    DegenerateNormalization,
    /// Two sequences that must be aligned position by position differ in
    /// length, or a count that must be positive is zero.
    DimensionMismatch,
}

} // verus!
