use vstd::prelude::*;

verus! {

/// The recoverable failures that the library reports.
///
/// Every operation that can detect bad input returns one of these instead of
/// panicking. `ShapeMismatch` carries both operand shapes so the caller can
/// see what was incompatible. `Overflow` and `DivisionByZero` report a result
/// that the fixed-width rational scalars cannot represent.
#[derive(Clone, Copy, Debug, PartialEq, Eq, Structural)]
pub enum AutodiffError {
    /// Operand dimensions are incompatible for the operation.
    ShapeMismatch {
        left_rows: usize,
        left_cols: usize,
        right_rows: usize,
        right_cols: usize,
    },
    /// A tensor index exceeds a dimension's size, or an index/stride length
    /// mismatch was detected.
    IndexOutOfBounds,
    /// An argument position lies beyond the argument list.
    ArgumentOutOfBounds,
    /// The raw data handed to a constructor does not form a valid value
    /// (for example, ragged matrix rows).
    InvalidConstruction,
    /// A quotient with a zero denominator was requested.
    DivisionByZero,
    /// An exact result does not fit in the scalar's fixed-width fields.
    Overflow,
}

} // verus!
