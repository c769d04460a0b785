//! Failures that the matrix engine and the network report.

use vstd::prelude::*;

verus! {

/// Why an operation was refused.
#[derive(Clone, Copy, Debug, PartialEq, Eq, Structural)]
pub enum MatrixError {
    /// The operands' dimensions do not fit the operation.
    ShapeMismatch,
    /// A row or column index lies beyond the matrix's extent.
    IndexOutOfRange,
    /// A network was asked for with fewer than two layers or with a
    /// learning rate that is not a positive number.
    InvalidConfiguration,
}

impl MatrixError {
    /// A short description of the failure.
    pub fn describe(&self) -> (r: &'static str)
        ensures
            r@ == (match *self {
                MatrixError::ShapeMismatch => "incompatible dimensions"@,
                MatrixError::IndexOutOfRange => "index out of range"@,
                MatrixError::InvalidConfiguration => "invalid configuration"@,
            }),
    {
        match self {
            MatrixError::ShapeMismatch => "incompatible dimensions",
            MatrixError::IndexOutOfRange => "index out of range",
            MatrixError::InvalidConfiguration => "invalid configuration",
        }
    }
}

} // verus!
