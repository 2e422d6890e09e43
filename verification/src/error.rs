//! The failures that the library reports.

use vstd::prelude::*;

verus! {

/// Why an operation was refused.
#[derive(Debug, Clone, Copy, PartialEq, Eq, Structural)]
pub enum Error {
    /// A matrix was asked for with no rows or no columns.
    InvalidInitialMatrixDimensions,
    /// Two vectors that must have the same dimension do not: `expected` is
    /// the dimension of the left operand, `got` that of the right one.
    UnevenVectorLengths { expected: usize, got: usize },
}

} // verus!
