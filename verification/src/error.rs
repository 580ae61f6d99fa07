//! The ways in which a matrix operation is refused.

use vstd::prelude::*;

verus! {

/// Why an operation on matrices was refused.
#[derive(Debug, Clone, Copy, PartialEq, Eq, Structural)]
pub enum MatrixError {
    /// The number of values is not the square of the dimension, or two
    /// operands differ in dimension.
    DimensionMismatch,
    /// The dimension is not a multiple of the tile size.
    UnalignedSize,
    /// A row or column index is not below the dimension.
    IndexOutOfRange,
}

} // verus!
