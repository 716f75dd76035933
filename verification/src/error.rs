//! Error taxonomy for matrix construction and binary operations.
//!
//! Shape and dimension errors abort the requested operation before any
//! computation begins; each error carries the offending values so the
//! caller can diagnose which pairing was invalid.

use vstd::prelude::*;

verus! {

/// Why a matrix operation was refused.
#[derive(Clone, Copy, Debug, PartialEq, Eq, Structural)]
pub enum MatrixError {
    /// A constructor was handed a buffer whose length disagrees with the
    /// declared `rows x cols` shape; `len` is the offending length.
    ShapeMismatch { rows: usize, cols: usize, len: usize },
    /// A binary operation was invoked on operands of incompatible shapes.
    DimensionMismatch {
        left_rows: usize,
        left_cols: usize,
        right_rows: usize,
        right_cols: usize,
    },
    /// A block size or worker count was zero where positivity is required;
    /// `value` is the offending value.
    InvalidConfiguration { value: usize },
}

} // verus!
