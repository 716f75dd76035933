//! A dense-matrix engine verified with Verus.
//!
//! Matrices come in two row-major layouts: a fragmented layout (one
//! independently owned buffer per row) and a contiguous layout (one flat
//! buffer of `rows * cols` elements). Five multiplication strategies —
//! naive triple loop, loop-reordered strided traversal, cache-blocked
//! tiled traversal, and row-partitioned variants of the latter two meant
//! for parallel dispatch — are all proved to compute the same product.
//!
//! Elements are 64-bit integers combined with two's-complement wraparound
//! arithmetic, so the element domain forms a total ring and every
//! algebraic law holds exactly, with no precondition on magnitudes.

pub mod contiguous;
pub mod error;
pub mod fragmented;
pub mod grid;
pub mod laws;
pub mod report;
pub mod text;
