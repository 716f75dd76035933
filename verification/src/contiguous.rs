//! The contiguous matrix layout: one flat row-major buffer.
//!
//! Element `(i, j)` of a `rows x cols` matrix lives at linear offset
//! `i * cols + j`. This layout carries the loop-reordered (strided) and
//! cache-blocked (tiled) multiplication strategies, and the
//! row-partitioned kernels their parallel variants are built from.

use vstd::prelude::*;
use vstd::pervasive::VecAdditionalExecFns;

use crate::error::MatrixError;
use crate::grid::dot_prefix;
use crate::grid::grid_add;
use crate::grid::grid_hadamard;
use crate::grid::grid_identity;
use crate::grid::grid_mul;
use crate::grid::grid_sub;
use crate::grid::grid_transpose;
use crate::grid::grid_zeros;
use crate::grid::lemma_mul_distribute;
use crate::grid::lemma_mul_le;
use crate::grid::lemma_mul_succ;
use crate::grid::lemma_row_major_index;
use crate::grid::lemma_row_major_injective;
use crate::grid::off;
use crate::grid::wadd;
use crate::grid::wmul;
use crate::grid::wsub;
use rand::Rng;

verus! {

/// A row-major matrix stored in one contiguous buffer of
/// `rows * cols` elements.
#[derive(Clone, Debug)]
pub struct Matrix {
    pub rows: usize,
    pub cols: usize,
    pub data: Vec<i64>,
}

impl View for Matrix {
    type V = Seq<Seq<i64>>;

    /// The grid this matrix denotes: row `i` is the `cols` elements at
    /// offsets `i * cols .. (i + 1) * cols`.
    open spec fn view(&self) -> Seq<Seq<i64>> {
        Seq::new(
            self.rows as nat,
            |i: int| Seq::new(self.cols as nat, |j: int| self.data@[off(i, j, self.cols as int)]),
        )
    }
}

impl Matrix {
    /// The buffer holds exactly one element per position of the shape.
    pub open spec fn wf(self) -> bool {
        self.data@.len() == self.rows * self.cols
    }

    /// Constructs a matrix around a caller-supplied buffer. Fails with
    /// `ShapeMismatch` exactly when the buffer length differs from
    /// `rows * cols`.
    pub fn new(rows: usize, cols: usize, data: Vec<i64>) -> (r: Result<Matrix, MatrixError>)
        ensures
            r is Ok <==> data@.len() == rows * cols,
            match r {
                Ok(m) => m.rows == rows && m.cols == cols && m.data@ == data@ && m.wf(),
                Err(e) => e == (MatrixError::ShapeMismatch {
                    rows,
                    cols,
                    len: data@.len() as usize,
                }),
            },
    {
        let len = data.len();
        match rows.checked_mul(cols) {
            Some(n) => {
                if len == n {
                    Ok(Matrix { rows, cols, data })
                } else {
                    Err(MatrixError::ShapeMismatch { rows, cols, len })
                }
            },
            None => Err(MatrixError::ShapeMismatch { rows, cols, len }),
        }
    }

    /// The all-zero matrix of the given shape.
    pub fn zeros(rows: usize, cols: usize) -> (m: Matrix)
        requires
            rows * cols <= usize::MAX,
        ensures
            m.wf(),
            m.rows == rows,
            m.cols == cols,
            m@ == grid_zeros(rows as int, cols as int),
    {
        let data = zero_buffer(rows * cols);
        let m = Matrix { rows, cols, data };
        proof {
            assert forall|i: int, j: int| 0 <= i < rows && 0 <= j < cols implies m@[i][j]
                == 0i64 by {
                lemma_row_major_index(rows as int, cols as int, i, j);
            }
            assert(m@ =~~= grid_zeros(rows as int, cols as int));
        }
        m
    }

    /// The square matrix with ones on the main diagonal.
    #[verifier::loop_isolation(false)]
    pub fn identity(size: usize) -> (m: Matrix)
        requires
            size * size <= usize::MAX,
        ensures
            m.wf(),
            m.rows == size,
            m.cols == size,
            m@ == grid_identity(size as int),
    {
        let mut data: Vec<i64> = Vec::new();
        let mut i: usize = 0;
        while i < size
            invariant
                i <= size,
                size * size <= usize::MAX,
                data@.len() == i * size,
                forall|r: int, c: int|
                    0 <= r < i && 0 <= c < size ==> data@[#[trigger] off(r, c, size as int)] == (
                    if r == c {
                        1i64
                    } else {
                        0i64
                    }),
            decreases size - i,
        {
            let mut j: usize = 0;
            while j < size
                invariant
                    j <= size,
                    i < size,
                    size * size <= usize::MAX,
                    data@.len() == i * size + j,
                    forall|r: int, c: int|
                        0 <= r < i && 0 <= c < size ==> data@[#[trigger] off(r, c, size as int)]
                            == (if r == c {
                            1i64
                        } else {
                            0i64
                        }),
                    forall|c: int|
                        0 <= c < j ==> data@[#[trigger] off(i as int, c, size as int)] == (if i == c {
                            1i64
                        } else {
                            0i64
                        }),
                decreases size - j,
            {
                proof {
                    lemma_row_major_index(size as int, size as int, i as int, j as int);
                }
                if j == i {
                    data.push(1i64);
                } else {
                    data.push(0i64);
                }
                proof {
                    assert forall|r: int, c: int| 0 <= r < i && 0 <= c < size implies data@[
                    #[trigger] off(r, c, size as int)] == (if r == c {
                        1i64
                    } else {
                        0i64
                    }) by {
                        lemma_row_major_index(i as int, size as int, r, c);
                    }
                }
                j = j + 1;
            }
            proof {
                lemma_mul_succ(i as int, size as int);
            }
            i = i + 1;
        }
        let m = Matrix { rows: size, cols: size, data };
        proof {
            assert forall|r: int, c: int| 0 <= r < size && 0 <= c < size implies m@[r][c] == (if r
                == c {
                1i64
            } else {
                0i64
            }) by {
                lemma_row_major_index(size as int, size as int, r, c);
            }
            assert(m@ =~~= grid_identity(size as int));
        }
        m
    }

    /// A matrix of the given shape whose elements are drawn from the
    /// process-wide random source.
    pub fn random(rows: usize, cols: usize) -> (m: Matrix)
        requires
            rows * cols <= usize::MAX,
        ensures
            m.wf(),
            m.rows == rows,
            m.cols == cols,
    {
        let n = rows * cols;
        let mut data: Vec<i64> = Vec::new();
        let mut t: usize = 0;
        while t < n
            invariant
                t <= n,
                data@.len() == t,
            decreases n - t,
        {
            data.push(random_element());
            t = t + 1;
        }
        Matrix { rows, cols, data }
    }

    /// The transpose: element `(j, i)` of the result is element `(i, j)`
    /// of `self`.
    #[verifier::loop_isolation(false)]
    pub fn transpose(&self) -> (m: Matrix)
        requires
            self.wf(),
        ensures
            m.wf(),
            m.rows == self.cols,
            m.cols == self.rows,
            m@ == grid_transpose(self@, self.rows as int, self.cols as int),
    {
        let rows = self.rows;
        let cols = self.cols;
        let total = self.data.len();
        proof {
            assert(rows * cols <= usize::MAX);
        }
        let mut data: Vec<i64> = Vec::new();
        let mut j: usize = 0;
        while j < cols
            invariant
                j <= cols,
                self.wf(),
                rows == self.rows,
                cols == self.cols,
                data@.len() == j * rows,
                forall|c: int, r: int|
                    0 <= c < j && 0 <= r < rows ==> data@[#[trigger] off(c, r, rows as int)]
                        == self.data@[off(r, c, cols as int)],
            decreases cols - j,
        {
            let mut i: usize = 0;
            while i < rows
                invariant
                    i <= rows,
                    j < cols,
                    self.wf(),
                    rows == self.rows,
                    cols == self.cols,
                    data@.len() == j * rows + i,
                    forall|c: int, r: int|
                        0 <= c < j && 0 <= r < rows ==> data@[#[trigger] off(c, r, rows as int)]
                            == self.data@[off(r, c, cols as int)],
                    forall|r: int|
                        0 <= r < i ==> data@[#[trigger] off(j as int, r, rows as int)]
                            == self.data@[off(r, j as int, cols as int)],
                decreases rows - i,
            {
                proof {
                    lemma_row_major_index(rows as int, cols as int, i as int, j as int);
                    lemma_row_major_index(cols as int, rows as int, j as int, i as int);
                }
                let v = self.data[i * cols + j];
                data.push(v);
                proof {
                    assert forall|c: int, r: int| 0 <= c < j && 0 <= r < rows implies data@[
                    #[trigger] off(c, r, rows as int)] == self.data@[off(r, c, cols as int)] by {
                        lemma_row_major_index(j as int, rows as int, c, r);
                    }
                }
                i = i + 1;
            }
            proof {
                lemma_mul_succ(j as int, rows as int);
            }
            j = j + 1;
        }
        let m = Matrix { rows: cols, cols: rows, data };
        proof {
            assert forall|c: int, r: int| 0 <= c < cols && 0 <= r < rows implies m@[c][r]
                == self@[r][c] by {
                lemma_row_major_index(cols as int, rows as int, c, r);
            }
            assert(m@ =~~= grid_transpose(self@, self.rows as int, self.cols as int));
        }
        m
    }


    /// Elementwise sum. Fails with `DimensionMismatch`
    /// exactly when the shapes differ, and with `InvalidConfiguration`
    /// when the shapes agree but the block size is zero. The traversal
    /// visits the index space in `block_size`-square tiles purely for
    /// cache locality; the result is the same elementwise sum.
    #[verifier::loop_isolation(false)]
    pub fn add(&self, other: &Matrix, block_size: usize) -> (r: Result<Matrix, MatrixError>)
        requires
            self.wf(),
            other.wf(),
        ensures
            r is Ok <==> (self.rows == other.rows && self.cols == other.cols && block_size >= 1),
            match r {
                Ok(m) => m.wf() && m.rows == self.rows && m.cols == self.cols && m@
                    == grid_add(self@, other@),
                Err(e) => e == (if self.rows != other.rows || self.cols != other.cols {
                    MatrixError::DimensionMismatch {
                        left_rows: self.rows,
                        left_cols: self.cols,
                        right_rows: other.rows,
                        right_cols: other.cols,
                    }
                } else {
                    MatrixError::InvalidConfiguration { value: block_size }
                }),
            },
    {
        if self.rows != other.rows || self.cols != other.cols {
            return Err(MatrixError::DimensionMismatch {
                left_rows: self.rows,
                left_cols: self.cols,
                right_rows: other.rows,
                right_cols: other.cols,
            });
        }
        if block_size == 0 {
            return Err(MatrixError::InvalidConfiguration { value: block_size });
        }
        let rows = self.rows;
        let cols = self.cols;
        let total = self.data.len();
        proof {
            assert(rows * cols <= usize::MAX);
        }
        let mut buf = zero_buffer(total);
        proof {
            assert forall|r: int, c: int| 0 <= r < rows && 0 <= c < cols implies buf@[#[trigger] off(
                r,
                c,
                cols as int,
            )] == 0i64 by {
                lemma_row_major_index(rows as int, cols as int, r, c);
            }
        }
        let mut ii: usize = 0;
        while ii < rows
            invariant
                ii <= rows,
                buf@.len() == rows * cols,
                forall|r: int, c: int|
                    0 <= r < rows && 0 <= c < cols ==> buf@[#[trigger] off(r, c, cols as int)] == (
                    if r < ii {
                        wadd(self.data@[off(r, c, cols as int)], other.data@[off(r, c, cols as int)])
                    } else {
                        0i64
                    }),
            decreases rows - ii,
        {
            let im = if rows - ii > block_size {
                ii + block_size
            } else {
                rows
            };
            let mut jj: usize = 0;
            while jj < cols
                invariant
                    jj <= cols,
                    buf@.len() == rows * cols,
                    forall|r: int, c: int|
                        0 <= r < rows && 0 <= c < cols ==> buf@[#[trigger] off(r, c, cols as int)]
                            == (if r < ii || (r < im && c < jj) {
                            wadd(
                                self.data@[off(r, c, cols as int)],
                                other.data@[off(r, c, cols as int)],
                            )
                        } else {
                            0i64
                        }),
                decreases cols - jj,
            {
                let jm = if cols - jj > block_size {
                    jj + block_size
                } else {
                    cols
                };
                let mut i = ii;
                while i < im
                    invariant
                        ii <= i <= im,
                        buf@.len() == rows * cols,
                        forall|r: int, c: int|
                            0 <= r < rows && 0 <= c < cols ==> buf@[#[trigger] off(
                                r,
                                c,
                                cols as int,
                            )] == (if r < ii || (r < im && c < jj) || (ii <= r < i && c < jm) {
                                wadd(
                                    self.data@[off(r, c, cols as int)],
                                    other.data@[off(r, c, cols as int)],
                                )
                            } else {
                                0i64
                            }),
                    decreases im - i,
                {
                    let mut j = jj;
                    while j < jm
                        invariant
                            jj <= j <= jm,
                            i < im,
                            buf@.len() == rows * cols,
                            forall|r: int, c: int|
                                0 <= r < rows && 0 <= c < cols ==> buf@[#[trigger] off(
                                    r,
                                    c,
                                    cols as int,
                                )] == (if r < ii || (r < im && c < jj) || (ii <= r < i && c < jm)
                                    || (r == i && jj <= c < j) {
                                    wadd(
                                        self.data@[off(r, c, cols as int)],
                                        other.data@[off(r, c, cols as int)],
                                    )
                                } else {
                                    0i64
                                }),
                        decreases jm - j,
                    {
                        proof {
                            lemma_row_major_index(rows as int, cols as int, i as int, j as int);
                        }
                        let idx = i * cols + j;
                        let v = self.data[idx].wrapping_add(other.data[idx]);
                        buf.set(idx, v);
                        proof {
                            assert forall|r: int, c: int| 0 <= r < rows && 0 <= c < cols implies
                                buf@[#[trigger] off(r, c, cols as int)] == (if r < ii || (r < im
                                && c < jj) || (ii <= r < i && c < jm) || (r == i && jj <= c < j
                                + 1) {
                                wadd(
                                    self.data@[off(r, c, cols as int)],
                                    other.data@[off(r, c, cols as int)],
                                )
                            } else {
                                0i64
                            }) by {
                                lemma_row_major_index(rows as int, cols as int, r, c);
                                if off(r, c, cols as int) == off(i as int, j as int, cols as int) {
                                    lemma_row_major_injective(
                                        cols as int,
                                        r,
                                        c,
                                        i as int,
                                        j as int,
                                    );
                                }
                            }
                        }
                        j = j + 1;
                    }
                    i = i + 1;
                }
                jj = jm;
            }
            ii = im;
        }
        let m = Matrix { rows, cols, data: buf };
        proof {
            assert forall|r: int, c: int| 0 <= r < rows && 0 <= c < cols implies m@[r][c] == wadd(
                self@[r][c],
                other@[r][c],
            ) by {
                lemma_row_major_index(rows as int, cols as int, r, c);
            }
            assert(m@ =~~= grid_add(self@, other@));
        }
        Ok(m)
    }


    /// Elementwise difference. Fails with `DimensionMismatch`
    /// exactly when the shapes differ, and with `InvalidConfiguration`
    /// when the shapes agree but the block size is zero. The traversal
    /// visits the index space in `block_size`-square tiles purely for
    /// cache locality; the result is the same elementwise difference.
    #[verifier::loop_isolation(false)]
    pub fn subtract(&self, other: &Matrix, block_size: usize) -> (r: Result<Matrix, MatrixError>)
        requires
            self.wf(),
            other.wf(),
        ensures
            r is Ok <==> (self.rows == other.rows && self.cols == other.cols && block_size >= 1),
            match r {
                Ok(m) => m.wf() && m.rows == self.rows && m.cols == self.cols && m@
                    == grid_sub(self@, other@),
                Err(e) => e == (if self.rows != other.rows || self.cols != other.cols {
                    MatrixError::DimensionMismatch {
                        left_rows: self.rows,
                        left_cols: self.cols,
                        right_rows: other.rows,
                        right_cols: other.cols,
                    }
                } else {
                    MatrixError::InvalidConfiguration { value: block_size }
                }),
            },
    {
        if self.rows != other.rows || self.cols != other.cols {
            return Err(MatrixError::DimensionMismatch {
                left_rows: self.rows,
                left_cols: self.cols,
                right_rows: other.rows,
                right_cols: other.cols,
            });
        }
        if block_size == 0 {
            return Err(MatrixError::InvalidConfiguration { value: block_size });
        }
        let rows = self.rows;
        let cols = self.cols;
        let total = self.data.len();
        proof {
            assert(rows * cols <= usize::MAX);
        }
        let mut buf = zero_buffer(total);
        proof {
            assert forall|r: int, c: int| 0 <= r < rows && 0 <= c < cols implies buf@[#[trigger] off(
                r,
                c,
                cols as int,
            )] == 0i64 by {
                lemma_row_major_index(rows as int, cols as int, r, c);
            }
        }
        let mut ii: usize = 0;
        while ii < rows
            invariant
                ii <= rows,
                buf@.len() == rows * cols,
                forall|r: int, c: int|
                    0 <= r < rows && 0 <= c < cols ==> buf@[#[trigger] off(r, c, cols as int)] == (
                    if r < ii {
                        wsub(self.data@[off(r, c, cols as int)], other.data@[off(r, c, cols as int)])
                    } else {
                        0i64
                    }),
            decreases rows - ii,
        {
            let im = if rows - ii > block_size {
                ii + block_size
            } else {
                rows
            };
            let mut jj: usize = 0;
            while jj < cols
                invariant
                    jj <= cols,
                    buf@.len() == rows * cols,
                    forall|r: int, c: int|
                        0 <= r < rows && 0 <= c < cols ==> buf@[#[trigger] off(r, c, cols as int)]
                            == (if r < ii || (r < im && c < jj) {
                            wsub(
                                self.data@[off(r, c, cols as int)],
                                other.data@[off(r, c, cols as int)],
                            )
                        } else {
                            0i64
                        }),
                decreases cols - jj,
            {
                let jm = if cols - jj > block_size {
                    jj + block_size
                } else {
                    cols
                };
                let mut i = ii;
                while i < im
                    invariant
                        ii <= i <= im,
                        buf@.len() == rows * cols,
                        forall|r: int, c: int|
                            0 <= r < rows && 0 <= c < cols ==> buf@[#[trigger] off(
                                r,
                                c,
                                cols as int,
                            )] == (if r < ii || (r < im && c < jj) || (ii <= r < i && c < jm) {
                                wsub(
                                    self.data@[off(r, c, cols as int)],
                                    other.data@[off(r, c, cols as int)],
                                )
                            } else {
                                0i64
                            }),
                    decreases im - i,
                {
                    let mut j = jj;
                    while j < jm
                        invariant
                            jj <= j <= jm,
                            i < im,
                            buf@.len() == rows * cols,
                            forall|r: int, c: int|
                                0 <= r < rows && 0 <= c < cols ==> buf@[#[trigger] off(
                                    r,
                                    c,
                                    cols as int,
                                )] == (if r < ii || (r < im && c < jj) || (ii <= r < i && c < jm)
                                    || (r == i && jj <= c < j) {
                                    wsub(
                                        self.data@[off(r, c, cols as int)],
                                        other.data@[off(r, c, cols as int)],
                                    )
                                } else {
                                    0i64
                                }),
                        decreases jm - j,
                    {
                        proof {
                            lemma_row_major_index(rows as int, cols as int, i as int, j as int);
                        }
                        let idx = i * cols + j;
                        let v = self.data[idx].wrapping_sub(other.data[idx]);
                        buf.set(idx, v);
                        proof {
                            assert forall|r: int, c: int| 0 <= r < rows && 0 <= c < cols implies
                                buf@[#[trigger] off(r, c, cols as int)] == (if r < ii || (r < im
                                && c < jj) || (ii <= r < i && c < jm) || (r == i && jj <= c < j
                                + 1) {
                                wsub(
                                    self.data@[off(r, c, cols as int)],
                                    other.data@[off(r, c, cols as int)],
                                )
                            } else {
                                0i64
                            }) by {
                                lemma_row_major_index(rows as int, cols as int, r, c);
                                if off(r, c, cols as int) == off(i as int, j as int, cols as int) {
                                    lemma_row_major_injective(
                                        cols as int,
                                        r,
                                        c,
                                        i as int,
                                        j as int,
                                    );
                                }
                            }
                        }
                        j = j + 1;
                    }
                    i = i + 1;
                }
                jj = jm;
            }
            ii = im;
        }
        let m = Matrix { rows, cols, data: buf };
        proof {
            assert forall|r: int, c: int| 0 <= r < rows && 0 <= c < cols implies m@[r][c] == wsub(
                self@[r][c],
                other@[r][c],
            ) by {
                lemma_row_major_index(rows as int, cols as int, r, c);
            }
            assert(m@ =~~= grid_sub(self@, other@));
        }
        Ok(m)
    }

    /// The elementwise (Hadamard) product. Fails with `DimensionMismatch`
    /// exactly when the shapes differ.
    #[verifier::loop_isolation(false)]
    pub fn hadamard_product(&self, other: &Matrix) -> (r: Result<Matrix, MatrixError>)
        requires
            self.wf(),
            other.wf(),
        ensures
            r is Ok <==> (self.rows == other.rows && self.cols == other.cols),
            match r {
                Ok(m) => m.wf() && m.rows == self.rows && m.cols == self.cols && m@
                    == grid_hadamard(self@, other@),
                Err(e) => e == (MatrixError::DimensionMismatch {
                    left_rows: self.rows,
                    left_cols: self.cols,
                    right_rows: other.rows,
                    right_cols: other.cols,
                }),
            },
    {
        if self.rows != other.rows || self.cols != other.cols {
            return Err(MatrixError::DimensionMismatch {
                left_rows: self.rows,
                left_cols: self.cols,
                right_rows: other.rows,
                right_cols: other.cols,
            });
        }
        let rows = self.rows;
        let cols = self.cols;
        let total = self.data.len();
        proof {
            assert(rows * cols <= usize::MAX);
        }
        let mut data: Vec<i64> = Vec::new();
        let mut i: usize = 0;
        while i < rows
            invariant
                i <= rows,
                self.wf(),
                other.wf(),
                rows == self.rows,
                cols == self.cols,
                other.rows == rows,
                other.cols == cols,
                data@.len() == i * cols,
                forall|r: int, c: int|
                    0 <= r < i && 0 <= c < cols ==> data@[#[trigger] off(r, c, cols as int)]
                        == wmul(
                        self.data@[off(r, c, cols as int)],
                        other.data@[off(r, c, cols as int)],
                    ),
            decreases rows - i,
        {
            let mut j: usize = 0;
            while j < cols
                invariant
                    j <= cols,
                    i < rows,
                    self.wf(),
                    other.wf(),
                    rows == self.rows,
                    cols == self.cols,
                    other.rows == rows,
                    other.cols == cols,
                    data@.len() == i * cols + j,
                    forall|r: int, c: int|
                        0 <= r < i && 0 <= c < cols ==> data@[#[trigger] off(r, c, cols as int)]
                            == wmul(
                            self.data@[off(r, c, cols as int)],
                            other.data@[off(r, c, cols as int)],
                        ),
                    forall|c: int|
                        0 <= c < j ==> data@[#[trigger] off(i as int, c, cols as int)] == wmul(
                            self.data@[off(i as int, c, cols as int)],
                            other.data@[off(i as int, c, cols as int)],
                        ),
                decreases cols - j,
            {
                proof {
                    lemma_row_major_index(rows as int, cols as int, i as int, j as int);
                }
                let idx = i * cols + j;
                let v = self.data[idx].wrapping_mul(other.data[idx]);
                data.push(v);
                proof {
                    assert forall|r: int, c: int| 0 <= r < i && 0 <= c < cols implies data@[
                    #[trigger] off(r, c, cols as int)] == wmul(
                        self.data@[off(r, c, cols as int)],
                        other.data@[off(r, c, cols as int)],
                    ) by {
                        lemma_row_major_index(i as int, cols as int, r, c);
                    }
                }
                j = j + 1;
            }
            proof {
                lemma_mul_succ(i as int, cols as int);
            }
            i = i + 1;
        }
        let m = Matrix { rows, cols, data };
        proof {
            assert forall|r: int, c: int| 0 <= r < rows && 0 <= c < cols implies m@[r][c] == wmul(
                self@[r][c],
                other@[r][c],
            ) by {
                lemma_row_major_index(rows as int, cols as int, r, c);
            }
            assert(m@ =~~= grid_hadamard(self@, other@));
        }
        Ok(m)
    }

    /// Rows `lo..hi` of the product `self * other`, as one flat
    /// row-major buffer of width `other.cols`, computed with the
    /// loop-reordered i-k-j (strided) traversal: for each row and inner
    /// index, the inner loop walks a full row of `other` and the output
    /// row sequentially, accumulating partial sums. Each worker of the
    /// parallel strided variant computes one such disjoint row range.
    #[verifier::loop_isolation(false)]
    pub fn multiply_strided_rows(&self, other: &Matrix, lo: usize, hi: usize) -> (out: Vec<i64>)
        requires
            self.wf(),
            other.wf(),
            self.cols == other.rows,
            lo <= hi <= self.rows,
            (hi - lo) * other.cols <= usize::MAX,
        ensures
            out@.len() == (hi - lo) * other.cols,
            forall|r: int, c: int|
                0 <= r < hi - lo && 0 <= c < other.cols ==> out@[#[trigger] off(
                    r,
                    c,
                    other.cols as int,
                )] == dot_prefix(self@, other@, lo + r, c, self.cols as int),
    {
        let m = self.cols;
        let p = other.cols;
        let band = hi - lo;
        let alen = self.data.len();
        let blen = other.data.len();
        proof {
            assert(self.rows * m <= usize::MAX);
            assert(m * p <= usize::MAX);
        }
        let mut out = zero_buffer(band * p);
        proof {
            assert forall|r: int, c: int| 0 <= r < band && 0 <= c < p implies out@[#[trigger] off(
                r,
                c,
                p as int,
            )] == 0i64 by {
                lemma_row_major_index(band as int, p as int, r, c);
            }
        }
        let mut i = lo;
        while i < hi
            invariant
                lo <= i <= hi,
                out@.len() == band * p,
                forall|r: int, c: int|
                    0 <= r < band && 0 <= c < p ==> out@[#[trigger] off(r, c, p as int)] == (if r
                        < i - lo {
                        dot_prefix(self@, other@, lo + r, c, m as int)
                    } else {
                        0i64
                    }),
            decreases hi - i,
        {
            let mut k: usize = 0;
            while k < m
                invariant
                    k <= m,
                    i < hi,
                    out@.len() == band * p,
                    forall|r: int, c: int|
                        0 <= r < band && 0 <= c < p ==> out@[#[trigger] off(r, c, p as int)] == (
                        if r < i - lo {
                            dot_prefix(self@, other@, lo + r, c, m as int)
                        } else if r == i - lo {
                            dot_prefix(self@, other@, lo + r, c, k as int)
                        } else {
                            0i64
                        }),
                decreases m - k,
            {
                proof {
                    lemma_row_major_index(self.rows as int, m as int, i as int, k as int);
                }
                let aik = self.data[i * m + k];
                let mut j: usize = 0;
                while j < p
                    invariant
                        j <= p,
                        k < m,
                        i < hi,
                        out@.len() == band * p,
                        aik == self.data@[off(i as int, k as int, m as int)],
                        forall|r: int, c: int|
                            0 <= r < band && 0 <= c < p ==> out@[#[trigger] off(r, c, p as int)]
                                == (if r < i - lo {
                                dot_prefix(self@, other@, lo + r, c, m as int)
                            } else if r == i - lo && c < j {
                                dot_prefix(self@, other@, lo + r, c, k + 1)
                            } else if r == i - lo {
                                dot_prefix(self@, other@, lo + r, c, k as int)
                            } else {
                                0i64
                            }),
                    decreases p - j,
                {
                    proof {
                        lemma_row_major_index(m as int, p as int, k as int, j as int);
                        lemma_row_major_index(band as int, p as int, i - lo, j as int);
                    }
                    let li = i - lo;
                    let idx = li * p + j;
                    let v = out[idx].wrapping_add(aik.wrapping_mul(other.data[k * p + j]));
                    out.set(idx, v);
                    proof {
                        assert(self@[i as int][k as int] == self.data@[off(
                            i as int,
                            k as int,
                            m as int,
                        )]);
                        assert(other@[k as int][j as int] == other.data@[off(
                            k as int,
                            j as int,
                            p as int,
                        )]);
                        assert forall|r: int, c: int| 0 <= r < band && 0 <= c < p implies out@[
                        #[trigger] off(r, c, p as int)] == (if r < i - lo {
                            dot_prefix(self@, other@, lo + r, c, m as int)
                        } else if r == i - lo && c < j + 1 {
                            dot_prefix(self@, other@, lo + r, c, k + 1)
                        } else if r == i - lo {
                            dot_prefix(self@, other@, lo + r, c, k as int)
                        } else {
                            0i64
                        }) by {
                            lemma_row_major_index(band as int, p as int, r, c);
                            if off(r, c, p as int) == off(i - lo, j as int, p as int) {
                                lemma_row_major_injective(p as int, r, c, i - lo, j as int);
                            }
                        }
                    }
                    j = j + 1;
                }
                k = k + 1;
            }
            i = i + 1;
        }
        out
    }

    /// Rows `lo..hi` of the product `self * other`, as one flat
    /// row-major buffer of width `other.cols`, computed with the
    /// cache-blocked (tiled) traversal: three block loops over row,
    /// column and inner ranges clipped to the matrix bounds, each block
    /// triple accumulating one block of inner terms into the output
    /// cells it covers. Each worker of the parallel tiled variant
    /// computes one such disjoint row range.
    #[verifier::loop_isolation(false)]
    pub fn multiply_tiled_rows(
        &self,
        other: &Matrix,
        lo: usize,
        hi: usize,
        block_size: usize,
    ) -> (out: Vec<i64>)
        requires
            self.wf(),
            other.wf(),
            self.cols == other.rows,
            block_size >= 1,
            lo <= hi <= self.rows,
            (hi - lo) * other.cols <= usize::MAX,
        ensures
            out@.len() == (hi - lo) * other.cols,
            forall|r: int, c: int|
                0 <= r < hi - lo && 0 <= c < other.cols ==> out@[#[trigger] off(
                    r,
                    c,
                    other.cols as int,
                )] == dot_prefix(self@, other@, lo + r, c, self.cols as int),
    {
        let m = self.cols;
        let p = other.cols;
        let band = hi - lo;
        let alen = self.data.len();
        let blen = other.data.len();
        proof {
            assert(self.rows * m <= usize::MAX);
            assert(m * p <= usize::MAX);
        }
        let mut out = zero_buffer(band * p);
        proof {
            assert forall|r: int, c: int| 0 <= r < band && 0 <= c < p implies out@[#[trigger] off(
                r,
                c,
                p as int,
            )] == 0i64 by {
                lemma_row_major_index(band as int, p as int, r, c);
            }
        }
        let mut ii = lo;
        while ii < hi
            invariant
                lo <= ii <= hi,
                out@.len() == band * p,
                forall|r: int, c: int|
                    0 <= r < band && 0 <= c < p ==> out@[#[trigger] off(r, c, p as int)] == (if lo
                        + r < ii {
                        dot_prefix(self@, other@, lo + r, c, m as int)
                    } else {
                        0i64
                    }),
            decreases hi - ii,
        {
            let im = if hi - ii > block_size {
                ii + block_size
            } else {
                hi
            };
            let mut jj: usize = 0;
            while jj < p
                invariant
                    jj <= p,
                    ii < im <= hi,
                    out@.len() == band * p,
                    forall|r: int, c: int|
                        0 <= r < band && 0 <= c < p ==> out@[#[trigger] off(r, c, p as int)] == (
                        if lo + r < ii || (lo + r < im && c < jj) {
                            dot_prefix(self@, other@, lo + r, c, m as int)
                        } else {
                            0i64
                        }),
                decreases p - jj,
            {
                let jm = if p - jj > block_size {
                    jj + block_size
                } else {
                    p
                };
                let mut kk: usize = 0;
                while kk < m
                    invariant
                        kk <= m,
                        jj < jm <= p,
                        out@.len() == band * p,
                        forall|r: int, c: int|
                            0 <= r < band && 0 <= c < p ==> out@[#[trigger] off(r, c, p as int)]
                                == (if lo + r < ii || (lo + r < im && c < jj) {
                                dot_prefix(self@, other@, lo + r, c, m as int)
                            } else if lo + r < im && jj <= c < jm {
                                dot_prefix(self@, other@, lo + r, c, kk as int)
                            } else {
                                0i64
                            }),
                    decreases m - kk,
                {
                    let km = if m - kk > block_size {
                        kk + block_size
                    } else {
                        m
                    };
                    let mut i = ii;
                    while i < im
                        invariant
                            ii <= i <= im,
                            kk < km <= m,
                            out@.len() == band * p,
                            forall|r: int, c: int|
                                0 <= r < band && 0 <= c < p ==> out@[#[trigger] off(
                                    r,
                                    c,
                                    p as int,
                                )] == (if lo + r < ii || (lo + r < im && c < jj) {
                                    dot_prefix(self@, other@, lo + r, c, m as int)
                                } else if lo + r < i && jj <= c < jm {
                                    dot_prefix(self@, other@, lo + r, c, km as int)
                                } else if lo + r < im && jj <= c < jm {
                                    dot_prefix(self@, other@, lo + r, c, kk as int)
                                } else {
                                    0i64
                                }),
                        decreases im - i,
                    {
                        let mut j = jj;
                        while j < jm
                            invariant
                                jj <= j <= jm,
                                ii <= i < im,
                                out@.len() == band * p,
                                forall|r: int, c: int|
                                    0 <= r < band && 0 <= c < p ==> out@[#[trigger] off(
                                        r,
                                        c,
                                        p as int,
                                    )] == (if lo + r < ii || (lo + r < im && c < jj) {
                                        dot_prefix(self@, other@, lo + r, c, m as int)
                                    } else if (lo + r < i && jj <= c < jm) || (lo + r == i && jj
                                        <= c < j) {
                                        dot_prefix(self@, other@, lo + r, c, km as int)
                                    } else if lo + r < im && jj <= c < jm {
                                        dot_prefix(self@, other@, lo + r, c, kk as int)
                                    } else {
                                        0i64
                                    }),
                            decreases jm - j,
                        {
                            proof {
                                lemma_row_major_index(band as int, p as int, i - lo, j as int);
                            }
                            let li = i - lo;
                            let idx = li * p + j;
                            let mut sum = out[idx];
                            proof {
                                assert(out@[off(i - lo, j as int, p as int)] == dot_prefix(
                                    self@,
                                    other@,
                                    i as int,
                                    j as int,
                                    kk as int,
                                ));
                            }
                            let mut k = kk;
                            while k < km
                                invariant
                                    kk <= k <= km,
                                    sum == dot_prefix(self@, other@, i as int, j as int, k as int),
                                decreases km - k,
                            {
                                proof {
                                    lemma_row_major_index(
                                        self.rows as int,
                                        m as int,
                                        i as int,
                                        k as int,
                                    );
                                    lemma_row_major_index(m as int, p as int, k as int, j as int);
                                    assert(self@[i as int][k as int] == self.data@[off(
                                        i as int,
                                        k as int,
                                        m as int,
                                    )]);
                                    assert(other@[k as int][j as int] == other.data@[off(
                                        k as int,
                                        j as int,
                                        p as int,
                                    )]);
                                }
                                sum = sum.wrapping_add(
                                    self.data[i * m + k].wrapping_mul(other.data[k * p + j]),
                                );
                                k = k + 1;
                            }
                            out.set(idx, sum);
                            proof {
                                assert forall|r: int, c: int| 0 <= r < band && 0 <= c < p implies
                                    out@[#[trigger] off(r, c, p as int)] == (if lo + r < ii || (lo
                                    + r < im && c < jj) {
                                    dot_prefix(self@, other@, lo + r, c, m as int)
                                } else if (lo + r < i && jj <= c < jm) || (lo + r == i && jj <= c
                                    < j + 1) {
                                    dot_prefix(self@, other@, lo + r, c, km as int)
                                } else if lo + r < im && jj <= c < jm {
                                    dot_prefix(self@, other@, lo + r, c, kk as int)
                                } else {
                                    0i64
                                }) by {
                                    lemma_row_major_index(band as int, p as int, r, c);
                                    if off(r, c, p as int) == off(i - lo, j as int, p as int) {
                                        lemma_row_major_injective(p as int, r, c, i - lo, j as int);
                                    }
                                }
                            }
                            j = j + 1;
                        }
                        i = i + 1;
                    }
                    kk = km;
                }
                jj = jm;
            }
            ii = im;
        }
        out
    }

    /// The matrix product, computed with the cache-blocked (tiled)
    /// traversal over the whole row range. Fails with
    /// `DimensionMismatch` exactly when the inner dimensions disagree,
    /// and with `InvalidConfiguration` when they agree but the block
    /// size is zero. A block size at or above every dimension degenerates
    /// to the single-block traversal; the result is the same product.
    pub fn multiply(&self, other: &Matrix, block_size: usize) -> (r: Result<Matrix, MatrixError>)
        requires
            self.wf(),
            other.wf(),
            self.cols == other.rows ==> self.rows * other.cols <= usize::MAX,
        ensures
            r is Ok <==> (self.cols == other.rows && block_size >= 1),
            match r {
                Ok(m) => m.wf() && m.rows == self.rows && m.cols == other.cols && m@ == grid_mul(
                    self@,
                    other@,
                    self.cols as int,
                    other.cols as int,
                ),
                Err(e) => e == (if self.cols != other.rows {
                    MatrixError::DimensionMismatch {
                        left_rows: self.rows,
                        left_cols: self.cols,
                        right_rows: other.rows,
                        right_cols: other.cols,
                    }
                } else {
                    MatrixError::InvalidConfiguration { value: block_size }
                }),
            },
    {
        if self.cols != other.rows {
            return Err(MatrixError::DimensionMismatch {
                left_rows: self.rows,
                left_cols: self.cols,
                right_rows: other.rows,
                right_cols: other.cols,
            });
        }
        if block_size == 0 {
            return Err(MatrixError::InvalidConfiguration { value: block_size });
        }
        let out = self.multiply_tiled_rows(other, 0, self.rows, block_size);
        let m = Matrix { rows: self.rows, cols: other.cols, data: out };
        proof {
            lemma_product_view(*self, *other, m);
        }
        Ok(m)
    }

    /// The matrix product, computed with the loop-reordered i-k-j
    /// (strided) traversal over the whole row range. Fails with
    /// `DimensionMismatch` exactly when the inner dimensions disagree.
    pub fn multiply_strided(&self, other: &Matrix) -> (r: Result<Matrix, MatrixError>)
        requires
            self.wf(),
            other.wf(),
            self.cols == other.rows ==> self.rows * other.cols <= usize::MAX,
        ensures
            r is Ok <==> self.cols == other.rows,
            match r {
                Ok(m) => m.wf() && m.rows == self.rows && m.cols == other.cols && m@ == grid_mul(
                    self@,
                    other@,
                    self.cols as int,
                    other.cols as int,
                ),
                Err(e) => e == (MatrixError::DimensionMismatch {
                    left_rows: self.rows,
                    left_cols: self.cols,
                    right_rows: other.rows,
                    right_cols: other.cols,
                }),
            },
    {
        if self.cols != other.rows {
            return Err(MatrixError::DimensionMismatch {
                left_rows: self.rows,
                left_cols: self.cols,
                right_rows: other.rows,
                right_cols: other.cols,
            });
        }
        let out = self.multiply_strided_rows(other, 0, self.rows);
        let m = Matrix { rows: self.rows, cols: other.cols, data: out };
        proof {
            lemma_product_view(*self, *other, m);
        }
        Ok(m)
    }

    /// The matrix product by static row partitioning: the row range is
    /// split into one chunk per worker, each chunk is computed by the
    /// strided row-range kernel exactly as an independent worker would
    /// compute it, and the disjoint output slices are joined in row
    /// order. The result does not depend on the worker count. Fails with
    /// `DimensionMismatch` exactly when the inner dimensions disagree,
    /// and with `InvalidConfiguration` when they agree but the worker
    /// count is zero.
    #[verifier::loop_isolation(false)]
    pub fn multiply_parallel_strided(&self, other: &Matrix, workers: usize) -> (r: Result<
        Matrix,
        MatrixError,
    >)
        requires
            self.wf(),
            other.wf(),
            self.cols == other.rows ==> self.rows * other.cols <= usize::MAX,
        ensures
            r is Ok <==> (self.cols == other.rows && workers >= 1),
            match r {
                Ok(m) => m.wf() && m.rows == self.rows && m.cols == other.cols && m@ == grid_mul(
                    self@,
                    other@,
                    self.cols as int,
                    other.cols as int,
                ),
                Err(e) => e == (if self.cols != other.rows {
                    MatrixError::DimensionMismatch {
                        left_rows: self.rows,
                        left_cols: self.cols,
                        right_rows: other.rows,
                        right_cols: other.cols,
                    }
                } else {
                    MatrixError::InvalidConfiguration { value: workers }
                }),
            },
    {
        if self.cols != other.rows {
            return Err(MatrixError::DimensionMismatch {
                left_rows: self.rows,
                left_cols: self.cols,
                right_rows: other.rows,
                right_cols: other.cols,
            });
        }
        if workers == 0 {
            return Err(MatrixError::InvalidConfiguration { value: workers });
        }
        let rows = self.rows;
        let p = other.cols;
        let chunk = row_chunk(rows, workers);
        let mut data: Vec<i64> = Vec::new();
        let mut lo: usize = 0;
        while lo < rows
            invariant
                lo <= rows,
                data@.len() == lo * p,
                forall|r: int, c: int|
                    0 <= r < lo && 0 <= c < p ==> data@[#[trigger] off(r, c, p as int)]
                        == dot_prefix(self@, other@, r, c, self.cols as int),
            decreases rows - lo,
        {
            let hi = if rows - lo > chunk {
                lo + chunk
            } else {
                rows
            };
            proof {
                lemma_mul_le((hi - lo) as int, rows as int, p as int);
            }
            let mut part = self.multiply_strided_rows(other, lo, hi);
            proof {
                lemma_join_rows(data@, part@, self@, other@, lo as int, hi as int, p as int, self.cols as int);
            }
            data.append(&mut part);
            lo = hi;
        }
        let m = Matrix { rows, cols: p, data };
        proof {
            lemma_product_view(*self, *other, m);
        }
        Ok(m)
    }

    /// The matrix product by static row partitioning of the tiled
    /// traversal: the row range is split into one chunk per worker, each
    /// chunk is computed by the tiled row-range kernel exactly as an
    /// independent worker would compute it, and the disjoint output
    /// slices are joined in row order. The result does not depend on the
    /// worker count. Fails with `DimensionMismatch` exactly when the
    /// inner dimensions disagree, and with `InvalidConfiguration` when
    /// they agree but the block size or worker count is zero.
    #[verifier::loop_isolation(false)]
    pub fn multiply_parallel_tiled(
        &self,
        other: &Matrix,
        block_size: usize,
        workers: usize,
    ) -> (r: Result<Matrix, MatrixError>)
        requires
            self.wf(),
            other.wf(),
            self.cols == other.rows ==> self.rows * other.cols <= usize::MAX,
        ensures
            r is Ok <==> (self.cols == other.rows && block_size >= 1 && workers >= 1),
            match r {
                Ok(m) => m.wf() && m.rows == self.rows && m.cols == other.cols && m@ == grid_mul(
                    self@,
                    other@,
                    self.cols as int,
                    other.cols as int,
                ),
                Err(e) => e == (if self.cols != other.rows {
                    MatrixError::DimensionMismatch {
                        left_rows: self.rows,
                        left_cols: self.cols,
                        right_rows: other.rows,
                        right_cols: other.cols,
                    }
                } else if block_size == 0 {
                    MatrixError::InvalidConfiguration { value: block_size }
                } else {
                    MatrixError::InvalidConfiguration { value: workers }
                }),
            },
    {
        if self.cols != other.rows {
            return Err(MatrixError::DimensionMismatch {
                left_rows: self.rows,
                left_cols: self.cols,
                right_rows: other.rows,
                right_cols: other.cols,
            });
        }
        if block_size == 0 {
            return Err(MatrixError::InvalidConfiguration { value: block_size });
        }
        if workers == 0 {
            return Err(MatrixError::InvalidConfiguration { value: workers });
        }
        let rows = self.rows;
        let p = other.cols;
        let chunk = row_chunk(rows, workers);
        let mut data: Vec<i64> = Vec::new();
        let mut lo: usize = 0;
        while lo < rows
            invariant
                lo <= rows,
                data@.len() == lo * p,
                forall|r: int, c: int|
                    0 <= r < lo && 0 <= c < p ==> data@[#[trigger] off(r, c, p as int)]
                        == dot_prefix(self@, other@, r, c, self.cols as int),
            decreases rows - lo,
        {
            let hi = if rows - lo > chunk {
                lo + chunk
            } else {
                rows
            };
            proof {
                lemma_mul_le((hi - lo) as int, rows as int, p as int);
            }
            let mut part = self.multiply_tiled_rows(other, lo, hi, block_size);
            proof {
                lemma_join_rows(data@, part@, self@, other@, lo as int, hi as int, p as int, self.cols as int);
            }
            data.append(&mut part);
            lo = hi;
        }
        let m = Matrix { rows, cols: p, data };
        proof {
            lemma_product_view(*self, *other, m);
        }
        Ok(m)
    }

    /// A matrix of the same shape with `func` applied to every element.
    /// `func` may be any pure transform total on the element type.
    #[verifier::loop_isolation(false)]
    pub fn apply_function<F: Fn(i64) -> i64>(&self, func: F) -> (m: Matrix)
        requires
            self.wf(),
            forall|x: i64| func.requires((x,)),
        ensures
            m.wf(),
            m.rows == self.rows,
            m.cols == self.cols,
            forall|i: int, j: int|
                0 <= i < self.rows && 0 <= j < self.cols ==> func.ensures(
                    (self@[i][j],),
                    #[trigger] m@[i][j],
                ),
    {
        let n = self.data.len();
        let mut data: Vec<i64> = Vec::new();
        let mut t: usize = 0;
        while t < n
            invariant
                t <= n,
                data@.len() == t,
                forall|q: int| 0 <= q < t ==> func.ensures((self.data@[q],), #[trigger] data@[q]),
            decreases n - t,
        {
            let v = func(self.data[t]);
            data.push(v);
            t = t + 1;
        }
        let m = Matrix { rows: self.rows, cols: self.cols, data };
        proof {
            assert forall|i: int, j: int| 0 <= i < self.rows && 0 <= j < self.cols implies
                func.ensures((self@[i][j],), #[trigger] m@[i][j]) by {
                lemma_row_major_index(self.rows as int, self.cols as int, i, j);
            }
        }
        m
    }
}

impl From<Vec<i64>> for Matrix {
    /// Wraps an owned buffer as the column vector it lists: an
    /// `n x 1` matrix.
    fn from(v: Vec<i64>) -> (m: Matrix) {
        let rows = v.len();
        Matrix { rows, cols: 1, data: v }
    }
}

impl vstd::std_specs::convert::FromSpecImpl<Vec<i64>> for Matrix {
    open spec fn obeys_from_spec() -> bool {
        true
    }

    open spec fn from_spec(v: Vec<i64>) -> Matrix {
        Matrix { rows: v@.len() as usize, cols: 1, data: v }
    }
}

impl PartialEq for Matrix {
    /// Two matrices are equal when their shapes and all their elements
    /// agree.
    fn eq(&self, other: &Matrix) -> (r: bool) {
        if self.rows != other.rows || self.cols != other.cols {
            return false;
        }
        let r = self.data == other.data;
        proof {
            if r {
                assert(self.data@ =~= other.data@);
            } else {
                assert(!(self.data@ =~= other.data@));
            }
        }
        r
    }
}

impl vstd::std_specs::cmp::PartialEqSpecImpl for Matrix {
    open spec fn obeys_eq_spec() -> bool {
        true
    }

    open spec fn eq_spec(&self, other: &Matrix) -> bool {
        self.rows == other.rows && self.cols == other.cols && self.data@ == other.data@
    }
}

/// A buffer of `n` zero elements.
fn zero_buffer(n: usize) -> (v: Vec<i64>)
    ensures
        v@.len() == n,
        forall|t: int| 0 <= t < n ==> v@[t] == 0i64,
{
    let mut v: Vec<i64> = Vec::new();
    let mut t: usize = 0;
    while t < n
        invariant
            t <= n,
            v@.len() == t,
            forall|q: int| 0 <= q < t ==> v@[q] == 0i64,
        decreases n - t,
    {
        v.push(0i64);
        t = t + 1;
    }
    v
}

/// One worker's share of the rows: the row count divided evenly over the
/// workers, rounded up, and at least one so that partitioning always
/// makes progress.
fn row_chunk(rows: usize, workers: usize) -> (chunk: usize)
    requires
        workers >= 1,
    ensures
        chunk >= 1,
{
    if rows == 0 {
        1
    } else {
        let d = (rows - 1) / workers;
        proof {
            assert(d <= rows - 1) by (nonlinear_arith)
                requires
                    rows >= 1,
                    workers >= 1,
                    d == (rows - 1) as int / workers as int,
            ;
        }
        d + 1
    }
}

/// Joining the next band of product rows onto the rows already joined
/// yields the product rows of the combined range.
proof fn lemma_join_rows(
    done: Seq<i64>,
    part: Seq<i64>,
    a: Seq<Seq<i64>>,
    b: Seq<Seq<i64>>,
    lo: int,
    hi: int,
    p: int,
    inner: int,
)
    requires
        0 <= lo <= hi,
        0 <= p,
        done.len() == lo * p,
        part.len() == (hi - lo) * p,
        forall|r: int, c: int|
            0 <= r < lo && 0 <= c < p ==> done[#[trigger] off(r, c, p)] == dot_prefix(
                a,
                b,
                r,
                c,
                inner,
            ),
        forall|r: int, c: int|
            0 <= r < hi - lo && 0 <= c < p ==> part[#[trigger] off(r, c, p)] == dot_prefix(
                a,
                b,
                lo + r,
                c,
                inner,
            ),
    ensures
        (done + part).len() == hi * p,
        forall|r: int, c: int|
            0 <= r < hi && 0 <= c < p ==> (done + part)[#[trigger] off(r, c, p)] == dot_prefix(
                a,
                b,
                r,
                c,
                inner,
            ),
{
    lemma_mul_distribute(lo, hi - lo, p);
    assert forall|r: int, c: int| 0 <= r < hi && 0 <= c < p implies (done + part)[#[trigger] off(
        r,
        c,
        p,
    )] == dot_prefix(a, b, r, c, inner) by {
        if r < lo {
            lemma_row_major_index(lo, p, r, c);
        } else {
            lemma_row_major_index(hi - lo, p, r - lo, c);
            lemma_mul_distribute(lo, r - lo, p);
            assert(off(r, c, p) == lo * p + off(r - lo, c, p));
        }
    }
}

/// A matrix wrapped around a buffer of full dot products over the whole
/// row range denotes the product grid.
proof fn lemma_product_view(a: Matrix, b: Matrix, m: Matrix)
    requires
        a.wf(),
        b.wf(),
        a.cols == b.rows,
        m.rows == a.rows,
        m.cols == b.cols,
        m.data@.len() == m.rows * m.cols,
        forall|r: int, c: int|
            0 <= r < m.rows && 0 <= c < m.cols ==> m.data@[#[trigger] off(r, c, m.cols as int)]
                == dot_prefix(a@, b@, r, c, a.cols as int),
    ensures
        m.wf(),
        m@ == grid_mul(a@, b@, a.cols as int, b.cols as int),
{
    assert forall|r: int, c: int| 0 <= r < m.rows && 0 <= c < m.cols implies m@[r][c] == dot_prefix(
        a@,
        b@,
        r,
        c,
        a.cols as int,
    ) by {
        lemma_row_major_index(m.rows as int, m.cols as int, r, c);
    }
    assert(m@ =~~= grid_mul(a@, b@, a.cols as int, b.cols as int));
}

/// Relies on rand's `thread_rng` and `Rng::gen::<i64>`: one 64-bit value
/// drawn from the process-wide random source. Nothing is promised of it.
#[verifier::external_body]
pub(crate) fn random_element() -> i64 {
    rand::thread_rng().gen::<i64>()
}

} // verus!
