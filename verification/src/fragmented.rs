//! The fragmented matrix layout: one independently owned buffer per row.
//!
//! Cross-row access is not guaranteed contiguous, which makes this the
//! deliberate worst-case locality baseline. It carries the naive
//! triple-loop (i-j-k) multiplication strategy.

use vstd::prelude::*;

use crate::error::MatrixError;
use crate::grid::dot_prefix;
use crate::grid::grid_add;
use crate::grid::grid_hadamard;
use crate::grid::grid_identity;
use crate::grid::grid_mul;
use crate::grid::grid_sub;
use crate::grid::grid_transpose;
use crate::grid::grid_zeros;
use crate::grid::wadd;
use crate::grid::wmul;
use crate::contiguous::random_element;
use crate::grid::wsub;

verus! {

/// A row-major matrix stored as `rows` independently owned rows of
/// `cols` elements each.
#[derive(Clone, Debug)]
pub struct Matrix {
    pub rows: usize,
    pub cols: usize,
    pub data: Vec<Vec<i64>>,
}

impl View for Matrix {
    type V = Seq<Seq<i64>>;

    /// The grid this matrix denotes: row `i` is the contents of the
    /// `i`-th row buffer.
    open spec fn view(&self) -> Seq<Seq<i64>> {
        Seq::new(self.rows as nat, |i: int| self.data@[i]@)
    }
}

/// The index of the first row of `d`, at or after position `i`, whose
/// length differs from `cols`; the row count when every such row fits.
pub open spec fn first_short_row(d: Seq<Vec<i64>>, cols: int, i: int) -> int
    decreases d.len() - i,
{
    if i < 0 || i >= d.len() {
        d.len() as int
    } else if d[i]@.len() != cols {
        i
    } else {
        first_short_row(d, cols, i + 1)
    }
}

impl Matrix {
    /// There is one row buffer per row, each of exactly `cols` elements.
    pub open spec fn wf(self) -> bool {
        &&& self.data@.len() == self.rows
        &&& forall|i: int| 0 <= i < self.rows ==> (#[trigger] self.data@[i])@.len() == self.cols
    }

    /// Constructs a matrix around caller-supplied rows. Fails with
    /// `ShapeMismatch` exactly when the row count differs from `rows` or
    /// some row's length differs from `cols`; the error carries the
    /// offending length: the row count, or the first offending row's
    /// length.
    #[verifier::loop_isolation(false)]
    pub fn new(rows: usize, cols: usize, data: Vec<Vec<i64>>) -> (r: Result<Matrix, MatrixError>)
        ensures
            r is Ok <==> (data@.len() == rows && forall|i: int|
                0 <= i < rows ==> (#[trigger] data@[i])@.len() == cols),
            match r {
                Ok(m) => m.rows == rows && m.cols == cols && m.data@ == data@ && m.wf(),
                Err(e) => e == (MatrixError::ShapeMismatch {
                    rows,
                    cols,
                    len: (if data@.len() != rows {
                        data@.len()
                    } else {
                        data@[first_short_row(data@, cols as int, 0)]@.len()
                    }) as usize,
                }),
            },
    {
        if data.len() != rows {
            let len = data.len();
            return Err(MatrixError::ShapeMismatch { rows, cols, len });
        }
        let mut i: usize = 0;
        while i < rows
            invariant
                i <= rows,
                forall|q: int| 0 <= q < i ==> (#[trigger] data@[q])@.len() == cols,
                first_short_row(data@, cols as int, 0) == first_short_row(data@, cols as int, i as int),
            decreases rows - i,
        {
            let len = data[i].len();
            if len != cols {
                return Err(MatrixError::ShapeMismatch { rows, cols, len });
            }
            i = i + 1;
        }
        Ok(Matrix { rows, cols, data })
    }

    /// The all-zero matrix of the given shape.
    #[verifier::loop_isolation(false)]
    pub fn zeros(rows: usize, cols: usize) -> (m: Matrix)
        ensures
            m.wf(),
            m.rows == rows,
            m.cols == cols,
            m@ == grid_zeros(rows as int, cols as int),
    {
        let mut data: Vec<Vec<i64>> = Vec::new();
        let mut i: usize = 0;
        while i < rows
            invariant
                i <= rows,
                data@.len() == i,
                forall|q: int|
                    0 <= q < i ==> (#[trigger] data@[q])@ == Seq::new(
                        cols as nat,
                        |j: int| 0i64,
                    ),
            decreases rows - i,
        {
            let row = zero_row(cols);
            data.push(row);
            i = i + 1;
        }
        let m = Matrix { rows, cols, data };
        proof {
            assert(m@ =~~= grid_zeros(rows as int, cols as int));
        }
        m
    }

    /// The square matrix with ones on the main diagonal.
    #[verifier::loop_isolation(false)]
    pub fn identity(size: usize) -> (m: Matrix)
        ensures
            m.wf(),
            m.rows == size,
            m.cols == size,
            m@ == grid_identity(size as int),
    {
        let mut data: Vec<Vec<i64>> = Vec::new();
        let mut i: usize = 0;
        while i < size
            invariant
                i <= size,
                data@.len() == i,
                forall|q: int| 0 <= q < i ==> (#[trigger] data@[q])@.len() == size,
                forall|q: int, c: int|
                    #![trigger data@[q]@[c]]
                    0 <= q < i && 0 <= c < size ==> data@[q]@[c] == (if q == c {
                        1i64
                    } else {
                        0i64
                    }),
            decreases size - i,
        {
            let mut row: Vec<i64> = Vec::new();
            let mut j: usize = 0;
            while j < size
                invariant
                    j <= size,
                    row@.len() == j,
                    forall|c: int|
                        0 <= c < j ==> row@[c] == (if i == c {
                            1i64
                        } else {
                            0i64
                        }),
                decreases size - j,
            {
                if j == i {
                    row.push(1i64);
                } else {
                    row.push(0i64);
                }
                j = j + 1;
            }
            data.push(row);
            i = i + 1;
        }
        let m = Matrix { rows: size, cols: size, data };
        proof {
            assert(m@ =~~= grid_identity(size as int));
        }
        m
    }

    /// A matrix of the given shape whose elements are drawn from the
    /// process-wide random source.
    #[verifier::loop_isolation(false)]
    pub fn random(rows: usize, cols: usize) -> (m: Matrix)
        ensures
            m.wf(),
            m.rows == rows,
            m.cols == cols,
    {
        let mut data: Vec<Vec<i64>> = Vec::new();
        let mut i: usize = 0;
        while i < rows
            invariant
                i <= rows,
                data@.len() == i,
                forall|q: int| 0 <= q < i ==> (#[trigger] data@[q])@.len() == cols,
            decreases rows - i,
        {
            let mut row: Vec<i64> = Vec::new();
            let mut j: usize = 0;
            while j < cols
                invariant
                    j <= cols,
                    row@.len() == j,
                decreases cols - j,
            {
                row.push(random_element());
                j = j + 1;
            }
            data.push(row);
            i = i + 1;
        }
        Matrix { rows, cols, data }
    }

    /// Elementwise sum. Fails with `DimensionMismatch` exactly when the
    /// shapes differ.
    #[verifier::loop_isolation(false)]
    pub fn add(&self, other: &Matrix) -> (r: Result<Matrix, MatrixError>)
        requires
            self.wf(),
            other.wf(),
        ensures
            r is Ok <==> (self.rows == other.rows && self.cols == other.cols),
            match r {
                Ok(m) => m.wf() && m.rows == self.rows && m.cols == self.cols && m@ == grid_add(
                    self@,
                    other@,
                ),
                Err(e) => e == (MatrixError::DimensionMismatch {
                    left_rows: self.rows,
                    left_cols: self.cols,
                    right_rows: other.rows,
                    right_cols: other.cols,
                }),
            },
    {
        if self.rows != other.rows || self.cols != other.cols {
            return Err(MatrixError::DimensionMismatch {
                left_rows: self.rows,
                left_cols: self.cols,
                right_rows: other.rows,
                right_cols: other.cols,
            });
        }
        let rows = self.rows;
        let cols = self.cols;
        let mut data: Vec<Vec<i64>> = Vec::new();
        let mut i: usize = 0;
        while i < rows
            invariant
                i <= rows,
                data@.len() == i,
                forall|q: int| 0 <= q < i ==> (#[trigger] data@[q])@.len() == cols,
                forall|q: int, c: int|
                    #![trigger data@[q]@[c]]
                    0 <= q < i && 0 <= c < cols ==> data@[q]@[c] == wadd(self@[q][c], other@[q][c]),
            decreases rows - i,
        {
            let mut row: Vec<i64> = Vec::new();
            let mut j: usize = 0;
            while j < cols
                invariant
                    j <= cols,
                    i < rows,
                    row@.len() == j,
                    forall|c: int| 0 <= c < j ==> row@[c] == wadd(self@[i as int][c], other@[i as int][c]),
                decreases cols - j,
            {
                let v = self.data[i][j].wrapping_add(other.data[i][j]);
                row.push(v);
                j = j + 1;
            }
            data.push(row);
            i = i + 1;
        }
        let m = Matrix { rows, cols, data };
        proof {
            assert(m@ =~~= grid_add(self@, other@));
        }
        Ok(m)
    }

    /// Elementwise difference. Fails with `DimensionMismatch` exactly
    /// when the shapes differ.
    #[verifier::loop_isolation(false)]
    pub fn subtract(&self, other: &Matrix) -> (r: Result<Matrix, MatrixError>)
        requires
            self.wf(),
            other.wf(),
        ensures
            r is Ok <==> (self.rows == other.rows && self.cols == other.cols),
            match r {
                Ok(m) => m.wf() && m.rows == self.rows && m.cols == self.cols && m@ == grid_sub(
                    self@,
                    other@,
                ),
                Err(e) => e == (MatrixError::DimensionMismatch {
                    left_rows: self.rows,
                    left_cols: self.cols,
                    right_rows: other.rows,
                    right_cols: other.cols,
                }),
            },
    {
        if self.rows != other.rows || self.cols != other.cols {
            return Err(MatrixError::DimensionMismatch {
                left_rows: self.rows,
                left_cols: self.cols,
                right_rows: other.rows,
                right_cols: other.cols,
            });
        }
        let rows = self.rows;
        let cols = self.cols;
        let mut data: Vec<Vec<i64>> = Vec::new();
        let mut i: usize = 0;
        while i < rows
            invariant
                i <= rows,
                data@.len() == i,
                forall|q: int| 0 <= q < i ==> (#[trigger] data@[q])@.len() == cols,
                forall|q: int, c: int|
                    #![trigger data@[q]@[c]]
                    0 <= q < i && 0 <= c < cols ==> data@[q]@[c] == wsub(self@[q][c], other@[q][c]),
            decreases rows - i,
        {
            let mut row: Vec<i64> = Vec::new();
            let mut j: usize = 0;
            while j < cols
                invariant
                    j <= cols,
                    i < rows,
                    row@.len() == j,
                    forall|c: int| 0 <= c < j ==> row@[c] == wsub(self@[i as int][c], other@[i as int][c]),
                decreases cols - j,
            {
                let v = self.data[i][j].wrapping_sub(other.data[i][j]);
                row.push(v);
                j = j + 1;
            }
            data.push(row);
            i = i + 1;
        }
        let m = Matrix { rows, cols, data };
        proof {
            assert(m@ =~~= grid_sub(self@, other@));
        }
        Ok(m)
    }

    /// The matrix product, computed with the naive i-j-k triple loop:
    /// each output cell accumulates its full dot product before the
    /// traversal moves on. Fails with `DimensionMismatch` exactly when
    /// the inner dimensions disagree.
    #[verifier::loop_isolation(false)]
    pub fn multiply(&self, other: &Matrix) -> (r: Result<Matrix, MatrixError>)
        requires
            self.wf(),
            other.wf(),
        ensures
            r is Ok <==> self.cols == other.rows,
            match r {
                Ok(m) => m.wf() && m.rows == self.rows && m.cols == other.cols && m@ == grid_mul(
                    self@,
                    other@,
                    self.cols as int,
                    other.cols as int,
                ),
                Err(e) => e == (MatrixError::DimensionMismatch {
                    left_rows: self.rows,
                    left_cols: self.cols,
                    right_rows: other.rows,
                    right_cols: other.cols,
                }),
            },
    {
        if self.cols != other.rows {
            return Err(MatrixError::DimensionMismatch {
                left_rows: self.rows,
                left_cols: self.cols,
                right_rows: other.rows,
                right_cols: other.cols,
            });
        }
        let rows = self.rows;
        let inner = self.cols;
        let cols = other.cols;
        let mut data: Vec<Vec<i64>> = Vec::new();
        let mut i: usize = 0;
        while i < rows
            invariant
                i <= rows,
                data@.len() == i,
                forall|q: int| 0 <= q < i ==> (#[trigger] data@[q])@.len() == cols,
                forall|q: int, c: int|
                    #![trigger data@[q]@[c]]
                    0 <= q < i && 0 <= c < cols ==> data@[q]@[c] == dot_prefix(self@, other@, q, c, inner as int),
            decreases rows - i,
        {
            let mut row: Vec<i64> = Vec::new();
            let mut j: usize = 0;
            while j < cols
                invariant
                    j <= cols,
                    i < rows,
                    row@.len() == j,
                    forall|c: int|
                        0 <= c < j ==> row@[c] == dot_prefix(self@, other@, i as int, c, inner as int),
                decreases cols - j,
            {
                let mut sum: i64 = 0;
                let mut k: usize = 0;
                while k < inner
                    invariant
                        k <= inner,
                        i < rows,
                        j < cols,
                        sum == dot_prefix(self@, other@, i as int, j as int, k as int),
                    decreases inner - k,
                {
                    sum = sum.wrapping_add(self.data[i][k].wrapping_mul(other.data[k][j]));
                    k = k + 1;
                }
                row.push(sum);
                j = j + 1;
            }
            data.push(row);
            i = i + 1;
        }
        let m = Matrix { rows, cols, data };
        proof {
            assert(m@ =~~= grid_mul(self@, other@, inner as int, cols as int));
        }
        Ok(m)
    }

    /// The elementwise (Hadamard) product. Fails with `DimensionMismatch`
    /// exactly when the shapes differ.
    #[verifier::loop_isolation(false)]
    pub fn hadamard_product(&self, other: &Matrix) -> (r: Result<Matrix, MatrixError>)
        requires
            self.wf(),
            other.wf(),
        ensures
            r is Ok <==> (self.rows == other.rows && self.cols == other.cols),
            match r {
                Ok(m) => m.wf() && m.rows == self.rows && m.cols == self.cols && m@
                    == grid_hadamard(self@, other@),
                Err(e) => e == (MatrixError::DimensionMismatch {
                    left_rows: self.rows,
                    left_cols: self.cols,
                    right_rows: other.rows,
                    right_cols: other.cols,
                }),
            },
    {
        if self.rows != other.rows || self.cols != other.cols {
            return Err(MatrixError::DimensionMismatch {
                left_rows: self.rows,
                left_cols: self.cols,
                right_rows: other.rows,
                right_cols: other.cols,
            });
        }
        let rows = self.rows;
        let cols = self.cols;
        let mut data: Vec<Vec<i64>> = Vec::new();
        let mut i: usize = 0;
        while i < rows
            invariant
                i <= rows,
                data@.len() == i,
                forall|q: int| 0 <= q < i ==> (#[trigger] data@[q])@.len() == cols,
                forall|q: int, c: int|
                    #![trigger data@[q]@[c]]
                    0 <= q < i && 0 <= c < cols ==> data@[q]@[c] == wmul(self@[q][c], other@[q][c]),
            decreases rows - i,
        {
            let mut row: Vec<i64> = Vec::new();
            let mut j: usize = 0;
            while j < cols
                invariant
                    j <= cols,
                    i < rows,
                    row@.len() == j,
                    forall|c: int| 0 <= c < j ==> row@[c] == wmul(self@[i as int][c], other@[i as int][c]),
                decreases cols - j,
            {
                let v = self.data[i][j].wrapping_mul(other.data[i][j]);
                row.push(v);
                j = j + 1;
            }
            data.push(row);
            i = i + 1;
        }
        let m = Matrix { rows, cols, data };
        proof {
            assert(m@ =~~= grid_hadamard(self@, other@));
        }
        Ok(m)
    }

    /// The transpose: element `(j, i)` of the result is element `(i, j)`
    /// of `self`.
    #[verifier::loop_isolation(false)]
    pub fn transpose(&self) -> (m: Matrix)
        requires
            self.wf(),
        ensures
            m.wf(),
            m.rows == self.cols,
            m.cols == self.rows,
            m@ == grid_transpose(self@, self.rows as int, self.cols as int),
    {
        let rows = self.rows;
        let cols = self.cols;
        let mut data: Vec<Vec<i64>> = Vec::new();
        let mut j: usize = 0;
        while j < cols
            invariant
                j <= cols,
                data@.len() == j,
                forall|q: int| 0 <= q < j ==> (#[trigger] data@[q])@.len() == rows,
                forall|q: int, r: int|
                    #![trigger data@[q]@[r]]
                    0 <= q < j && 0 <= r < rows ==> data@[q]@[r] == self@[r][q],
            decreases cols - j,
        {
            let mut row: Vec<i64> = Vec::new();
            let mut i: usize = 0;
            while i < rows
                invariant
                    i <= rows,
                    j < cols,
                    row@.len() == i,
                    forall|r: int| 0 <= r < i ==> row@[r] == self@[r][j as int],
                decreases rows - i,
            {
                let v = self.data[i][j];
                row.push(v);
                i = i + 1;
            }
            data.push(row);
            j = j + 1;
        }
        let m = Matrix { rows: cols, cols: rows, data };
        proof {
            assert(m@ =~~= grid_transpose(self@, self.rows as int, self.cols as int));
        }
        m
    }

    /// A matrix of the same shape with `func` applied to every element.
    /// `func` may be any pure transform total on the element type.
    #[verifier::loop_isolation(false)]
    pub fn apply_function<F: Fn(i64) -> i64>(&self, func: F) -> (m: Matrix)
        requires
            self.wf(),
            forall|x: i64| func.requires((x,)),
        ensures
            m.wf(),
            m.rows == self.rows,
            m.cols == self.cols,
            forall|i: int, j: int|
                0 <= i < self.rows && 0 <= j < self.cols ==> func.ensures(
                    (self@[i][j],),
                    #[trigger] m@[i][j],
                ),
    {
        let rows = self.rows;
        let cols = self.cols;
        let mut data: Vec<Vec<i64>> = Vec::new();
        let mut i: usize = 0;
        while i < rows
            invariant
                i <= rows,
                data@.len() == i,
                forall|q: int| 0 <= q < i ==> (#[trigger] data@[q])@.len() == cols,
                forall|q: int, c: int|
                    #![trigger data@[q]@[c]]
                    0 <= q < i && 0 <= c < cols ==> func.ensures((self@[q][c],), data@[q]@[c]),
            decreases rows - i,
        {
            let mut row: Vec<i64> = Vec::new();
            let mut j: usize = 0;
            while j < cols
                invariant
                    j <= cols,
                    i < rows,
                    row@.len() == j,
                    forall|c: int| 0 <= c < j ==> func.ensures((self@[i as int][c],), #[trigger] row@[c]),
                decreases cols - j,
            {
                let v = func(self.data[i][j]);
                row.push(v);
                j = j + 1;
            }
            data.push(row);
            i = i + 1;
        }
        let m = Matrix { rows, cols, data };
        m
    }
}

impl From<Vec<i64>> for Matrix {
    /// Wraps an owned buffer as the column vector it lists: an `n x 1`
    /// matrix with each element in a row of its own.
    fn from(v: Vec<i64>) -> (m: Matrix) {
        Matrix::from_column(v)
    }
}

impl vstd::std_specs::convert::FromSpecImpl<Vec<i64>> for Matrix {
    open spec fn obeys_from_spec() -> bool {
        false
    }

    open spec fn from_spec(v: Vec<i64>) -> Matrix {
        vstd::pervasive::arbitrary()
    }
}

impl Matrix {
    /// The column vector listing the elements of `v`: an `n x 1` matrix
    /// with each element in a row of its own. `From<Vec<i64>>` goes
    /// through here; no row buffer can be named in its specification, so
    /// this constructor carries the contract.
    #[verifier::loop_isolation(false)]
    pub fn from_column(v: Vec<i64>) -> (m: Matrix)
        ensures
            m.wf(),
            m.rows == v@.len(),
            m.cols == 1,
            forall|i: int| 0 <= i < v@.len() ==> #[trigger] m@[i] == seq![v@[i]],
    {
        let rows = v.len();
        let mut data: Vec<Vec<i64>> = Vec::new();
        let mut i: usize = 0;
        while i < rows
            invariant
                i <= rows,
                data@.len() == i,
                forall|q: int| 0 <= q < i ==> #[trigger] data@[q]@ == seq![v@[q]],
            decreases rows - i,
        {
            let mut row: Vec<i64> = Vec::new();
            row.push(v[i]);
            data.push(row);
            i = i + 1;
        }
        let m = Matrix { rows, cols: 1, data };
        proof {
            assert forall|i2: int| 0 <= i2 < v@.len() implies #[trigger] m@[i2] == seq![v@[i2]] by {
                assert(m@[i2] =~= seq![v@[i2]]);
            }
        }
        m
    }
}

impl PartialEq for Matrix {
    /// Two matrices are equal when their shapes, row counts and all
    /// their elements agree.
    fn eq(&self, other: &Matrix) -> (r: bool) {
        if self.rows != other.rows || self.cols != other.cols {
            return false;
        }
        if self.data.len() != other.data.len() {
            proof {
                let a = self.data@.map_values(|row: Vec<i64>| row@);
                let b = other.data@.map_values(|row: Vec<i64>| row@);
                assert(a.len() != b.len());
            }
            return false;
        }
        let n = self.data.len();
        let mut i: usize = 0;
        while i < n
            invariant
                i <= n,
                n == self.data@.len(),
                n == other.data@.len(),
                forall|q: int| 0 <= q < i ==> (#[trigger] self.data@[q])@ == other.data@[q]@,
            decreases n - i,
        {
            let same = self.data[i] == other.data[i];
            if !same {
                proof {
                    let a = self.data@.map_values(|row: Vec<i64>| row@);
                    let b = other.data@.map_values(|row: Vec<i64>| row@);
                    assert(self.data@[i as int]@ != other.data@[i as int]@);
                    assert(a[i as int] != b[i as int]);
                }
                return false;
            }
            proof {
                assert(self.data@[i as int]@ =~= other.data@[i as int]@);
            }
            i = i + 1;
        }
        proof {
            let a = self.data@.map_values(|row: Vec<i64>| row@);
            let b = other.data@.map_values(|row: Vec<i64>| row@);
            assert(a =~~= b);
        }
        true
    }
}

impl vstd::std_specs::cmp::PartialEqSpecImpl for Matrix {
    open spec fn obeys_eq_spec() -> bool {
        true
    }

    open spec fn eq_spec(&self, other: &Matrix) -> bool {
        &&& self.rows == other.rows
        &&& self.cols == other.cols
        &&& self.data@.map_values(|row: Vec<i64>| row@) == other.data@.map_values(
            |row: Vec<i64>| row@,
        )
    }
}

/// A row of `cols` zero elements.
fn zero_row(cols: usize) -> (v: Vec<i64>)
    ensures
        v@ == Seq::new(cols as nat, |j: int| 0i64),
{
    let mut v: Vec<i64> = Vec::new();
    let mut t: usize = 0;
    while t < cols
        invariant
            t <= cols,
            v@.len() == t,
            forall|q: int| 0 <= q < t ==> v@[q] == 0i64,
        decreases cols - t,
    {
        v.push(0i64);
        t = t + 1;
    }
    proof {
        assert(v@ =~= Seq::new(cols as nat, |j: int| 0i64));
    }
    v
}

} // verus!
