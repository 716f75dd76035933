//! The mathematical model shared by both matrix layouts.
//!
//! A matrix is modelled as a grid: a sequence of rows, each a sequence of
//! 64-bit elements. Element arithmetic is two's-complement wraparound
//! addition, subtraction and multiplication, so the element domain is a
//! total ring and every operation below is defined for all inputs.

use vstd::prelude::*;

verus! {

/// Wraparound addition of two elements.
pub open spec fn wadd(a: i64, b: i64) -> i64 {
    vstd::wrapping::i64_specs::wrapping_add(a, b)
}

/// Wraparound subtraction of two elements.
pub open spec fn wsub(a: i64, b: i64) -> i64 {
    vstd::wrapping::i64_specs::wrapping_sub(a, b)
}

/// Wraparound multiplication of two elements.
pub open spec fn wmul(a: i64, b: i64) -> i64 {
    vstd::wrapping::i64_specs::wrapping_mul(a, b)
}

/// A grid is well formed when it has exactly `rows` rows of `cols`
/// elements each.
pub open spec fn grid_wf(g: Seq<Seq<i64>>, rows: int, cols: int) -> bool {
    &&& g.len() == rows
    &&& forall|i: int| 0 <= i < rows ==> (#[trigger] g[i]).len() == cols
}

/// The all-zero grid of the given shape.
pub open spec fn grid_zeros(rows: int, cols: int) -> Seq<Seq<i64>> {
    Seq::new(rows as nat, |i: int| Seq::new(cols as nat, |j: int| 0i64))
}

/// The square grid with ones on the main diagonal and zeros elsewhere.
pub open spec fn grid_identity(n: int) -> Seq<Seq<i64>> {
    Seq::new(n as nat, |i: int| Seq::new(n as nat, |j: int| if i == j { 1i64 } else { 0i64 }))
}

/// Elementwise sum of two grids of equal shape.
pub open spec fn grid_add(a: Seq<Seq<i64>>, b: Seq<Seq<i64>>) -> Seq<Seq<i64>> {
    Seq::new(a.len(), |i: int| Seq::new(a[i].len(), |j: int| wadd(a[i][j], b[i][j])))
}

/// Elementwise difference of two grids of equal shape.
pub open spec fn grid_sub(a: Seq<Seq<i64>>, b: Seq<Seq<i64>>) -> Seq<Seq<i64>> {
    Seq::new(a.len(), |i: int| Seq::new(a[i].len(), |j: int| wsub(a[i][j], b[i][j])))
}

/// Elementwise (Hadamard) product of two grids of equal shape.
pub open spec fn grid_hadamard(a: Seq<Seq<i64>>, b: Seq<Seq<i64>>) -> Seq<Seq<i64>> {
    Seq::new(a.len(), |i: int| Seq::new(a[i].len(), |j: int| wmul(a[i][j], b[i][j])))
}

/// The grid with `f` applied to every element.
pub open spec fn grid_map(g: Seq<Seq<i64>>, f: spec_fn(i64) -> i64) -> Seq<Seq<i64>> {
    Seq::new(g.len(), |i: int| Seq::new(g[i].len(), |j: int| f(g[i][j])))
}

/// The transpose of a `rows x cols` grid.
pub open spec fn grid_transpose(g: Seq<Seq<i64>>, rows: int, cols: int) -> Seq<Seq<i64>> {
    Seq::new(cols as nat, |j: int| Seq::new(rows as nat, |i: int| g[i][j]))
}

/// The first `n` terms of the dot product of row `i` of `a` with column
/// `j` of `b`, accumulated left to right: the summation order every
/// multiplication strategy follows.
pub open spec fn dot_prefix(a: Seq<Seq<i64>>, b: Seq<Seq<i64>>, i: int, j: int, n: int) -> i64
    decreases n,
{
    if n <= 0 {
        0i64
    } else {
        wadd(dot_prefix(a, b, i, j, n - 1), wmul(a[i][n - 1], b[(n - 1) as int][j]))
    }
}

/// The `a.len() x cols` product grid: entry `(i, j)` is the full dot
/// product of row `i` of `a` with column `j` of `b`, over `inner` terms.
pub open spec fn grid_mul(a: Seq<Seq<i64>>, b: Seq<Seq<i64>>, inner: int, cols: int) -> Seq<Seq<i64>> {
    Seq::new(a.len(), |i: int| Seq::new(cols as nat, |j: int| dot_prefix(a, b, i, j, inner)))
}

/// The row-major linear offset of position `(i, j)` for the given row
/// width. Quantified facts about flat buffers are stated through this
/// function.
pub open spec fn off(i: int, j: int, cols: int) -> int {
    i * cols + j
}

/// Row-major linear offsets of in-range positions stay within the buffer.
pub proof fn lemma_row_major_index(rows: int, cols: int, i: int, j: int)
    by (nonlinear_arith)
    requires
        0 <= i < rows,
        0 <= j < cols,
    ensures
        0 <= i * cols + j < rows * cols,
{
}

/// Multiplying one more row extends the linear offset by one row width.
pub proof fn lemma_mul_succ(i: int, c: int)
    by (nonlinear_arith)
    ensures
        (i + 1) * c == i * c + c,
{
}

/// Multiplication by a nonnegative width is monotone in the row count.
pub proof fn lemma_mul_le(a: int, b: int, c: int)
    by (nonlinear_arith)
    requires
        a <= b,
        0 <= c,
    ensures
        a * c <= b * c,
{
}

/// Row counts distribute over multiplication by the width.
pub proof fn lemma_mul_distribute(a: int, b: int, c: int)
    by (nonlinear_arith)
    ensures
        (a + b) * c == a * c + b * c,
{
}

/// Adding zero leaves an element unchanged.
pub proof fn lemma_wadd_zero(x: i64)
    ensures
        wadd(x, 0) == x,
        wadd(0, x) == x,
{
}

/// Subtracting an element from itself gives zero.
pub proof fn lemma_wsub_self(x: i64)
    ensures
        wsub(x, x) == 0,
{
}

/// Multiplying by zero gives zero; multiplying by one is the identity.
pub proof fn lemma_wmul_unit(x: i64)
    ensures
        wmul(x, 0) == 0,
        wmul(0, x) == 0,
        wmul(x, 1) == x,
        wmul(1, x) == x,
{
    let m: int = 0x1_0000_0000_0000_0000;
    vstd::arithmetic::div_mod::lemma_small_mod(0nat, m as nat);
    if x >= 0 {
        vstd::arithmetic::div_mod::lemma_small_mod(x as nat, m as nat);
    } else {
        vstd::arithmetic::div_mod::lemma_mod_add_multiples_vanish(x as int, m);
        vstd::arithmetic::div_mod::lemma_small_mod((x + m) as nat, m as nat);
    }
}

/// Wraparound multiplication is commutative.
pub proof fn lemma_wmul_commutative(a: i64, b: i64)
    ensures
        wmul(a, b) == wmul(b, a),
{
    vstd::arithmetic::mul::lemma_mul_is_commutative(a as int, b as int);
}

/// Distinct in-range positions have distinct row-major linear offsets.
pub proof fn lemma_row_major_injective(cols: int, i1: int, j1: int, i2: int, j2: int)
    by (nonlinear_arith)
    requires
        0 <= j1 < cols,
        0 <= j2 < cols,
        0 <= i1,
        0 <= i2,
        i1 * cols + j1 == i2 * cols + j2,
    ensures
        i1 == i2 && j1 == j2,
{
}

} // verus!
