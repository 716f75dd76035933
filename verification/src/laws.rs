//! Algebraic laws of the matrix engine, stated over the grid model and
//! proved for every input. Because the element domain is a total ring
//! (64-bit wraparound arithmetic), each law holds exactly, with no
//! tolerance and no bound on magnitudes.
//!
//! One family of laws lives in the operations' own contracts rather
//! than here: every multiplication strategy, sequential or
//! row-partitioned, ensures the same `grid_mul` result, so agreement
//! across strategies and independence from the worker count follow
//! directly from those contracts; `lemma_variants_agree` records the
//! step.

use vstd::prelude::*;

use crate::grid::dot_prefix;
use crate::grid::grid_add;
use crate::grid::grid_hadamard;
use crate::grid::grid_identity;
use crate::grid::grid_map;
use crate::grid::grid_mul;
use crate::grid::grid_sub;
use crate::grid::grid_transpose;
use crate::grid::grid_wf;
use crate::grid::grid_zeros;
use crate::grid::lemma_wadd_zero;
use crate::grid::lemma_wmul_commutative;
use crate::grid::lemma_wmul_unit;
use crate::grid::lemma_wsub_self;
use crate::grid::wmul;

verus! {

/// Every multiplication strategy computes the one product grid: any two
/// results that meet the multiply contracts are equal, and they have the
/// `a.len() x cols` shape of the product.
pub proof fn lemma_variants_agree(
    a: Seq<Seq<i64>>,
    b: Seq<Seq<i64>>,
    inner: int,
    cols: int,
    r1: Seq<Seq<i64>>,
    r2: Seq<Seq<i64>>,
)
    requires
        0 <= cols,
        r1 == grid_mul(a, b, inner, cols),
        r2 == grid_mul(a, b, inner, cols),
    ensures
        r1 == r2,
        grid_wf(r1, a.len() as int, cols),
{
}

/// Transposing twice gives back the original grid, exactly.
pub proof fn lemma_transpose_involutive(g: Seq<Seq<i64>>, rows: int, cols: int)
    requires
        grid_wf(g, rows, cols),
        0 <= cols,
    ensures
        grid_transpose(grid_transpose(g, rows, cols), cols, rows) == g,
{
    let t = grid_transpose(g, rows, cols);
    let tt = grid_transpose(t, cols, rows);
    assert forall|i: int| 0 <= i < rows implies tt[i] =~= g[i] by {}
    assert(tt =~~= g);
}

/// Adding the zero grid of matching shape changes nothing, exactly.
pub proof fn lemma_add_zero(g: Seq<Seq<i64>>, rows: int, cols: int)
    requires
        grid_wf(g, rows, cols),
        0 <= cols,
    ensures
        grid_add(g, grid_zeros(rows, cols)) == g,
{
    let s = grid_add(g, grid_zeros(rows, cols));
    assert forall|i: int| 0 <= i < rows implies s[i] =~= g[i] by {
        assert forall|j: int| 0 <= j < cols implies s[i][j] == g[i][j] by {
            lemma_wadd_zero(g[i][j]);
        }
    }
    assert(s =~~= g);
}

/// Subtracting a grid from itself gives the zero grid of its shape,
/// exactly.
pub proof fn lemma_sub_self(g: Seq<Seq<i64>>, rows: int, cols: int)
    requires
        grid_wf(g, rows, cols),
        0 <= cols,
    ensures
        grid_sub(g, g) == grid_zeros(rows, cols),
{
    let s = grid_sub(g, g);
    let z = grid_zeros(rows, cols);
    assert forall|i: int| 0 <= i < rows implies s[i] =~= z[i] by {
        assert forall|j: int| 0 <= j < cols implies s[i][j] == 0i64 by {
            lemma_wsub_self(g[i][j]);
        }
    }
    assert(s =~~= z);
}

/// The elementwise product is commutative.
pub proof fn lemma_hadamard_commutative(a: Seq<Seq<i64>>, b: Seq<Seq<i64>>, rows: int, cols: int)
    requires
        grid_wf(a, rows, cols),
        grid_wf(b, rows, cols),
        0 <= cols,
    ensures
        grid_hadamard(a, b) == grid_hadamard(b, a),
{
    let ab = grid_hadamard(a, b);
    let ba = grid_hadamard(b, a);
    assert forall|i: int| 0 <= i < rows implies ab[i] =~= ba[i] by {
        assert forall|j: int| 0 <= j < cols implies ab[i][j] == ba[i][j] by {
            lemma_wmul_commutative(a[i][j], b[i][j]);
        }
    }
    assert(ab =~~= ba);
}

/// The elementwise product of a grid with itself is the grid with every
/// element squared.
pub proof fn lemma_hadamard_self_squares(g: Seq<Seq<i64>>, rows: int, cols: int)
    requires
        grid_wf(g, rows, cols),
        0 <= cols,
    ensures
        grid_hadamard(g, g) == grid_map(g, |x: i64| wmul(x, x)),
{
    let h = grid_hadamard(g, g);
    let sq = grid_map(g, |x: i64| wmul(x, x));
    assert forall|i: int| 0 <= i < rows implies h[i] =~= sq[i] by {}
    assert(h =~~= sq);
}

/// The first `n` terms of a dot product against an identity column `j`
/// collapse to the single surviving term: zero while `n` has not passed
/// `j`, and element `(i, j)` after it has.
proof fn lemma_dot_identity_right(g: Seq<Seq<i64>>, rows: int, size: int, i: int, j: int, n: int)
    requires
        grid_wf(g, rows, size),
        0 <= i < rows,
        0 <= j < size,
        0 <= n <= size,
    ensures
        dot_prefix(g, grid_identity(size), i, j, n) == (if n <= j {
            0i64
        } else {
            g[i][j]
        }),
    decreases n,
{
    if n > 0 {
        lemma_dot_identity_right(g, rows, size, i, j, n - 1);
        let prev = dot_prefix(g, grid_identity(size), i, j, n - 1);
        let term = wmul(g[i][n - 1], grid_identity(size)[n - 1][j]);
        if n - 1 == j {
            lemma_wmul_unit(g[i][j]);
            lemma_wadd_zero(g[i][j]);
        } else {
            lemma_wmul_unit(g[i][n - 1]);
            if n - 1 > j {
                lemma_wadd_zero(g[i][j]);
            } else {
                lemma_wadd_zero(0i64);
            }
        }
    }
}

/// Multiplying on the right by the identity of matching dimension gives
/// back the original grid, exactly.
pub proof fn lemma_mul_identity_right(g: Seq<Seq<i64>>, rows: int, cols: int)
    requires
        grid_wf(g, rows, cols),
        0 <= cols,
    ensures
        grid_mul(g, grid_identity(cols), cols, cols) == g,
{
    let p = grid_mul(g, grid_identity(cols), cols, cols);
    assert forall|i: int| 0 <= i < rows implies p[i] =~= g[i] by {
        assert forall|j: int| 0 <= j < cols implies p[i][j] == g[i][j] by {
            lemma_dot_identity_right(g, rows, cols, i, j, cols);
        }
    }
    assert(p =~~= g);
}

/// The first `n` terms of a dot product of identity row `i` against a
/// column of `g` collapse to the single surviving term: zero while `n`
/// has not passed `i`, and element `(i, j)` after it has.
proof fn lemma_dot_identity_left(g: Seq<Seq<i64>>, rows: int, cols: int, i: int, j: int, n: int)
    requires
        grid_wf(g, rows, cols),
        0 <= i < rows,
        0 <= j < cols,
        0 <= n <= rows,
    ensures
        dot_prefix(grid_identity(rows), g, i, j, n) == (if n <= i {
            0i64
        } else {
            g[i][j]
        }),
    decreases n,
{
    if n > 0 {
        lemma_dot_identity_left(g, rows, cols, i, j, n - 1);
        if n - 1 == i {
            lemma_wmul_unit(g[i][j]);
            lemma_wadd_zero(g[i][j]);
        } else {
            lemma_wmul_unit(g[n - 1][j]);
            if n - 1 > i {
                lemma_wadd_zero(g[i][j]);
            } else {
                lemma_wadd_zero(0i64);
            }
        }
    }
}

/// Multiplying on the left by the identity of matching dimension gives
/// back the original grid, exactly.
pub proof fn lemma_mul_identity_left(g: Seq<Seq<i64>>, rows: int, cols: int)
    requires
        grid_wf(g, rows, cols),
        0 <= rows,
        0 <= cols,
    ensures
        grid_mul(grid_identity(rows), g, rows, cols) == g,
{
    let p = grid_mul(grid_identity(rows), g, rows, cols);
    assert(grid_identity(rows).len() == rows);
    assert forall|i: int| 0 <= i < rows implies p[i] =~= g[i] by {
        assert forall|j: int| 0 <= j < cols implies p[i][j] == g[i][j] by {
            lemma_dot_identity_left(g, rows, cols, i, j, rows);
        }
    }
    assert(p =~~= g);
    assert(p.len() == rows == g.len());
}

} // verus!
