//! Table rendering: the layout arithmetic behind a matrix's text form.
//!
//! Every cell is shown centred in a column whose width is the longest
//! cell text, cells are separated by two spaces, and each row is
//! enclosed in `|` borders. The caller supplies the cell texts as plain
//! strings, one per position in row-major order.

use vstd::prelude::*;

use crate::grid::lemma_row_major_index;
use crate::grid::off;
use vstd::string::StrSliceExecFns;
use vstd::string::StringExecFns;

verus! {

/// `n` spaces.
pub open spec fn spaces(n: int) -> Seq<char>
    decreases n,
{
    if n <= 0 {
        Seq::<char>::empty()
    } else {
        spaces(n - 1).push(' ')
    }
}

/// `s` centred in a field of `w` characters: when `s` is short, the
/// missing space is split around it with the odd space on the right;
/// when `s` already fills the field, it stands unchanged.
pub open spec fn centered(s: Seq<char>, w: int) -> Seq<char> {
    if s.len() >= w {
        s
    } else {
        spaces((w - s.len()) / 2) + s + spaces(w - s.len() - (w - s.len()) / 2)
    }
}

/// The length of the longest of the first `t` cell texts.
pub open spec fn max_len(cells: Seq<Seq<char>>, t: int) -> int
    decreases t,
{
    if t <= 0 {
        0
    } else if cells[t - 1].len() > max_len(cells, t - 1) {
        cells[t - 1].len() as int
    } else {
        max_len(cells, t - 1)
    }
}

/// The first `j` cells of row `i`, centred to width `w` and separated
/// by two spaces; no separator follows the last cell of the row.
pub open spec fn row_text(cells: Seq<Seq<char>>, cols: int, w: int, i: int, j: int) -> Seq<char>
    decreases j,
{
    if j <= 0 {
        Seq::<char>::empty()
    } else {
        row_text(cells, cols, w, i, j - 1) + centered(cells[off(i, j - 1, cols)], w) + (if j < cols {
            "  "@
        } else {
            Seq::<char>::empty()
        })
    }
}

/// The first `i` rows of the table: each row between `|` borders, one
/// row per line.
pub open spec fn table_text(cells: Seq<Seq<char>>, cols: int, w: int, i: int) -> Seq<char>
    decreases i,
{
    if i <= 0 {
        Seq::<char>::empty()
    } else {
        table_text(cells, cols, w, i - 1) + "|"@ + row_text(cells, cols, w, i - 1, cols) + "|\n"@
    }
}

/// A string of `n` spaces.
fn space_string(n: usize) -> (r: String)
    ensures
        r@ == spaces(n as int),
{
    let mut r = String::new();
    let mut t: usize = 0;
    while t < n
        invariant
            t <= n,
            r@ == spaces(t as int),
        decreases n - t,
    {
        r.append(" ");
        proof {
            assert(spaces(t + 1) == spaces(t as int).push(' '));
            reveal_strlit(" ");
            assert(r@ =~= spaces(t + 1));
        }
        t = t + 1;
    }
    r
}

/// `s` centred in a field of `w` characters, as `centered` states it.
fn center_cell(s: &str, w: usize) -> (r: String)
    ensures
        r@ == centered(s@, w as int),
{
    let n = s.unicode_len();
    if n >= w {
        let mut r = String::new();
        r.append(s);
        proof {
            assert(r@ =~= s@);
        }
        r
    } else {
        let left = (w - n) / 2;
        let right = w - n - left;
        let mut r = space_string(left);
        r.append(s);
        let pad = space_string(right);
        r.append(pad.as_str());
        proof {
            assert(r@ =~= centered(s@, w as int));
        }
        r
    }
}

/// The full table over the given cell texts: `rows` lines, each showing
/// one row's cells centred to the width of the longest cell.
#[verifier::loop_isolation(false)]
pub fn render_table(cells: &Vec<String>, rows: usize, cols: usize) -> (r: String)
    requires
        cells@.len() == rows * cols,
    ensures
        r@ == table_text(
            cells@.map_values(|c: String| c@),
            cols as int,
            max_len(cells@.map_values(|c: String| c@), (rows * cols) as int),
            rows as int,
        ),
{
    let ghost texts = cells@.map_values(|c: String| c@);
    let total = cells.len();
    let mut w: usize = 0;
    let mut t: usize = 0;
    while t < total
        invariant
            t <= total,
            w == max_len(texts, t as int),
        decreases total - t,
    {
        let n = cells[t].unicode_len();
        if n > w {
            w = n;
        }
        t = t + 1;
    }
    let mut out = String::new();
    let mut i: usize = 0;
    while i < rows
        invariant
            i <= rows,
            out@ == table_text(texts, cols as int, w as int, i as int),
        decreases rows - i,
    {
        out.append("|");
        let mut j: usize = 0;
        while j < cols
            invariant
                j <= cols,
                i < rows,
                out@ == table_text(texts, cols as int, w as int, i as int) + "|"@ + row_text(
                    texts,
                    cols as int,
                    w as int,
                    i as int,
                    j as int,
                ),
            decreases cols - j,
        {
            proof {
                lemma_row_major_index(rows as int, cols as int, i as int, j as int);
            }
            let cell = center_cell(cells[i * cols + j].as_str(), w);
            out.append(cell.as_str());
            if j + 1 < cols {
                out.append("  ");
            }
            proof {
                assert(out@ =~= table_text(texts, cols as int, w as int, i as int) + "|"@
                    + row_text(texts, cols as int, w as int, i as int, j + 1));
            }
            j = j + 1;
        }
        out.append("|\n");
        proof {
            assert(out@ =~= table_text(texts, cols as int, w as int, i + 1));
        }
        i = i + 1;
    }
    out
}

} // verus!
