//! The boxed table in which a matrix is shown.

use crate::error::MatrixError;
use crate::matrix::Matrix;
use crate::view::{chunk, lemma_offset_bounds};
use vstd::prelude::*;
use vstd::string::StringExecFns;

verus! {

/// The width, in characters, that the text of one element is expected to
/// fill.
pub const ELEMENT_SIZE: usize = 5;

/// The texts of the elements, each as its sequence of characters.
pub open spec fn texts(fields: Seq<String>) -> Seq<Seq<char>> {
    Seq::new(fields.len(), |i: int| fields[i]@)
}

/// `k` spaces.
pub open spec fn spaces(k: nat) -> Seq<char> {
    Seq::new(k, |i: int| ' ')
}

/// How many spaces a border holds between those of its corners: one for each
/// character of a field and one for the space that follows it, and a single
/// one where there is no column.
pub open spec fn padding(n: nat) -> nat {
    if n == 0 {
        1
    } else {
        n * (ELEMENT_SIZE + 1) as nat
    }
}

/// A border of the table for `n` columns, between two corners.
pub open spec fn border(left: char, right: char, n: nat) -> Seq<char> {
    seq![left, ' '] + spaces(padding(n)) + seq![' ', right]
}

/// The first `k` texts of a row, each followed by a space.
pub open spec fn row_fields(row: Seq<Seq<char>>, k: nat) -> Seq<char>
    decreases k,
{
    if k == 0 {
        Seq::empty()
    } else {
        row_fields(row, (k - 1) as nat) + row[k - 1] + seq![' ']
    }
}

/// The line of one row: a new line, the left edge, the texts of the row and
/// the right edge.
pub open spec fn row_line(row: Seq<Seq<char>>) -> Seq<char> {
    seq!['\n', '│', ' '] + row_fields(row, row.len()) + seq![' ', '│']
}

/// The lines of the first `k` rows of a table of `n` columns.
pub open spec fn row_lines(fields: Seq<Seq<char>>, n: nat, k: nat) -> Seq<char>
    decreases k,
{
    if k == 0 {
        Seq::empty()
    } else {
        row_lines(fields, n, (k - 1) as nat) + row_line(chunk(fields, n as int, k - 1))
    }
}

/// The table of a matrix of dimension `n` whose elements have the texts
/// `fields`, in row-major order: the top border, one line for each row, and
/// the bottom border on a line of its own. The table of the empty matrix
/// holds a lone right edge where the rows would stand.
pub open spec fn table_text(n: nat, fields: Seq<Seq<char>>) -> Seq<char> {
    border('┌', '┐', n) + (if n == 0 {
        seq![' ', '│']
    } else {
        row_lines(fields, n, n)
    }) + seq!['\n'] + border('└', '┘', n) + seq!['\n']
}

/// Appends `k` spaces to `out`.
fn push_spaces(out: &mut String, k: usize)
    ensures
        final(out)@ == old(out)@ + spaces(k as nat),
{
    let mut i: usize = 0;
    assert(out@ =~= old(out)@ + spaces(0));
    while i < k
        invariant
            i <= k,
            out@ == old(out)@ + spaces(i as nat),
        decreases k - i,
    {
        let ghost before = out@;
        out.append(" ");
        proof {
            reveal_strlit(" ");
            assert(" "@ =~= seq![' ']);
            assert(before + seq![' '] =~= old(out)@ + spaces((i + 1) as nat));
        }
        i += 1;
    }
}

/// Appends to `out` a border for `n` columns: the corner `open`, the
/// padding, and the corner `close`.
fn push_border(out: &mut String, open: &str, close: &str, n: usize)
    requires
        n * (ELEMENT_SIZE + 1) <= usize::MAX,
    ensures
        final(out)@ == old(out)@ + open@ + spaces(padding(n as nat)) + close@,
{
    out.append(open);
    let width: usize = if n == 0 {
        1
    } else {
        n * (ELEMENT_SIZE + 1)
    };
    push_spaces(out, width);
    out.append(close);
}

impl<T> Matrix<T> {
    /// The table that shows the matrix, given the text of each of its
    /// elements in row-major order. The texts are refused unless there is one
    /// for each element.
    pub fn table(&self, fields: &Vec<String>) -> (r: Result<String, MatrixError>)
        ensures
            match r {
                Ok(text) => fields@.len() == self@.dim * self@.dim && text@ == table_text(
                    self@.dim,
                    texts(fields@),
                ),
                Err(e) => fields@.len() != self@.dim * self@.dim && e
                    == MatrixError::DimensionMismatch,
            },
    {
        let n: usize = self.size();
        if fields.len() != n * n {
            return Err(MatrixError::DimensionMismatch);
        }
        proof {
            reveal_strlit("┌ ");
            reveal_strlit(" ┐");
            reveal_strlit(" │");
            reveal_strlit("\n");
            reveal_strlit("└ ");
            reveal_strlit(" ┘");
            assert("┌ "@ =~= seq!['┌', ' ']);
            assert(" ┐"@ =~= seq![' ', '┐']);
            assert(" │"@ =~= seq![' ', '│']);
            assert("\n"@ =~= seq!['\n']);
            assert("└ "@ =~= seq!['└', ' ']);
            assert(" ┘"@ =~= seq![' ', '┘']);
            assert(n * (ELEMENT_SIZE + 1) <= usize::MAX) by (nonlinear_arith)
                requires
                    n * n <= usize::MAX,
                    0 <= n,
                    usize::MAX >= 0xffff_ffff,
            ;
        }
        let ghost all = texts(fields@);
        let mut out: String = String::new();
        push_border(&mut out, "┌ ", " ┐", n);
        let ghost top = out@;
        assert(top =~= border('┌', '┐', n as nat));
        let mut i: usize = 0;
        while i < n
            invariant
                i <= n,
                n * n <= usize::MAX,
                fields@.len() == n * n,
                all == texts(fields@),
                out@ == top + row_lines(all, n as nat, i as nat),
            decreases n - i,
        {
            let ghost row = chunk(all, n as int, i as int);
            let ghost before = out@;
            proof {
                lemma_offset_bounds(n as int, i as int, 0);
            }
            out.append("\n│ ");
            let ghost opened = out@;
            let mut j: usize = 0;
            while j < n
                invariant
                    i < n,
                    j <= n,
                    n * n <= usize::MAX,
                    fields@.len() == n * n,
                    all == texts(fields@),
                    row == chunk(all, n as int, i as int),
                    row.len() == n,
                    out@ == opened + row_fields(row, j as nat),
                decreases n - j,
            {
                proof {
                    lemma_offset_bounds(n as int, i as int, j as int);
                    assert(n * i == i * n) by (nonlinear_arith);
                }
                out.append(fields[n * i + j].as_str());
                out.append(" ");
                proof {
                    reveal_strlit(" ");
                    assert(" "@ =~= seq![' ']);
                    assert(row[j as int] == fields@[i * n + j]@);
                    assert(out@ =~= opened + row_fields(row, (j + 1) as nat));
                }
                j += 1;
            }
            out.append(" │");
            proof {
                reveal_strlit("\n│ ");
                reveal_strlit(" │");
                assert("\n│ "@ =~= seq!['\n', '│', ' ']);
                assert(" │"@ =~= seq![' ', '│']);
                assert(out@ =~= before + row_line(row));
                assert(out@ =~= top + row_lines(all, n as nat, (i + 1) as nat));
            }
            i += 1;
        }
        if n == 0 {
            out.append(" │");
        }
        out.append("\n");
        push_border(&mut out, "└ ", " ┘", n);
        out.append("\n");
        assert(out@ =~= table_text(n as nat, all));
        Ok(out)
    }
}

} // verus!
