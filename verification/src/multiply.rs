//! The four multiplication strategies.

use crate::element::Element;
use crate::error::MatrixError;
use crate::matrix::{Matrix, BLOCK};
use crate::view::{
    accumulate, accumulated_row, chunk, lemma_chunk_replaced, lemma_equal_by_cells,
    lemma_offset_bounds, lemma_rows_give_product, lemma_with_at, rows_accumulated, MatrixView,
};
use rayon::iter::{IndexedParallelIterator, ParallelIterator};
use rayon::slice::{ParallelSlice, ParallelSliceMut};
use vstd::prelude::*;
use vstd::slice::slice_subrange;

verus! {

/// What a multiplication returned, with the matrix replaced by its model.
pub open spec fn outcome_view<T>(r: Result<Matrix<T>, MatrixError>) -> Result<
    MatrixView<T>,
    MatrixError,
> {
    match r {
        Ok(c) => Ok(c@),
        Err(e) => Err(e),
    }
}

/// What the naive strategy owes: the product, for operands of one dimension.
pub open spec fn multiply_outcome<T: Element>(a: MatrixView<T>, b: MatrixView<T>) -> Result<
    MatrixView<T>,
    MatrixError,
> {
    if a.dim != b.dim {
        Err(MatrixError::DimensionMismatch)
    } else {
        Ok(a.product(b))
    }
}

/// What the blocked, the reordered and the parallel strategy owe: the
/// product, for operands of one dimension that is a multiple of the tile
/// size. A difference in dimension is reported before a dimension that is not
/// aligned.
pub open spec fn tiled_outcome<T: Element>(a: MatrixView<T>, b: MatrixView<T>) -> Result<
    MatrixView<T>,
    MatrixError,
> {
    if a.dim != b.dim {
        Err(MatrixError::DimensionMismatch)
    } else if a.dim % (BLOCK as nat) != 0 {
        Err(MatrixError::UnalignedSize)
    } else {
        Ok(a.product(b))
    }
}

/// How many terms the cell of row `p` and column `q` has taken when the naive
/// loops stand at row `i`, column `j` and term `k`.
spec fn naive_done(n: int, i: int, j: int, k: int, p: int, q: int) -> int {
    if p < i || (p == i && q < j) {
        n
    } else if p == i && q == j {
        k
    } else {
        0
    }
}

/// The product of two matrices by the triple loop over row, column and term.
/// Operands of different dimensions are refused.
pub fn multiply<T: Element>(a: &Matrix<T>, b: &Matrix<T>) -> (r: Result<Matrix<T>, MatrixError>)
    ensures
        outcome_view(r) == multiply_outcome(a@, b@),
{
    let n: usize = a.size();
    if n != b.size() {
        return Err(MatrixError::DimensionMismatch);
    }
    let mut c: Matrix<T> = Matrix::zero(n);
    proof {
        assert forall|p: int, q: int| 0 <= p < n && 0 <= q < n implies #[trigger] c@.at(p, q)
            == a@.dot_prefix(b@, p, q, 0) by {
            MatrixView::<T>::lemma_zero_at(n as nat, p, q);
        }
        assert(c@.wf());
    }
    let mut i: usize = 0;
    while i < n
        invariant
            i <= n,
            a@.dim == n,
            b@.dim == n,
            a@.wf(),
            c@.dim == n,
            c@.wf(),
            forall|p: int, q: int|
                0 <= p < n && 0 <= q < n ==> #[trigger] c@.at(p, q) == a@.dot_prefix(
                    b@,
                    p,
                    q,
                    naive_done(n as int, i as int, 0, 0, p, q) as nat,
                ),
        decreases n - i,
    {
        let mut j: usize = 0;
        while j < n
            invariant
                i < n,
                j <= n,
                a@.dim == n,
                b@.dim == n,
                a@.wf(),
                c@.dim == n,
                c@.wf(),
                forall|p: int, q: int|
                    0 <= p < n && 0 <= q < n ==> #[trigger] c@.at(p, q) == a@.dot_prefix(
                        b@,
                        p,
                        q,
                        naive_done(n as int, i as int, j as int, 0, p, q) as nat,
                    ),
            decreases n - j,
        {
            let mut k: usize = 0;
            while k < n
                invariant
                    i < n,
                    j < n,
                    k <= n,
                    a@.dim == n,
                    b@.dim == n,
                    a@.wf(),
                    c@.dim == n,
                    c@.wf(),
                    forall|p: int, q: int|
                        0 <= p < n && 0 <= q < n ==> #[trigger] c@.at(p, q) == a@.dot_prefix(
                            b@,
                            p,
                            q,
                            naive_done(n as int, i as int, j as int, k as int, p, q) as nat,
                        ),
                decreases n - k,
            {
                let ghost before = c@;
                let term: T = a.cell(i, k).times(b.cell(k, j));
                let total: T = c.cell(i, j).plus(term);
                c.put(i, j, total);
                proof {
                    a@.lemma_dot_step(b@, i as int, j as int, k as nat);
                    assert forall|p: int, q: int| 0 <= p < n && 0 <= q < n implies #[trigger] c@.at(
                        p,
                        q,
                    ) == a@.dot_prefix(
                        b@,
                        p,
                        q,
                        naive_done(n as int, i as int, j as int, k + 1, p, q) as nat,
                    ) by {
                        lemma_with_at(before, i as int, j as int, total, p, q);
                        assert(before.at(p, q) == a@.dot_prefix(
                            b@,
                            p,
                            q,
                            naive_done(n as int, i as int, j as int, k as int, p, q) as nat,
                        ));
                    }
                    lemma_with_at(before, i as int, j as int, total, i as int, j as int);
                }
                k += 1;
            }
            j += 1;
        }
        i += 1;
    }
    proof {
        let product = a@.product(b@);
        assert forall|p: int, q: int| 0 <= p < n && 0 <= q < n implies #[trigger] c@.at(p, q)
            == product.at(p, q) by {
            a@.lemma_product_at(b@, p, q);
        }
        assert(product.wf());
        lemma_equal_by_cells(c@, product);
    }
    Ok(c)
}

/// How many terms the cell of row `p` and column `q` has taken when the
/// blocked loops stand at tile row `ii`, tile column `jj` and tile depth `kk`,
/// before any cell of that tile is visited at that depth.
spec fn tiles_done(n: int, ii: int, jj: int, kk: int, p: int, q: int) -> int {
    if p < ii * BLOCK || (p < (ii + 1) * BLOCK && q < jj * BLOCK) {
        n
    } else if p < (ii + 1) * BLOCK && q < (jj + 1) * BLOCK {
        kk * BLOCK
    } else {
        0
    }
}

/// How many terms the cell of row `p` and column `q` has taken when the
/// blocked loops stand, inside the tile at `ii`, `jj` and depth `kk`, at row
/// `i`, column `j` and term `k`.
spec fn cells_done(
    n: int,
    ii: int,
    jj: int,
    kk: int,
    i: int,
    j: int,
    k: int,
    p: int,
    q: int,
) -> int {
    if ii * BLOCK <= p < (ii + 1) * BLOCK && jj * BLOCK <= q < (jj + 1) * BLOCK {
        if p < i || (p == i && q < j) {
            (kk + 1) * BLOCK
        } else if p == i && q == j {
            k
        } else {
            kk * BLOCK
        }
    } else {
        tiles_done(n, ii, jj, kk, p, q)
    }
}

/// The product of two matrices tile by tile: the three loops over tiles
/// enclose the three loops over the cells of a tile. Each cell still takes
/// its terms in ascending order, so the result is that of `multiply`.
/// Operands of different dimensions are refused, and so is a dimension that
/// is not a multiple of the tile size.
pub fn multiply_blocked<T: Element>(a: &Matrix<T>, b: &Matrix<T>) -> (r: Result<
    Matrix<T>,
    MatrixError,
>)
    ensures
        outcome_view(r) == tiled_outcome(a@, b@),
{
    let n: usize = a.size();
    if n != b.size() {
        return Err(MatrixError::DimensionMismatch);
    }
    let s: usize = BLOCK;
    let nn: usize = match a.number_of_blocks() {
        Ok(count) => count,
        Err(e) => {
            return Err(e);
        },
    };
    let mut c: Matrix<T> = Matrix::zero(n);
    proof {
        assert forall|p: int, q: int| 0 <= p < n && 0 <= q < n implies #[trigger] c@.at(p, q)
            == a@.dot_prefix(b@, p, q, 0) by {
            MatrixView::<T>::lemma_zero_at(n as nat, p, q);
        }
        assert(c@.wf());
    }
    let mut ii: usize = 0;
    while ii < nn
        invariant
            s == BLOCK,
            n == nn * BLOCK,
            ii <= nn,
            a@.dim == n,
            b@.dim == n,
            a@.wf(),
            c@.dim == n,
            c@.wf(),
            forall|p: int, q: int|
                0 <= p < n && 0 <= q < n ==> #[trigger] c@.at(p, q) == a@.dot_prefix(
                    b@,
                    p,
                    q,
                    tiles_done(n as int, ii as int, 0, 0, p, q) as nat,
                ),
        decreases nn - ii,
    {
        let mut jj: usize = 0;
        while jj < nn
            invariant
                s == BLOCK,
                n == nn * BLOCK,
                ii < nn,
                jj <= nn,
                a@.dim == n,
                b@.dim == n,
                a@.wf(),
                c@.dim == n,
                c@.wf(),
                forall|p: int, q: int|
                    0 <= p < n && 0 <= q < n ==> #[trigger] c@.at(p, q) == a@.dot_prefix(
                        b@,
                        p,
                        q,
                        tiles_done(n as int, ii as int, jj as int, 0, p, q) as nat,
                    ),
            decreases nn - jj,
        {
            let mut kk: usize = 0;
            while kk < nn
                invariant
                    s == BLOCK,
                    n == nn * BLOCK,
                    ii < nn,
                    jj < nn,
                    kk <= nn,
                    a@.dim == n,
                    b@.dim == n,
                    a@.wf(),
                    c@.dim == n,
                    c@.wf(),
                    forall|p: int, q: int|
                        0 <= p < n && 0 <= q < n ==> #[trigger] c@.at(p, q) == a@.dot_prefix(
                            b@,
                            p,
                            q,
                            tiles_done(n as int, ii as int, jj as int, kk as int, p, q) as nat,
                        ),
                decreases nn - kk,
            {
                let mut i: usize = ii * s;
                while i < (ii + 1) * s
                    invariant
                        s == BLOCK,
                        n == nn * BLOCK,
                        ii < nn,
                        jj < nn,
                        kk < nn,
                        ii * BLOCK <= i <= (ii + 1) * BLOCK,
                        a@.dim == n,
                        b@.dim == n,
                        a@.wf(),
                        c@.dim == n,
                        c@.wf(),
                        forall|p: int, q: int|
                            0 <= p < n && 0 <= q < n ==> #[trigger] c@.at(p, q) == a@.dot_prefix(
                                b@,
                                p,
                                q,
                                cells_done(
                                    n as int,
                                    ii as int,
                                    jj as int,
                                    kk as int,
                                    i as int,
                                    jj * BLOCK,
                                    kk * BLOCK,
                                    p,
                                    q,
                                ) as nat,
                            ),
                    decreases (ii + 1) * BLOCK - i,
                {
                    let mut j: usize = jj * s;
                    while j < (jj + 1) * s
                        invariant
                            s == BLOCK,
                            n == nn * BLOCK,
                            ii < nn,
                            jj < nn,
                            kk < nn,
                            ii * BLOCK <= i < (ii + 1) * BLOCK,
                            jj * BLOCK <= j <= (jj + 1) * BLOCK,
                            a@.dim == n,
                            b@.dim == n,
                            a@.wf(),
                            c@.dim == n,
                            c@.wf(),
                            forall|p: int, q: int|
                                0 <= p < n && 0 <= q < n ==> #[trigger] c@.at(p, q)
                                    == a@.dot_prefix(
                                    b@,
                                    p,
                                    q,
                                    cells_done(
                                        n as int,
                                        ii as int,
                                        jj as int,
                                        kk as int,
                                        i as int,
                                        j as int,
                                        kk * BLOCK,
                                        p,
                                        q,
                                    ) as nat,
                                ),
                        decreases (jj + 1) * BLOCK - j,
                    {
                        let mut k: usize = kk * s;
                        while k < (kk + 1) * s
                            invariant
                                s == BLOCK,
                                n == nn * BLOCK,
                                ii < nn,
                                jj < nn,
                                kk < nn,
                                ii * BLOCK <= i < (ii + 1) * BLOCK,
                                jj * BLOCK <= j < (jj + 1) * BLOCK,
                                kk * BLOCK <= k <= (kk + 1) * BLOCK,
                                a@.dim == n,
                                b@.dim == n,
                                a@.wf(),
                                c@.dim == n,
                                c@.wf(),
                                forall|p: int, q: int|
                                    0 <= p < n && 0 <= q < n ==> #[trigger] c@.at(p, q)
                                        == a@.dot_prefix(
                                        b@,
                                        p,
                                        q,
                                        cells_done(
                                            n as int,
                                            ii as int,
                                            jj as int,
                                            kk as int,
                                            i as int,
                                            j as int,
                                            k as int,
                                            p,
                                            q,
                                        ) as nat,
                                    ),
                            decreases (kk + 1) * BLOCK - k,
                        {
                            let ghost before = c@;
                            let term: T = a.cell(i, k).times(b.cell(k, j));
                            let total: T = c.cell(i, j).plus(term);
                            c.put(i, j, total);
                            proof {
                                a@.lemma_dot_step(b@, i as int, j as int, k as nat);
                                assert forall|p: int, q: int|
                                    0 <= p < n && 0 <= q < n implies #[trigger] c@.at(p, q)
                                    == a@.dot_prefix(
                                    b@,
                                    p,
                                    q,
                                    cells_done(
                                        n as int,
                                        ii as int,
                                        jj as int,
                                        kk as int,
                                        i as int,
                                        j as int,
                                        k + 1,
                                        p,
                                        q,
                                    ) as nat,
                                ) by {
                                    lemma_with_at(before, i as int, j as int, total, p, q);
                                    assert(before.at(p, q) == a@.dot_prefix(
                                        b@,
                                        p,
                                        q,
                                        cells_done(
                                            n as int,
                                            ii as int,
                                            jj as int,
                                            kk as int,
                                            i as int,
                                            j as int,
                                            k as int,
                                            p,
                                            q,
                                        ) as nat,
                                    ));
                                }
                                lemma_with_at(before, i as int, j as int, total, i as int, j as int);
                            }
                            k += 1;
                        }
                        j += 1;
                    }
                    i += 1;
                }
                kk += 1;
            }
            jj += 1;
        }
        ii += 1;
    }
    proof {
        let product = a@.product(b@);
        assert forall|p: int, q: int| 0 <= p < n && 0 <= q < n implies #[trigger] c@.at(p, q)
            == product.at(p, q) by {
            a@.lemma_product_at(b@, p, q);
        }
        assert(product.wf());
        lemma_equal_by_cells(c@, product);
    }
    Ok(c)
}

/// How many terms the accumulator of column `q` has taken when the loops over
/// a row stand at tile `jj`, column `col` and term `j`.
spec fn row_done(jj: int, col: int, j: int, q: int) -> int {
    if q < col {
        (jj + 1) * BLOCK
    } else if q == col {
        j
    } else {
        jj * BLOCK
    }
}

/// Adds to each accumulator of the output row `cv` the terms of its column:
/// for each tile of the summation index in ascending order, each column in
/// turn takes the terms `av[j] * b[j][col]` of that tile in ascending order
/// of `j`. `nn` is the number of tiles along one side of `b`.
pub fn accumulate_row<T: Element>(cv: &mut [T], av: &[T], b: &Matrix<T>, nn: usize)
    requires
        b@.dim == nn * BLOCK,
        old(cv)@.len() == b@.dim,
        av@.len() == b@.dim,
    ensures
        final(cv)@ == accumulated_row(old(cv)@, av@, b@),
{
    let n: usize = b.size();
    let s: usize = BLOCK;
    let ghost start = cv@;
    let mut jj: usize = 0;
    while jj < nn
        invariant
            s == BLOCK,
            n == nn * BLOCK,
            jj <= nn,
            b@.dim == n,
            av@.len() == n,
            cv@.len() == n,
            start.len() == n,
            forall|q: int|
                0 <= q < n ==> #[trigger] cv@[q] == accumulate(
                    start[q],
                    av@,
                    b@,
                    q,
                    row_done(jj as int, 0, jj * BLOCK, q) as nat,
                ),
        decreases nn - jj,
    {
        let mut col: usize = 0;
        while col < n
            invariant
                s == BLOCK,
                n == nn * BLOCK,
                jj < nn,
                col <= n,
                b@.dim == n,
                av@.len() == n,
                cv@.len() == n,
                start.len() == n,
                forall|q: int|
                    0 <= q < n ==> #[trigger] cv@[q] == accumulate(
                        start[q],
                        av@,
                        b@,
                        q,
                        row_done(jj as int, col as int, jj * BLOCK, q) as nat,
                    ),
            decreases n - col,
        {
            let mut j: usize = jj * s;
            while j < (jj + 1) * s
                invariant
                    s == BLOCK,
                    n == nn * BLOCK,
                    jj < nn,
                    col < n,
                    jj * BLOCK <= j <= (jj + 1) * BLOCK,
                    b@.dim == n,
                    av@.len() == n,
                    cv@.len() == n,
                    start.len() == n,
                    forall|q: int|
                        0 <= q < n ==> #[trigger] cv@[q] == accumulate(
                            start[q],
                            av@,
                            b@,
                            q,
                            row_done(jj as int, col as int, j as int, q) as nat,
                        ),
                decreases (jj + 1) * BLOCK - j,
            {
                let term: T = av[j].times(b.cell(j, col));
                let total: T = cv[col].plus(term);
                cv[col] = total;
                j += 1;
            }
            col += 1;
        }
        jj += 1;
    }
    assert(cv@ =~= accumulated_row(start, av@, b@));
}

/// The product of two matrices row by row: each output row is accumulated in
/// place along the matching row of `a`, tile by tile of the summation index.
/// Each cell still takes its terms in ascending order, so the result is that
/// of `multiply`. Operands of different dimensions are refused, and so is a
/// dimension that is not a multiple of the tile size.
pub fn multiply_iter<T: Element>(a: &Matrix<T>, b: &Matrix<T>) -> (r: Result<
    Matrix<T>,
    MatrixError,
>)
    ensures
        outcome_view(r) == tiled_outcome(a@, b@),
{
    let n: usize = a.size();
    if n != b.size() {
        return Err(MatrixError::DimensionMismatch);
    }
    let nn: usize = match a.number_of_blocks() {
        Ok(count) => count,
        Err(e) => {
            return Err(e);
        },
    };
    let mut values: Vec<T> = Matrix::<T>::zero(n).into_values();
    let lhs: &[T] = a.values().as_slice();
    let ghost start = values@;
    let mut i: usize = 0;
    while i < n
        invariant
            n == nn * BLOCK,
            i <= n,
            a@.dim == n,
            b@.dim == n,
            n * n <= usize::MAX,
            lhs@ == a@.cells,
            lhs@.len() == n * n,
            start.len() == n * n,
            values@.len() == n * n,
            forall|r: int|
                0 <= r < n ==> #[trigger] chunk(values@, n as int, r) == (if r < i {
                    accumulated_row(chunk(start, n as int, r), chunk(lhs@, n as int, r), b@)
                } else {
                    chunk(start, n as int, r)
                }),
        decreases n - i,
    {
        proof {
            lemma_offset_bounds(n as int, i as int, 0);
        }
        let ghost before = values@;
        let whole: &mut [T] = values.as_mut_slice();
        let (_, tail) = whole.split_at_mut(i * n);
        let (cv, _) = tail.split_at_mut(n);
        let av: &[T] = slice_subrange(lhs, i * n, i * n + n);
        accumulate_row(cv, av, b, nn);
        proof {
            let row = accumulated_row(chunk(start, n as int, i as int), av@, b@);
            assert(chunk(before, n as int, i as int) == chunk(start, n as int, i as int));
            assert(before.subrange(i * n, n * n).subrange(0, n as int) =~= chunk(
                before,
                n as int,
                i as int,
            ));
            assert(before.subrange(i * n, n * n).subrange(n as int, n * n - i * n)
                =~= before.subrange(i * n + n, n * n));
            assert(values@ == before.subrange(0, i * n) + (row + before.subrange(
                i * n + n,
                n * n,
            )));
            assert forall|r: int| 0 <= r < n implies #[trigger] chunk(values@, n as int, r) == (if r
                < i + 1 {
                accumulated_row(chunk(start, n as int, r), chunk(lhs@, n as int, r), b@)
            } else {
                chunk(start, n as int, r)
            }) by {
                lemma_chunk_replaced(before, values@, row, n as int, i as int, r);
                assert(chunk(before, n as int, r) == (if r < i {
                    accumulated_row(chunk(start, n as int, r), chunk(lhs@, n as int, r), b@)
                } else {
                    chunk(start, n as int, r)
                }));
            }
        }
        i += 1;
    }
    proof {
        assert(rows_accumulated(start, values@, a@.cells, b@));
        lemma_rows_give_product(values@, a@, b@);
    }
    Matrix::new(n, values)
}

/// rayon's `par_chunks_mut` and `par_chunks` cut `out` and `lhs` into their
/// consecutive rows of `n` values, `zip` pairs row `i` of one with row `i` of
/// the other, and `for_each` hands every pair to `accumulate_row`, once, on
/// the threads of rayon's pool, and returns when all rows are done. The rows
/// of `out` do not overlap, so each row ends as `accumulate_row` leaves it.
/// `par_chunks_mut` and `par_chunks` panic on a chunk size of zero, which
/// `n > 0` excludes; the bounds on the lengths are those of `accumulate_row`.
#[verifier::external_body]
fn par_accumulate_rows<T: Element + Send + Sync>(
    out: &mut Vec<T>,
    lhs: &Vec<T>,
    b: &Matrix<T>,
    n: usize,
    nn: usize,
)
    requires
        n > 0,
        n == nn * BLOCK,
        b@.dim == n,
        old(out)@.len() == n * n,
        lhs@.len() == n * n,
    ensures
        rows_accumulated(old(out)@, final(out)@, lhs@, b@),
{
    out.par_chunks_mut(n).zip(lhs.par_chunks(n)).for_each(|(cv, av)| accumulate_row(cv, av, b, nn));
}

/// The product of two matrices row by row, as `multiply_iter` computes it,
/// with the output rows shared out among the threads of a pool; the call
/// returns when every row is done. Each cell still takes its terms in
/// ascending order, so the result is that of `multiply`. Operands of
/// different dimensions are refused, and so is a dimension that is not a
/// multiple of the tile size.
pub fn multiply_rayon<T: Element + Send + Sync>(a: &Matrix<T>, b: &Matrix<T>) -> (r: Result<
    Matrix<T>,
    MatrixError,
>)
    ensures
        outcome_view(r) == tiled_outcome(a@, b@),
{
    let n: usize = a.size();
    if n != b.size() {
        return Err(MatrixError::DimensionMismatch);
    }
    let nn: usize = match a.number_of_blocks() {
        Ok(count) => count,
        Err(e) => {
            return Err(e);
        },
    };
    let mut values: Vec<T> = Matrix::<T>::zero(n).into_values();
    if n > 0 {
        par_accumulate_rows(&mut values, a.values(), b, n, nn);
    }
    proof {
        lemma_rows_give_product(values@, a@, b@);
    }
    Matrix::new(n, values)
}

} // verus!
