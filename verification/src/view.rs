//! The mathematical model of a matrix, and of the product of two matrices.

use crate::element::Element;
use vstd::prelude::*;

verus! {

/// A square matrix as a value of mathematics: its dimension and its cells in
/// row-major order, the cell of row `i` and column `j` at offset
/// `i * dim + j`.
pub struct MatrixView<T> {
    pub dim: nat,
    pub cells: Seq<T>,
}

impl<T> MatrixView<T> {
    /// There are as many cells as a square of side `dim` holds.
    pub open spec fn wf(self) -> bool {
        self.cells.len() == self.dim * self.dim
    }

    /// The cell of row `i` and column `j`.
    pub open spec fn at(self, i: int, j: int) -> T {
        self.cells[i * self.dim + j]
    }

    /// Row `i`, as a sequence of `dim` cells.
    pub open spec fn row(self, i: int) -> Seq<T> {
        chunk(self.cells, self.dim as int, i)
    }

    /// The same matrix with `v` in row `i` and column `j`.
    pub open spec fn with(self, i: int, j: int, v: T) -> Self {
        MatrixView { dim: self.dim, cells: self.cells.update(i * self.dim + j, v) }
    }
}

/// The value of an accumulator that starts as `init` and then takes, one term
/// at a time and in ascending order of `t`, the first `k` terms
/// `row[t] * rhs[t][col]`.
pub open spec fn accumulate<T: Element>(
    init: T,
    row: Seq<T>,
    rhs: MatrixView<T>,
    col: int,
    k: nat,
) -> T
    decreases k,
{
    if k == 0 {
        init
    } else {
        accumulate(init, row, rhs, col, (k - 1) as nat).sum(
            row[k - 1].product(rhs.at(k - 1, col)),
        )
    }
}

/// Row `i` of a row-major buffer whose rows hold `n` cells each.
pub open spec fn chunk<T>(cells: Seq<T>, n: int, i: int) -> Seq<T> {
    cells.subrange(i * n, i * n + n)
}

/// A row of accumulators after each has taken every term of its column: the
/// accumulator of column `col` starts as `start[col]` and takes
/// `row[t] * rhs[t][col]` for each `t` in ascending order.
pub open spec fn accumulated_row<T: Element>(start: Seq<T>, row: Seq<T>, rhs: MatrixView<T>) -> Seq<
    T,
> {
    Seq::new(rhs.dim, |col: int| accumulate(start[col], row, rhs, col, rhs.dim))
}

/// Whether the buffer `after` holds, row by row, what the buffer `before`
/// held with every accumulator advanced through all the terms of its cell of
/// the product of `lhs` and `rhs`: row `i` of `after` is row `i` of `before`
/// accumulated along row `i` of `lhs`.
pub open spec fn rows_accumulated<T: Element>(
    before: Seq<T>,
    after: Seq<T>,
    lhs: Seq<T>,
    rhs: MatrixView<T>,
) -> bool {
    &&& after.len() == before.len()
    &&& forall|i: int|
        0 <= i < rhs.dim ==> #[trigger] chunk(after, rhs.dim as int, i) == accumulated_row(
            chunk(before, rhs.dim as int, i),
            chunk(lhs, rhs.dim as int, i),
            rhs,
        )
}

impl<T: Element> MatrixView<T> {
    /// The matrix of dimension `n` whose cells are all zero.
    pub open spec fn zero(n: nat) -> Self {
        MatrixView { dim: n, cells: Seq::new(n * n, |p: int| T::zero_value()) }
    }

    /// The matrix of dimension `n` with one on the diagonal and zero elsewhere.
    pub open spec fn identity(n: nat) -> Self {
        MatrixView {
            dim: n,
            cells: Seq::new(
                n * n,
                |p: int|
                    if p / (n as int) == p % (n as int) {
                        T::one_value()
                    } else {
                        T::zero_value()
                    },
            ),
        }
    }

    /// The sum of the first `k` terms `self[i][t] * rhs[t][j]`, accumulated
    /// from zero in ascending order of `t`.
    pub open spec fn dot_prefix(self, rhs: Self, i: int, j: int, k: nat) -> T {
        accumulate(T::zero_value(), self.row(i), rhs, j, k)
    }

    /// The cell of row `i` and column `j` of the product: the sum over `k` of
    /// `self[i][k] * rhs[k][j]`, accumulated from zero in ascending order of
    /// `k`.
    pub open spec fn dot(self, rhs: Self, i: int, j: int) -> T {
        self.dot_prefix(rhs, i, j, self.dim)
    }

    /// The product of two matrices of the same dimension.
    pub open spec fn product(self, rhs: Self) -> Self {
        MatrixView {
            dim: self.dim,
            cells: Seq::new(
                self.dim * self.dim,
                |p: int| self.dot(rhs, p / (self.dim as int), p % (self.dim as int)),
            ),
        }
    }
}

/// A cell's offset lies within the square.
pub proof fn lemma_offset_bounds(n: int, i: int, j: int)
    requires
        0 <= i < n,
        0 <= j < n,
    ensures
        0 <= i * n + j < n * n,
        i * n + n <= n * n,
{
    assert(i * n >= 0) by (nonlinear_arith)
        requires
            i >= 0,
            n >= 0,
    ;
    assert((i + 1) * n <= n * n) by (nonlinear_arith)
        requires
            i + 1 <= n,
            n >= 0,
    ;
    assert((i + 1) * n == i * n + n) by (nonlinear_arith);
}

/// An offset determines its row and its column.
pub proof fn lemma_offset_split(n: int, i: int, j: int)
    requires
        0 <= i,
        0 <= j < n,
    ensures
        (i * n + j) / n == i,
        (i * n + j) % n == j,
{
    vstd::arithmetic::div_mod::lemma_fundamental_div_mod_converse(i * n + j, n, i, j);
}

/// Every offset within the square is that of one row and one column.
pub proof fn lemma_offset_join(n: int, p: int)
    requires
        0 < n,
        0 <= p < n * n,
    ensures
        0 <= p / n < n,
        0 <= p % n < n,
        (p / n) * n + p % n == p,
{
    vstd::arithmetic::div_mod::lemma_fundamental_div_mod(p, n);
    vstd::arithmetic::div_mod::lemma_mod_bound(p, n);
    let q = p / n;
    assert(n * q == q * n) by (nonlinear_arith);
    assert(q >= 0 && q < n) by (nonlinear_arith)
        requires
            0 <= p < n * n,
            p == q * n + p % n,
            0 <= p % n < n,
    ;
}

/// Storing a value changes the cell it is stored in, and no other.
pub proof fn lemma_with_at<T>(m: MatrixView<T>, i: int, j: int, v: T, r: int, c: int)
    requires
        m.wf(),
        0 <= i < m.dim,
        0 <= j < m.dim,
        0 <= r < m.dim,
        0 <= c < m.dim,
    ensures
        m.with(i, j, v).wf(),
        m.with(i, j, v).at(r, c) == (if r == i && c == j {
            v
        } else {
            m.at(r, c)
        }),
{
    let n = m.dim as int;
    lemma_offset_bounds(n, i, j);
    lemma_offset_bounds(n, r, c);
    lemma_offset_split(n, i, j);
    lemma_offset_split(n, r, c);
}

/// Two matrices of one dimension that agree in every cell are equal.
pub proof fn lemma_equal_by_cells<T>(x: MatrixView<T>, y: MatrixView<T>)
    requires
        x.wf(),
        y.wf(),
        x.dim == y.dim,
        forall|r: int, c: int|
            0 <= r < x.dim && 0 <= c < x.dim ==> #[trigger] x.at(r, c) == y.at(r, c),
    ensures
        x == y,
{
    let n = x.dim as int;
    assert forall|p: int| 0 <= p < x.cells.len() implies x.cells[p] == y.cells[p] by {
        lemma_offset_join(n, p);
        assert(x.at(p / n, p % n) == y.at(p / n, p % n));
    }
    assert(x.cells =~= y.cells);
}

impl<T: Element> MatrixView<T> {
    /// Every cell of the zero matrix is zero.
    pub proof fn lemma_zero_at(n: nat, r: int, c: int)
        requires
            0 <= r < n,
            0 <= c < n,
        ensures
            Self::zero(n).wf(),
            Self::zero(n).at(r, c) == T::zero_value(),
    {
        lemma_offset_bounds(n as int, r, c);
    }

    /// The identity matrix holds one on the diagonal and zero elsewhere.
    pub proof fn lemma_identity_at(n: nat, r: int, c: int)
        requires
            0 <= r < n,
            0 <= c < n,
        ensures
            Self::identity(n).wf(),
            Self::identity(n).at(r, c) == (if r == c {
                T::one_value()
            } else {
                T::zero_value()
            }),
    {
        lemma_offset_bounds(n as int, r, c);
        lemma_offset_split(n as int, r, c);
    }

    /// A row holds the cells of its matrix, column by column.
    pub proof fn lemma_row_at(self, i: int, k: int)
        requires
            self.wf(),
            0 <= i < self.dim,
            0 <= k < self.dim,
        ensures
            self.row(i).len() == self.dim,
            self.row(i)[k] == self.at(i, k),
    {
        lemma_offset_bounds(self.dim as int, i, k);
    }

    /// Taking one more term adds the product of the next pair to the sum.
    pub proof fn lemma_dot_step(self, rhs: Self, i: int, j: int, k: nat)
        requires
            self.wf(),
            0 <= i < self.dim,
            k < self.dim,
        ensures
            self.dot_prefix(rhs, i, j, k + 1) == self.dot_prefix(rhs, i, j, k).sum(
                self.at(i, k as int).product(rhs.at(k as int, j)),
            ),
    {
        self.lemma_row_at(i, k as int);
    }

    /// Each cell of the product is the ordered sum for its row and column.
    pub proof fn lemma_product_at(self, rhs: Self, r: int, c: int)
        requires
            0 <= r < self.dim,
            0 <= c < self.dim,
        ensures
            self.product(rhs).wf(),
            self.product(rhs).at(r, c) == self.dot(rhs, r, c),
    {
        lemma_offset_bounds(self.dim as int, r, c);
        lemma_offset_split(self.dim as int, r, c);
    }
}

/// Replacing row `i` of a buffer changes that row, and no other.
pub proof fn lemma_chunk_replaced<T>(before: Seq<T>, after: Seq<T>, row: Seq<T>, n: int, i: int, r: int)
    requires
        0 <= i < n,
        0 <= r < n,
        before.len() == n * n,
        row.len() == n,
        after == before.subrange(0, i * n) + (row + before.subrange(i * n + n, n * n)),
    ensures
        after.len() == n * n,
        chunk(after, n, r) == (if r == i {
            row
        } else {
            chunk(before, n, r)
        }),
{
    lemma_offset_bounds(n, i, 0);
    lemma_offset_bounds(n, r, 0);
    if r < i {
        assert(r * n + n <= i * n) by (nonlinear_arith)
            requires
                r + 1 <= i,
                n >= 0,
        ;
    } else if r > i {
        assert(i * n + n <= r * n) by (nonlinear_arith)
            requires
                i + 1 <= r,
                n >= 0,
        ;
    }
    assert(chunk(after, n, r) =~= (if r == i {
        row
    } else {
        chunk(before, n, r)
    }));
}

/// A zero buffer whose rows were accumulated along the rows of `lhs` holds
/// the product of `lhs` and `rhs`.
pub proof fn lemma_rows_give_product<T: Element>(
    cells: Seq<T>,
    lhs: MatrixView<T>,
    rhs: MatrixView<T>,
)
    requires
        lhs.wf(),
        lhs.dim == rhs.dim,
        rows_accumulated(MatrixView::<T>::zero(lhs.dim).cells, cells, lhs.cells, rhs),
    ensures
        (MatrixView { dim: lhs.dim, cells }) == lhs.product(rhs),
{
    let n = lhs.dim as int;
    let zero = MatrixView::<T>::zero(lhs.dim);
    let m = MatrixView { dim: lhs.dim, cells };
    let product = lhs.product(rhs);
    assert(m.wf());
    assert(product.wf());
    assert forall|r: int, c: int| 0 <= r < n && 0 <= c < n implies #[trigger] m.at(r, c)
        == product.at(r, c) by {
        lhs.lemma_product_at(rhs, r, c);
        m.lemma_row_at(r, c);
        zero.lemma_row_at(r, c);
        MatrixView::<T>::lemma_zero_at(lhs.dim, r, c);
        assert(chunk(cells, n, r) == accumulated_row(chunk(zero.cells, n, r), chunk(lhs.cells, n, r), rhs));
        assert(m.row(r)[c] == accumulate(zero.row(r)[c], lhs.row(r), rhs, c, rhs.dim));
    }
    lemma_equal_by_cells(m, product);
}

} // verus!
