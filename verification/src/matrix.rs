//! The dense matrix store and its generators.

use crate::element::Element;
use crate::error::MatrixError;
use crate::view::{lemma_equal_by_cells, lemma_offset_bounds, lemma_with_at, MatrixView};
use vstd::prelude::*;

verus! {

/// The side of a tile: blocked, reordered and parallel multiplication ask for
/// a dimension that is a multiple of it.
pub const BLOCK: usize = 64;

/// A dense square matrix that owns its `n * n` values in row-major order.
#[derive(Debug, PartialEq)]
pub struct Matrix<T> {
    n: usize,
    values: Vec<T>,
}

impl<T> View for Matrix<T> {
    type V = MatrixView<T>;

    closed spec fn view(&self) -> MatrixView<T> {
        MatrixView { dim: self.n as nat, cells: self.values@ }
    }
}

impl<T> Matrix<T> {
    #[verifier::type_invariant]
    spec fn square(self) -> bool {
        self.values@.len() == self.n * self.n
    }

    /// Builds the matrix of dimension `n` from its values in row-major order.
    /// The values are refused unless there are exactly `n * n` of them.
    pub fn new(n: usize, values: Vec<T>) -> (r: Result<Self, MatrixError>)
        ensures
            match r {
                Ok(m) => values@.len() == n * n && m@.dim == n && m@.cells == values@,
                Err(e) => values@.len() != n * n && e == MatrixError::DimensionMismatch,
            },
    {
        match n.checked_mul(n) {
            Some(len) => {
                if len == values.len() {
                    Ok(Matrix { n, values })
                } else {
                    Err(MatrixError::DimensionMismatch)
                }
            },
            None => {
                assert(values.len() <= usize::MAX);
                Err(MatrixError::DimensionMismatch)
            },
        }
    }

    /// The dimension. Every matrix holds as many values as its dimension asks
    /// for.
    pub fn size(&self) -> (n: usize)
        ensures
            n == self@.dim,
            self@.wf(),
            n * n <= usize::MAX,
    {
        proof {
            use_type_invariant(self);
            assert(self.values.len() == self.n * self.n);
        }
        self.n
    }

    /// The values in row-major order.
    pub fn values(&self) -> (values: &Vec<T>)
        ensures
            values@ == self@.cells,
    {
        &self.values
    }

    /// Gives up the matrix for its values in row-major order.
    pub fn into_values(self) -> (values: Vec<T>)
        ensures
            values@ == self@.cells,
    {
        self.values
    }

    /// The number of tiles along one side, for a dimension that is a multiple
    /// of the tile size.
    pub fn number_of_blocks(&self) -> (r: Result<usize, MatrixError>)
        ensures
            match r {
                Ok(count) => self@.dim % (BLOCK as nat) == 0 && count == self@.dim / (BLOCK as nat),
                Err(e) => self@.dim % (BLOCK as nat) != 0 && e == MatrixError::UnalignedSize,
            },
    {
        if self.n % BLOCK == 0 {
            Ok(self.n / BLOCK)
        } else {
            Err(MatrixError::UnalignedSize)
        }
    }

    /// Stores `v` in row `i` and column `j`, or refuses an index that is not
    /// below the dimension and leaves the matrix as it was.
    pub fn set(&mut self, i: usize, j: usize, v: T) -> (r: Result<(), MatrixError>)
        ensures
            match r {
                Ok(_) => i < old(self)@.dim && j < old(self)@.dim && final(self)@ == old(self)@.with(
                    i as int,
                    j as int,
                    v,
                ),
                Err(e) => !(i < old(self)@.dim && j < old(self)@.dim) && final(self)@ == old(self)@
                    && e == MatrixError::IndexOutOfRange,
            },
    {
        if i < self.n && j < self.n {
            self.put(i, j, v);
            Ok(())
        } else {
            Err(MatrixError::IndexOutOfRange)
        }
    }

    /// Stores `v` in row `i` and column `j`.
    pub(crate) fn put(&mut self, i: usize, j: usize, v: T)
        requires
            i < old(self)@.dim,
            j < old(self)@.dim,
        ensures
            final(self)@ == old(self)@.with(i as int, j as int, v),
    {
        proof {
            use_type_invariant(&*self);
            lemma_offset_bounds(self.n as int, i as int, j as int);
            assert(self.n * i == i * self.n) by (nonlinear_arith);
            assert(self.values.len() == self.n * self.n);
        }
        let offset: usize = self.n * i + j;
        self.values[offset] = v;
    }
}

impl<T: Copy> Matrix<T> {
    /// The value in row `i` and column `j`, or a refusal of an index that is
    /// not below the dimension.
    pub fn get(&self, i: usize, j: usize) -> (r: Result<T, MatrixError>)
        ensures
            match r {
                Ok(v) => i < self@.dim && j < self@.dim && v == self@.at(i as int, j as int),
                Err(e) => !(i < self@.dim && j < self@.dim) && e == MatrixError::IndexOutOfRange,
            },
    {
        if i < self.n && j < self.n {
            Ok(self.cell(i, j))
        } else {
            Err(MatrixError::IndexOutOfRange)
        }
    }

    /// The value in row `i` and column `j`.
    pub(crate) fn cell(&self, i: usize, j: usize) -> (v: T)
        requires
            i < self@.dim,
            j < self@.dim,
        ensures
            v == self@.at(i as int, j as int),
    {
        proof {
            use_type_invariant(self);
            lemma_offset_bounds(self.n as int, i as int, j as int);
            assert(self.n * i == i * self.n) by (nonlinear_arith);
            assert(self.values.len() == self.n * self.n);
        }
        let offset: usize = self.n * i + j;
        self.values[offset]
    }
}

impl<T: Element> Matrix<T> {
    /// The matrix of dimension `n` whose values are all zero.
    pub fn zero(n: usize) -> (m: Self)
        requires
            n * n <= usize::MAX,
        ensures
            m@ == MatrixView::<T>::zero(n as nat),
    {
        let len: usize = n * n;
        let mut values: Vec<T> = Vec::new();
        let mut p: usize = 0;
        while p < len
            invariant
                p <= len,
                values@.len() == p,
                forall|q: int| 0 <= q < p ==> values@[q] == T::zero_value(),
            decreases len - p,
        {
            values.push(T::zero());
            p += 1;
        }
        assert(values@ =~= MatrixView::<T>::zero(n as nat).cells);
        Matrix { n, values }
    }

    /// The identity matrix of dimension `n`: one on the diagonal, zero
    /// elsewhere.
    pub fn id(n: usize) -> (m: Self)
        requires
            n * n <= usize::MAX,
        ensures
            m@ == MatrixView::<T>::identity(n as nat),
    {
        let mut m = Self::zero(n);
        let mut i: usize = 0;
        proof {
            assert forall|r: int, c: int| 0 <= r < n && 0 <= c < n implies #[trigger] m@.at(r, c)
                == T::zero_value() by {
                MatrixView::<T>::lemma_zero_at(n as nat, r, c);
            }
        }
        while i < n
            invariant
                i <= n,
                m@.dim == n,
                m@.wf(),
                forall|r: int, c: int|
                    0 <= r < n && 0 <= c < n ==> #[trigger] m@.at(r, c) == (if r == c && r < i {
                        T::one_value()
                    } else {
                        T::zero_value()
                    }),
            decreases n - i,
        {
            let ghost before = m@;
            m.put(i, i, T::one());
            proof {
                assert forall|r: int, c: int| 0 <= r < n && 0 <= c < n implies #[trigger] m@.at(
                    r,
                    c,
                ) == (if r == c && r < i + 1 {
                    T::one_value()
                } else {
                    T::zero_value()
                }) by {
                    lemma_with_at(before, i as int, i as int, T::one_value(), r, c);
                    assert(before.at(r, c) == (if r == c && r < i {
                        T::one_value()
                    } else {
                        T::zero_value()
                    }));
                }
                lemma_with_at(before, i as int, i as int, T::one_value(), i as int, i as int);
            }
            i += 1;
        }
        proof {
            let identity = MatrixView::<T>::identity(n as nat);
            assert(identity.wf());
            assert forall|r: int, c: int| 0 <= r < n && 0 <= c < n implies #[trigger] m@.at(r, c)
                == identity.at(r, c) by {
                MatrixView::<T>::lemma_identity_at(n as nat, r, c);
            }
            lemma_equal_by_cells(m@, identity);
        }
        m
    }

    /// A matrix of dimension `n` whose values are drawn independently from the
    /// generator of the calling thread, each between minus one (included) and
    /// one (excluded).
    pub fn random(n: usize) -> (m: Self)
        requires
            n * n <= usize::MAX,
        ensures
            m@.dim == n,
            m@.wf(),
            forall|p: int| 0 <= p < n * n ==> (#[trigger] m@.cells[p]).in_unit_range(),
    {
        let len: usize = n * n;
        let mut rng = rand::thread_rng();
        let mut values: Vec<T> = Vec::new();
        let mut p: usize = 0;
        while p < len
            invariant
                p <= len,
                values@.len() == p,
                forall|q: int| 0 <= q < p ==> (#[trigger] values@[q]).in_unit_range(),
            decreases len - p,
        {
            values.push(T::sample_unit(&mut rng));
            p += 1;
        }
        Matrix { n, values }
    }
}

} // verus!
