//! What holds of the strategies taken together.

use crate::element::{identity_laws, Element};
use crate::error::MatrixError;
use crate::matrix::BLOCK;
use crate::multiply::{multiply_outcome, tiled_outcome};
use crate::view::{lemma_equal_by_cells, MatrixView};
use vstd::prelude::*;

verus! {

/// Along row `i` of the identity matrix the ordered sum stays zero up to the
/// diagonal, takes the cell of `m` below the diagonal entry there, and keeps
/// it to the end.
proof fn lemma_identity_prefix<T: Element>(m: MatrixView<T>, i: int, j: int, k: nat)
    requires
        m.wf(),
        identity_laws::<T>(),
        0 <= i < m.dim,
        0 <= j < m.dim,
        k <= m.dim,
    ensures
        MatrixView::<T>::identity(m.dim).dot_prefix(m, i, j, k) == (if k <= i {
            T::zero_value()
        } else {
            m.at(i, j)
        }),
    decreases k,
{
    if k > 0 {
        let identity = MatrixView::<T>::identity(m.dim);
        let earlier = (k - 1) as nat;
        lemma_identity_prefix(m, i, j, earlier);
        MatrixView::<T>::lemma_identity_at(m.dim, i, earlier as int);
        identity.lemma_dot_step(m, i, j, earlier);
        let term = identity.at(i, earlier as int).product(m.at(earlier as int, j));
        if earlier == i {
            assert(term == m.at(i, j));
            assert(T::zero_value().sum(term) == term);
        } else {
            assert(term == T::zero_value());
            assert(identity.dot_prefix(m, i, j, earlier).sum(T::zero_value())
                == identity.dot_prefix(m, i, j, earlier));
        }
    }
}

/// The identity matrix is neutral on the left, under every strategy: for an
/// element type that obeys the identity laws, every strategy that accepts the
/// dimension of `m` returns `m` for the product of the identity matrix of
/// that dimension with `m`.
pub proof fn lemma_identity_is_neutral<T: Element>(m: MatrixView<T>)
    requires
        m.wf(),
        identity_laws::<T>(),
    ensures
        MatrixView::<T>::identity(m.dim).product(m) == m,
        multiply_outcome(MatrixView::<T>::identity(m.dim), m) == Ok::<_, MatrixError>(m),
        m.dim % (BLOCK as nat) == 0 ==> tiled_outcome(MatrixView::<T>::identity(m.dim), m) == Ok::<
            _,
            MatrixError,
        >(m),
{
    let identity = MatrixView::<T>::identity(m.dim);
    let product = identity.product(m);
    assert(product.wf());
    assert forall|r: int, c: int| 0 <= r < m.dim && 0 <= c < m.dim implies #[trigger] product.at(
        r,
        c,
    ) == m.at(r, c) by {
        identity.lemma_product_at(m, r, c);
        lemma_identity_prefix(m, r, c, m.dim);
    }
    lemma_equal_by_cells(product, m);
}

/// The four strategies agree: for operands of one dimension that is a
/// multiple of the tile size, the blocked, the reordered and the parallel
/// strategy return what the naive strategy returns, cell for cell.
pub proof fn lemma_strategies_agree<T: Element>(a: MatrixView<T>, b: MatrixView<T>)
    requires
        a.dim == b.dim,
        a.dim % (BLOCK as nat) == 0,
    ensures
        tiled_outcome(a, b) == multiply_outcome(a, b),
        multiply_outcome(a, b) == Ok::<_, MatrixError>(a.product(b)),
{
}

/// Only the naive strategy takes a dimension that is not a multiple of the
/// tile size: the other three refuse it.
pub proof fn lemma_unaligned_is_refused<T: Element>(a: MatrixView<T>, b: MatrixView<T>)
    requires
        a.dim == b.dim,
        a.dim % (BLOCK as nat) != 0,
    ensures
        tiled_outcome(a, b) == Err::<MatrixView<T>, _>(MatrixError::UnalignedSize),
        multiply_outcome(a, b) == Ok::<_, MatrixError>(a.product(b)),
{
}

} // verus!
