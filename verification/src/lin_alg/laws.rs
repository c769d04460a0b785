//! What holds of the operations taken together.

use vstd::prelude::*;
use crate::lin_alg::arithmetic::Arithmetic;
use crate::lin_alg::layout::{lemma_cell_in_buffer, lemma_index_is_cell};
use crate::lin_alg::matrix::MatrixView;
use crate::lin_alg::equality::same_cells;
use crate::lin_alg::scalar::{
    exceeds, holds_difference, holds_product, holds_quotient, holds_sum, lemma_same_value_same_numerator, same_value,
};
use crate::lin_alg::structure::exchanged;

verus! {

/// Two matrices of one shape with the same cell in every place are the same
/// matrix.
pub proof fn lemma_equal_by_cells(a: MatrixView, b: MatrixView)
    requires
        a.wf(),
        b.wf(),
        a.same_shape(b),
        forall|r: int, c: int| 0 <= r < a.rows && 0 <= c < a.columns ==> #[trigger] a.at(r, c) == b.at(r, c),
    ensures
        a == b,
{
    assert forall|i: int| 0 <= i < a.data.len() implies a.data[i] == b.data[i] by {
        lemma_index_is_cell(a.rows as int, a.columns as int, i);
        let r = i / (a.columns as int);
        let c = i % (a.columns as int);
        assert(a.at(r, c) == b.at(r, c));
    }
    assert(a.data =~= b.data);
}

/// Transposing twice gives the matrix back.
pub proof fn lemma_transpose_involutive(a: MatrixView, t: MatrixView, u: MatrixView)
    requires
        a.wf(),
        t.is_transpose_of(a),
        u.is_transpose_of(t),
    ensures
        u == a,
{
    assert forall|r: int, c: int| 0 <= r < u.rows && 0 <= c < u.columns implies #[trigger] u.at(r, c) == a.at(
        r,
        c,
    ) by {
        assert(u.at(r, c) == t.at(c, r));
        assert(t.at(c, r) == a.at(r, c));
    }
    lemma_equal_by_cells(u, a);
}

/// A matrix has one transpose.
pub proof fn lemma_transpose_unique(a: MatrixView, t: MatrixView, u: MatrixView)
    requires
        t.is_transpose_of(a),
        u.is_transpose_of(a),
    ensures
        t == u,
{
    assert forall|r: int, c: int| 0 <= r < t.rows && 0 <= c < t.columns implies #[trigger] t.at(r, c) == u.at(
        r,
        c,
    ) by {
        assert(t.at(r, c) == a.at(c, r));
        assert(u.at(r, c) == a.at(c, r));
    }
    lemma_equal_by_cells(t, u);
}

/// Exchanging a row with itself changes nothing.
pub proof fn lemma_swap_row_with_itself(m: MatrixView, n: MatrixView, i: int)
    requires
        m.wf(),
        n.is_row_swap_of(m, i, i),
    ensures
        n == m,
{
    assert forall|r: int, c: int| 0 <= r < n.rows && 0 <= c < n.columns implies #[trigger] n.at(r, c) == m.at(
        r,
        c,
    ) by {
        assert(exchanged(r, i, i) == r);
    }
    lemma_equal_by_cells(n, m);
}

/// Exchanging a column with itself changes nothing.
pub proof fn lemma_swap_column_with_itself(m: MatrixView, n: MatrixView, j: int)
    requires
        m.wf(),
        n.is_column_swap_of(m, j, j),
    ensures
        n == m,
{
    assert forall|r: int, c: int| 0 <= r < n.rows && 0 <= c < n.columns implies #[trigger] n.at(r, c) == m.at(
        r,
        c,
    ) by {
        assert(exchanged(c, j, j) == c);
    }
    lemma_equal_by_cells(n, m);
}

/// Exchanging the same two rows twice restores the matrix.
pub proof fn lemma_swap_rows_twice(m: MatrixView, n: MatrixView, k: MatrixView, i: int, j: int)
    requires
        m.wf(),
        0 <= i < m.rows,
        0 <= j < m.rows,
        n.is_row_swap_of(m, i, j),
        k.is_row_swap_of(n, i, j),
    ensures
        k == m,
{
    assert forall|r: int, c: int| 0 <= r < k.rows && 0 <= c < k.columns implies #[trigger] k.at(r, c) == m.at(
        r,
        c,
    ) by {
        let via = exchanged(r, i, j);
        assert(k.at(r, c) == n.at(via, c));
        assert(n.at(via, c) == m.at(exchanged(via, i, j), c));
    }
    lemma_equal_by_cells(k, m);
}

/// Exchanging the same two columns twice restores the matrix.
pub proof fn lemma_swap_columns_twice(m: MatrixView, n: MatrixView, k: MatrixView, i: int, j: int)
    requires
        m.wf(),
        0 <= i < m.columns,
        0 <= j < m.columns,
        n.is_column_swap_of(m, i, j),
        k.is_column_swap_of(n, i, j),
    ensures
        k == m,
{
    assert forall|r: int, c: int| 0 <= r < k.rows && 0 <= c < k.columns implies #[trigger] k.at(r, c) == m.at(
        r,
        c,
    ) by {
        let via = exchanged(c, i, j);
        assert(k.at(r, c) == n.at(r, via));
        assert(n.at(r, via) == m.at(r, exchanged(via, i, j)));
    }
    lemma_equal_by_cells(k, m);
}

/// A row of a well-formed matrix is the stretch of the buffer that holds it.
pub proof fn lemma_row_is_stretch(m: MatrixView, r: int)
    requires
        m.wf(),
        0 <= r < m.rows,
    ensures
        r * m.columns + m.columns <= m.data.len(),
        m.row(r) == m.data.subrange(r * m.columns, r * m.columns + m.columns),
{
    if m.columns > 0 {
        lemma_cell_in_buffer(m.rows as int, m.columns as int, r, 0);
    } else {
        assert(r * m.columns == 0) by (nonlinear_arith)
            requires
                m.columns == 0,
        ;
    }
    assert(m.row(r) =~= m.data.subrange(r * m.columns, r * m.columns + m.columns));
}

impl<A, S, M, D, E, L> Arithmetic<A, S, M, D, E, L> where
    A: Fn(u64, u64) -> u64,
    S: Fn(u64, u64) -> u64,
    M: Fn(u64, u64) -> u64,
    D: Fn(u64, u64) -> u64,
    E: Fn(u64) -> u64,
    L: Fn(u64) -> u64,
 {
    /// `x - y` undoes `+ y` on `x`: whatever the sum comes to, subtracting
    /// `y` from it gives `x` back.
    pub open spec fn subtraction_undoes(&self, x: u64, y: u64) -> bool {
        forall|s: u64, d: u64| #[trigger] self.sum(x, y, s) && #[trigger] self.difference(s, y, d) ==> d == x
    }

    /// Adding a matrix and subtracting it again gives the first matrix back,
    /// in every cell where the rounded subtraction undoes the rounded
    /// addition.
    pub proof fn lemma_add_then_subtract(&self, a: MatrixView, b: MatrixView, s: MatrixView, d: MatrixView)
        requires
            a.wf(),
            b.wf(),
            self.matrix_sum(a, b, s),
            self.matrix_difference(s, b, d),
            forall|i: int| 0 <= i < a.data.len() ==> self.subtraction_undoes(#[trigger] a.data[i], b.data[i]),
        ensures
            d == a,
    {
        assert forall|i: int| 0 <= i < a.data.len() implies d.data[i] == a.data[i] by {
            assert(self.subtraction_undoes(a.data[i], b.data[i]));
            assert(self.sum(a.data[i], b.data[i], s.data[i]));
            assert(self.difference(s.data[i], b.data[i], d.data[i]));
        }
        assert(d.data =~= a.data);
    }

    /// The unit returns what can be held exactly: where a binary64 holds the
    /// sum, the difference, the product or the quotient of two finite
    /// operands exactly, every outcome of the operation is equal to it in
    /// value.
    pub open spec fn exact(&self) -> bool {
        &&& forall|a: u64, b: u64, r: u64, s: u64| #[trigger]
            holds_sum(a, b, r) && #[trigger] self.sum(a, b, s) ==> same_value(s, r)
        &&& forall|a: u64, b: u64, r: u64, s: u64| #[trigger]
            holds_difference(a, b, r) && #[trigger] self.difference(a, b, s) ==> same_value(s, r)
        &&& forall|a: u64, b: u64, r: u64, s: u64| #[trigger]
            holds_product(a, b, r) && #[trigger] self.product(a, b, s) ==> same_value(s, r)
        &&& forall|a: u64, b: u64, r: u64, s: u64| #[trigger]
            holds_quotient(a, b, r) && #[trigger] self.quotient(a, b, s) ==> same_value(s, r)
    }

    /// Adding a matrix and subtracting it again gives a matrix equal to the
    /// first, cell by cell, where every sum of two cells can be held
    /// exactly and the unit returns what can be held exactly.
    pub proof fn lemma_add_then_subtract_held_sums(&self, a: MatrixView, b: MatrixView, s: MatrixView, d: MatrixView)
        requires
            a.wf(),
            b.wf(),
            self.exact(),
            self.matrix_sum(a, b, s),
            self.matrix_difference(s, b, d),
            forall|i: int|
                0 <= i < a.data.len() ==> exists|r: u64| holds_sum(#[trigger] a.data[i], b.data[i], r),
        ensures
            d.same_shape(a),
            same_cells(d.data, a.data),
    {
        assert forall|i: int| 0 <= i < d.data.len() implies same_value(#[trigger] d.data[i], a.data[i]) by {
            let x = a.data[i];
            let y = b.data[i];
            let r = choose|r: u64| holds_sum(x, y, r);
            assert(holds_sum(x, y, r));
            assert(self.sum(x, y, s.data[i]));
            assert(same_value(s.data[i], r));
            lemma_same_value_same_numerator(s.data[i], r);
            assert(holds_difference(s.data[i], y, x));
            assert(self.difference(s.data[i], y, d.data[i]));
        }
    }

    /// Both ways of bracketing a product of three matrices are defined for
    /// the same shapes and give a matrix of the same shape.
    pub proof fn lemma_product_shapes_associate(
        &self,
        a: MatrixView,
        b: MatrixView,
        c: MatrixView,
        ab: MatrixView,
        bc: MatrixView,
        left: MatrixView,
        right: MatrixView,
    )
        requires
            self.matrix_product(a, b, ab),
            self.matrix_product(ab, c, left),
            self.matrix_product(b, c, bc),
            self.matrix_product(a, bc, right),
        ensures
            left.same_shape(right),
            left.rows == a.rows,
            left.columns == c.columns,
    {
    }
}

impl MatrixView {
    /// A column has one pivot row.
    pub proof fn lemma_pivot_unique(self, h: int, k: int, p: int, q: int)
        requires
            self.is_pivot(h, k, p),
            self.is_pivot(h, k, q),
        ensures
            p == q,
    {
        if p < q {
            assert(exceeds(self.at(q, k), self.at(p, k)));
            assert(!exceeds(self.at(q, k), self.at(p, k)));
        } else if q < p {
            assert(exceeds(self.at(p, k), self.at(q, k)));
            assert(!exceeds(self.at(p, k), self.at(q, k)));
        }
    }
}

} // verus!
