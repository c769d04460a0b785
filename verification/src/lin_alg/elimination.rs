//! Forward Gaussian elimination with partial pivoting, and the determinant
//! read off the diagonal of its result.
//!
//! The elimination walks a pivot row `h` and a pivot column `k` from the top
//! left. In column `k` it looks, from row `h` down, for the cell of largest
//! absolute value. Where that cell is below the tolerance the column is left
//! as it is and `k` moves on. Otherwise the cell's row changes places with row
//! `h`, every row below has its cell in column `k` set to zero and the pivot
//! row, times the quotient of the two cells, subtracted from the rest of it,
//! and both `h` and `k` move on.

use vstd::prelude::*;
use crate::lin_alg::arithmetic::Arithmetic;
use crate::lin_alg::error::MatrixError;
use crate::lin_alg::matrix::{Matrix, MatrixView};
use crate::lin_alg::scalar::{below_tolerance, exceeds, is_below_tolerance, is_larger, ONE, ZERO};

verus! {

impl MatrixView {
    /// `p` is the pivot row for column `k` from row `h` down: no cell of the
    /// column in rows `h..` is larger in absolute value than the one in row
    /// `p`, and those above row `p` are smaller.
    pub open spec fn is_pivot(self, h: int, k: int, p: int) -> bool {
        &&& h <= p < self.rows
        &&& forall|r: int| h <= r < self.rows ==> !exceeds(#[trigger] self.at(r, k), self.at(p, k))
        &&& forall|r: int| h <= r < p ==> exceeds(self.at(p, k), #[trigger] self.at(r, k))
    }
}

impl<A, S, M, D, E, L> Arithmetic<A, S, M, D, E, L> where
    A: Fn(u64, u64) -> u64,
    S: Fn(u64, u64) -> u64,
    M: Fn(u64, u64) -> u64,
    D: Fn(u64, u64) -> u64,
    E: Fn(u64) -> u64,
    L: Fn(u64) -> u64,
 {
    /// `v` is what cell `(r, c)` of `m` becomes when row `r` is reduced
    /// against pivot row `h` in column `k` with the factor `f`: unchanged left
    /// of the pivot column, zero in it, and to its right the cell less `f`
    /// times the pivot row's cell above it.
    pub open spec fn reduced_cell(&self, m: MatrixView, h: int, k: int, r: int, c: int, f: u64, v: u64) -> bool {
        if c < k {
            v == m.at(r, c)
        } else if c == k {
            v == ZERO
        } else {
            exists|p: u64|
                #![trigger self.difference(m.at(r, c), p, v)]
                self.product(m.at(h, c), f, p) && self.difference(m.at(r, c), p, v)
        }
    }

    /// `cells` is row `r` of `m` after the pivot step at `(h, k)`: the rows
    /// down to the pivot row stay, and a row below is reduced with the
    /// quotient of its cell in the pivot column and the pivot.
    pub open spec fn reduced_row(&self, m: MatrixView, h: int, k: int, r: int, cells: Seq<u64>) -> bool {
        &&& cells.len() == m.columns
        &&& if r <= h {
            cells == m.row(r)
        } else {
            exists|f: u64|
                #![trigger self.quotient(m.at(r, k), m.at(h, k), f)]
                {
                    &&& self.quotient(m.at(r, k), m.at(h, k), f)
                    &&& forall|c: int|
                        0 <= c < m.columns ==> self.reduced_cell(m, h, k, r, c, f, #[trigger] cells[c])
                }
        }
    }

    /// `t` is `m` with column `k` cleared below the pivot row `h`.
    pub open spec fn reduction(&self, m: MatrixView, h: int, k: int, t: MatrixView) -> bool {
        &&& t.wf()
        &&& t.same_shape(m)
        &&& forall|r: int| 0 <= r < m.rows ==> self.reduced_row(m, h, k, r, #[trigger] t.row(r))
    }

    /// `next` is `m` after the pivot step at `(h, k)` with pivot row `p`: rows
    /// `h` and `p` exchanged, then column `k` cleared below row `h`.
    pub open spec fn pivot_step(&self, m: MatrixView, h: int, k: int, p: int, next: MatrixView) -> bool {
        exists|s: MatrixView|
            #![trigger self.reduction(s, h, k, next)]
            s.is_row_swap_of(m, h, p) && self.reduction(s, h, k, next)
    }

    /// `t` is an outcome of the elimination on `m`, taken up at pivot row `h`
    /// and pivot column `k`.
    pub open spec fn elimination(&self, m: MatrixView, h: nat, k: nat, t: MatrixView) -> bool
        decreases m.columns - k,
    {
        if h >= m.rows || k >= m.columns {
            t == m
        } else {
            exists|p: int|
                #![trigger m.is_pivot(h as int, k as int, p)]
                {
                    &&& m.is_pivot(h as int, k as int, p)
                    &&& if below_tolerance(m.at(p, k as int)) {
                        self.elimination(m, h, (k + 1) as nat, t)
                    } else {
                        exists|mid: MatrixView|
                            #![trigger self.pivot_step(m, h as int, k as int, p, mid)]
                            {
                                &&& self.pivot_step(m, h as int, k as int, p, mid)
                                &&& self.elimination(mid, (h + 1) as nat, (k + 1) as nat, t)
                            }
                    }
                }
        }
    }

    /// `acc` is an outcome of multiplying up, from 1 and from the top left,
    /// the first `n` cells of the diagonal of `m`.
    pub open spec fn diagonal_product(&self, m: MatrixView, n: nat, acc: u64) -> bool
        decreases n,
    {
        if n == 0 {
            acc == ONE
        } else {
            exists|before: u64|
                #![trigger self.product(before, m.at(n - 1, n - 1), acc)]
                {
                    &&& self.diagonal_product(m, (n - 1) as nat, before)
                    &&& self.product(before, m.at(n - 1, n - 1), acc)
                }
        }
    }

    /// Where the pivot of column `k` is below the tolerance, the elimination
    /// goes on in the next column.
    pub proof fn lemma_elimination_skips(&self, m: MatrixView, h: nat, k: nat, p: int, t: MatrixView)
        requires
            h < m.rows,
            k < m.columns,
            m.is_pivot(h as int, k as int, p),
            below_tolerance(m.at(p, k as int)),
            self.elimination(m, h, (k + 1) as nat, t),
        ensures
            self.elimination(m, h, k, t),
    {
    }

    /// Where the pivot of column `k` can be used, the elimination goes on
    /// below and to the right of it after the pivot step.
    pub proof fn lemma_elimination_steps(
        &self,
        m: MatrixView,
        h: nat,
        k: nat,
        p: int,
        mid: MatrixView,
        t: MatrixView,
    )
        requires
            h < m.rows,
            k < m.columns,
            m.is_pivot(h as int, k as int, p),
            !below_tolerance(m.at(p, k as int)),
            self.pivot_step(m, h as int, k as int, p, mid),
            self.elimination(mid, (h + 1) as nat, (k + 1) as nat, t),
        ensures
            self.elimination(m, h, k, t),
    {
    }

    /// What a row is reduced to depends on the row itself and on the pivot
    /// row, not on the rest of the matrix.
    pub proof fn lemma_reduced_row_reads_two_rows(
        &self,
        m: MatrixView,
        n: MatrixView,
        h: int,
        k: int,
        r: int,
        cells: Seq<u64>,
    )
        requires
            m.columns == n.columns,
            forall|c: int| 0 <= c < m.columns ==> #[trigger] m.at(r, c) == n.at(r, c),
            forall|c: int| 0 <= c < m.columns ==> #[trigger] m.at(h, c) == n.at(h, c),
            0 <= k < m.columns,
            self.reduced_row(m, h, k, r, cells),
        ensures
            self.reduced_row(n, h, k, r, cells),
    {
        if r <= h {
            assert(m.row(r) =~= n.row(r));
        } else {
            let f = choose|f: u64|
                #![trigger self.quotient(m.at(r, k), m.at(h, k), f)]
                {
                    &&& self.quotient(m.at(r, k), m.at(h, k), f)
                    &&& forall|c: int|
                        0 <= c < m.columns ==> self.reduced_cell(m, h, k, r, c, f, #[trigger] cells[c])
                };
            assert(m.at(r, k) == n.at(r, k));
            assert(m.at(h, k) == n.at(h, k));
            assert forall|c: int| 0 <= c < n.columns implies self.reduced_cell(
                n,
                h,
                k,
                r,
                c,
                f,
                #[trigger] cells[c],
            ) by {
                assert(self.reduced_cell(m, h, k, r, c, f, cells[c]));
                assert(m.at(r, c) == n.at(r, c));
                assert(m.at(h, c) == n.at(h, c));
            }
            assert(self.quotient(n.at(r, k), n.at(h, k), f));
        }
    }

    /// One more diagonal cell, multiplied onto a product of `n - 1` of them,
    /// gives the product of `n`.
    pub proof fn lemma_diagonal_extends(&self, m: MatrixView, n: nat, before: u64, acc: u64)
        requires
            n > 0,
            self.diagonal_product(m, (n - 1) as nat, before),
            self.product(before, m.at(n - 1, n - 1), acc),
        ensures
            self.diagonal_product(m, n, acc),
    {
    }
}

impl Matrix {
    /// The pivot row for column `k` from row `h` down.
    pub fn pivot_row(&self, h: usize, k: usize) -> (p: usize)
        requires
            self.wf(),
            h < self.rows,
            k < self.columns,
        ensures
            self@.is_pivot(h as int, k as int, p as int),
    {
        let mut best: usize = h;
        let mut r: usize = h + 1;
        while r < self.rows
            invariant
                self.wf(),
                k < self.columns,
                h <= best < r <= self.rows,
                forall|i: int|
                    h <= i < r ==> !exceeds(#[trigger] self@.at(i, k as int), self@.at(best as int, k as int)),
                forall|i: int|
                    h <= i < best ==> exceeds(self@.at(best as int, k as int), #[trigger] self@.at(i, k as int)),
            decreases self.rows - r,
        {
            if is_larger(self.cell(r, k), self.cell(best, k)) {
                best = r;
            }
            r += 1;
        }
        best
    }

    /// Reduces row `i` against the pivot row `h` in column `k`: divides the
    /// row's cell in the pivot column by the pivot, sets that cell to zero
    /// and subtracts the quotient times the pivot row from the cells to its
    /// right.
    pub fn reduce_row<A, S, M, D, E, L>(
        &mut self,
        h: usize,
        k: usize,
        i: usize,
        unit: &Arithmetic<A, S, M, D, E, L>,
    ) where
        A: Fn(u64, u64) -> u64,
        S: Fn(u64, u64) -> u64,
        M: Fn(u64, u64) -> u64,
        D: Fn(u64, u64) -> u64,
        E: Fn(u64) -> u64,
        L: Fn(u64) -> u64,

        requires
            old(self).wf(),
            unit.total(),
            h < i < old(self).rows,
            k < old(self).columns,
        ensures
            final(self).wf(),
            final(self)@.same_shape(old(self)@),
            unit.reduced_row(old(self)@, h as int, k as int, i as int, final(self)@.row(i as int)),
            forall|r: int, c: int|
                0 <= r < old(self).rows && 0 <= c < old(self).columns && r != i ==> #[trigger] final(self)@.at(r, c)
                    == old(self)@.at(r, c),
    {
        let columns = self.columns;
        let pivot = self.cell(h, k);
        let factor = unit.over(self.cell(i, k), pivot);
        self.put(i, k, ZERO);
        let mut j: usize = k + 1;
        while j < columns
            invariant
                self.wf(),
                self@.same_shape(old(self)@),
                unit.total(),
                columns == self.columns,
                h < i < self.rows,
                k < j <= columns,
                forall|r: int, c: int|
                    0 <= r < self.rows && 0 <= c < columns && r != i ==> #[trigger] self@.at(r, c)
                        == old(self)@.at(r, c),
                forall|c: int|
                    0 <= c < j ==> unit.reduced_cell(
                        old(self)@,
                        h as int,
                        k as int,
                        i as int,
                        c,
                        factor,
                        #[trigger] self@.at(i as int, c),
                    ),
                forall|c: int| j <= c < columns ==> #[trigger] self@.at(i as int, c) == old(self)@.at(i as int, c),
            decreases columns - j,
        {
            let above = self.cell(h, j);
            let part = unit.times(above, factor);
            let value = unit.minus(self.cell(i, j), part);
            proof {
                assert(above == old(self)@.at(h as int, j as int));
                assert(unit.product(old(self)@.at(h as int, j as int), factor, part));
                assert(unit.difference(old(self)@.at(i as int, j as int), part, value));
                assert(unit.reduced_cell(old(self)@, h as int, k as int, i as int, j as int, factor, value));
            }
            self.put(i, j, value);
            j += 1;
        }
        proof {
            let cells = self@.row(i as int);
            assert forall|c: int| 0 <= c < columns implies unit.reduced_cell(
                old(self)@,
                h as int,
                k as int,
                i as int,
                c,
                factor,
                #[trigger] cells[c],
            ) by {
                assert(cells[c] == self@.at(i as int, c));
            }
            assert(unit.quotient(old(self)@.at(i as int, k as int), old(self)@.at(h as int, k as int), factor));
        }
    }

    /// Clears column `k` below the pivot row `h`: reduces every row below
    /// row `h` against it.
    pub fn clear_below<A, S, M, D, E, L>(&mut self, h: usize, k: usize, unit: &Arithmetic<A, S, M, D, E, L>) where
        A: Fn(u64, u64) -> u64,
        S: Fn(u64, u64) -> u64,
        M: Fn(u64, u64) -> u64,
        D: Fn(u64, u64) -> u64,
        E: Fn(u64) -> u64,
        L: Fn(u64) -> u64,

        requires
            old(self).wf(),
            unit.total(),
            h < old(self).rows,
            k < old(self).columns,
        ensures
            final(self).wf(),
            unit.reduction(old(self)@, h as int, k as int, final(self)@),
    {
        let rows = self.rows;
        let mut i: usize = h + 1;
        proof {
            assert forall|r: int| 0 <= r < h + 1 implies unit.reduced_row(
                old(self)@,
                h as int,
                k as int,
                r,
                #[trigger] self@.row(r),
            ) by {
            }
        }
        while i < rows
            invariant
                self.wf(),
                self@.same_shape(old(self)@),
                unit.total(),
                rows == self.rows,
                h < i <= rows,
                k < self.columns,
                forall|r: int|
                    0 <= r < i ==> unit.reduced_row(old(self)@, h as int, k as int, r, #[trigger] self@.row(r)),
                forall|r: int, c: int|
                    0 <= r < rows && 0 <= c < self.columns && (r <= h || r >= i) ==> #[trigger] self@.at(r, c)
                        == old(self)@.at(r, c),
            decreases rows - i,
        {
            let ghost before = self@;
            self.reduce_row(h, k, i, unit);
            proof {
                unit.lemma_reduced_row_reads_two_rows(
                    before,
                    old(self)@,
                    h as int,
                    k as int,
                    i as int,
                    self@.row(i as int),
                );
                assert forall|r: int| 0 <= r < i + 1 implies unit.reduced_row(
                    old(self)@,
                    h as int,
                    k as int,
                    r,
                    #[trigger] self@.row(r),
                ) by {
                    if r < i {
                        assert(self@.row(r) =~= before.row(r));
                    }
                }
            }
            i += 1;
        }
    }

    /// Reduces the matrix in place to row echelon form by elimination with
    /// partial pivoting.
    pub fn forward_guassian_elimination<A, S, M, D, E, L>(&mut self, unit: &Arithmetic<A, S, M, D, E, L>) where
        A: Fn(u64, u64) -> u64,
        S: Fn(u64, u64) -> u64,
        M: Fn(u64, u64) -> u64,
        D: Fn(u64, u64) -> u64,
        E: Fn(u64) -> u64,
        L: Fn(u64) -> u64,

        requires
            old(self).wf(),
            unit.total(),
        ensures
            final(self).wf(),
            final(self)@.same_shape(old(self)@),
            unit.elimination(old(self)@, 0, 0, final(self)@),
    {
        let rows = self.rows;
        let columns = self.columns;
        let mut h: usize = 0;
        let mut k: usize = 0;
        while h < rows && k < columns
            invariant
                self.wf(),
                self@.same_shape(old(self)@),
                unit.total(),
                rows == self.rows,
                columns == self.columns,
                h <= rows,
                k <= columns,
                forall|t: MatrixView| #[trigger]
                    unit.elimination(self@, h as nat, k as nat, t) ==> unit.elimination(old(self)@, 0, 0, t),
            decreases columns - k,
        {
            let p = self.pivot_row(h, k);
            if is_below_tolerance(self.cell(p, k)) {
                k += 1;
                proof {
                    assert forall|t: MatrixView| #[trigger]
                        unit.elimination(self@, h as nat, k as nat, t) implies unit.elimination(
                        old(self)@,
                        0,
                        0,
                        t,
                    ) by {
                        unit.lemma_elimination_skips(self@, h as nat, (k - 1) as nat, p as int, t);
                    }
                }
            } else {
                let ghost start = self@;
                self.exchange_rows(h, p);
                let ghost exchanged = self@;
                self.clear_below(h, k, unit);
                proof {
                    assert(exchanged.is_row_swap_of(start, h as int, p as int));
                    assert(unit.reduction(exchanged, h as int, k as int, self@));
                    assert(unit.pivot_step(start, h as int, k as int, p as int, self@));
                }
                h += 1;
                k += 1;
                proof {
                    assert forall|t: MatrixView| #[trigger]
                        unit.elimination(self@, h as nat, k as nat, t) implies unit.elimination(
                        old(self)@,
                        0,
                        0,
                        t,
                    ) by {
                        unit.lemma_elimination_steps(
                            start,
                            (h - 1) as nat,
                            (k - 1) as nat,
                            p as int,
                            self@,
                            t,
                        );
                    }
                }
            }
        }
        proof {
            assert(unit.elimination(self@, h as nat, k as nat, self@));
        }
    }

    /// The determinant of a square matrix: eliminates in place, then
    /// multiplies up the diagonal. The exchanges of rows are not counted, so
    /// the sign is that of the product.
    pub fn determinant_by_guassian_elimination<A, S, M, D, E, L>(
        &mut self,
        unit: &Arithmetic<A, S, M, D, E, L>,
    ) -> (result: Result<u64, MatrixError>) where
        A: Fn(u64, u64) -> u64,
        S: Fn(u64, u64) -> u64,
        M: Fn(u64, u64) -> u64,
        D: Fn(u64, u64) -> u64,
        E: Fn(u64) -> u64,
        L: Fn(u64) -> u64,

        requires
            old(self).wf(),
            unit.total(),
        ensures
            final(self).wf(),
            final(self)@.same_shape(old(self)@),
            match result {
                Ok(d) => old(self).rows == old(self).columns && unit.elimination(old(self)@, 0, 0, final(self)@)
                    && unit.diagonal_product(final(self)@, final(self)@.rows, d),
                Err(e) => old(self).rows != old(self).columns && e == MatrixError::ShapeMismatch && final(self)@
                    == old(self)@,
            },
    {
        if self.rows != self.columns {
            return Err(MatrixError::ShapeMismatch);
        }
        self.forward_guassian_elimination(unit);
        let n = self.rows;
        let mut acc: u64 = ONE;
        let mut i: usize = 0;
        while i < n
            invariant
                self.wf(),
                unit.total(),
                n == self.rows,
                n == self.columns,
                i <= n,
                unit.diagonal_product(self@, i as nat, acc),
            decreases n - i,
        {
            let next = unit.times(acc, self.cell(i, i));
            proof {
                unit.lemma_diagonal_extends(self@, (i + 1) as nat, acc, next);
            }
            acc = next;
            i += 1;
        }
        Ok(acc)
    }
}

} // verus!
