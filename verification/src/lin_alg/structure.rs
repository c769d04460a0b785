//! Operations that move cells without computing on them: transposition and
//! the exchange of two rows or two columns.

use vstd::prelude::*;
use crate::lin_alg::error::MatrixError;
use crate::lin_alg::layout::lemma_rows_in_order;
use crate::lin_alg::matrix::{Matrix, MatrixView};

verus! {

/// Where index `i` goes when `a` and `b` change places.
pub open spec fn exchanged(i: int, a: int, b: int) -> int {
    if i == a {
        b
    } else if i == b {
        a
    } else {
        i
    }
}

impl MatrixView {
    /// `self` is `m` transposed: cell `(c, r)` of `self` is cell `(r, c)` of
    /// `m`.
    pub open spec fn is_transpose_of(self, m: MatrixView) -> bool {
        &&& self.wf()
        &&& self.rows == m.columns
        &&& self.columns == m.rows
        &&& forall|r: int, c: int|
            0 <= r < m.rows && 0 <= c < m.columns ==> #[trigger] self.at(c, r) == m.at(r, c)
    }

    /// `self` is `m` with rows `a` and `b` exchanged.
    pub open spec fn is_row_swap_of(self, m: MatrixView, a: int, b: int) -> bool {
        &&& self.wf()
        &&& self.same_shape(m)
        &&& forall|r: int, c: int|
            0 <= r < m.rows && 0 <= c < m.columns ==> #[trigger] self.at(r, c) == m.at(
                exchanged(r, a, b),
                c,
            )
    }

    /// `self` is `m` with columns `a` and `b` exchanged.
    pub open spec fn is_column_swap_of(self, m: MatrixView, a: int, b: int) -> bool {
        &&& self.wf()
        &&& self.same_shape(m)
        &&& forall|r: int, c: int|
            0 <= r < m.rows && 0 <= c < m.columns ==> #[trigger] self.at(r, c) == m.at(
                r,
                exchanged(c, a, b),
            )
    }
}

impl Matrix {
    /// The transposed matrix.
    pub fn transpose(&self) -> (t: Matrix)
        requires
            self.wf(),
        ensures
            t@.is_transpose_of(self@),
    {
        let rows = self.rows;
        let columns = self.columns;
        let mut data: Vec<u64> = Vec::new();
        let mut c: usize = 0;
        while c < columns
            invariant
                self.wf(),
                rows == self.rows,
                columns == self.columns,
                c <= columns,
                data.len() == c * rows,
                forall|i: int, j: int|
                    0 <= i < rows && 0 <= j < c ==> data[j * rows + i] == #[trigger] self@.at(i, j),
            decreases columns - c,
        {
            let mut r: usize = 0;
            while r < rows
                invariant
                    self.wf(),
                    rows == self.rows,
                    columns == self.columns,
                    c < columns,
                    r <= rows,
                    data.len() == c * rows + r,
                    forall|i: int, j: int|
                        0 <= i < rows && 0 <= j < c ==> data[j * rows + i] == #[trigger] self@.at(i, j),
                    forall|i: int| 0 <= i < r ==> data[c * rows + i] == #[trigger] self@.at(i, c as int),
                decreases rows - r,
            {
                let k = self.offset(r, c);
                let ghost before = data@;
                data.push(self.data[k]);
                proof {
                    assert forall|i: int, j: int| 0 <= i < rows && 0 <= j < c implies data[j * rows + i]
                        == #[trigger] self@.at(i, j) by {
                        lemma_rows_in_order(rows as int, j, i, c as int, r as int);
                        assert(data[j * rows + i] == before[j * rows + i]);
                    }
                }
                r += 1;
            }
            assert(c * rows + rows == (c + 1) * rows) by (nonlinear_arith);
            c += 1;
        }
        let t = Matrix { rows: columns, columns: rows, data };
        proof {
            assert(t@.data.len() == t@.rows * t@.columns);
            assert forall|r: int, c: int| 0 <= r < self@.rows && 0 <= c < self@.columns implies #[trigger] t@.at(
                c,
                r,
            ) == self@.at(r, c) by {
                assert(t@.at(c, r) == data[c * rows + r]);
            }
        }
        t
    }

    /// Exchanges rows `a` and `b`, both of which must exist.
    pub fn exchange_rows(&mut self, a: usize, b: usize)
        requires
            old(self).wf(),
            a < old(self).rows,
            b < old(self).rows,
        ensures
            final(self)@.is_row_swap_of(old(self)@, a as int, b as int),
    {
        if a == b {
            return ;
        }
        let columns = self.columns;
        let mut c: usize = 0;
        while c < columns
            invariant
                self.wf(),
                self@.same_shape(old(self)@),
                columns == self.columns,
                a != b,
                a < self.rows,
                b < self.rows,
                c <= columns,
                forall|r: int, j: int|
                    0 <= r < self.rows && 0 <= j < columns ==> #[trigger] self@.at(r, j) == old(self)@.at(
                        if j < c {
                            exchanged(r, a as int, b as int)
                        } else {
                            r
                        },
                        j,
                    ),
            decreases columns - c,
        {
            let x = self.cell(a, c);
            let y = self.cell(b, c);
            self.put(a, c, y);
            self.put(b, c, x);
            c += 1;
        }
    }

    /// Exchanges rows `a` and `b` in place. With `a == b` nothing is done;
    /// otherwise both must be rows of the matrix.
    pub fn swap_rows(&mut self, a: usize, b: usize) -> (result: Result<(), MatrixError>)
        requires
            old(self).wf(),
        ensures
            final(self).wf(),
            final(self)@.same_shape(old(self)@),
            result.is_ok() <==> (a == b || (a < old(self).rows && b < old(self).rows)),
            result.is_err() ==> result == Err::<(), MatrixError>(MatrixError::IndexOutOfRange)
                && final(self)@ == old(self)@,
            a == b ==> final(self)@ == old(self)@,
            result.is_ok() ==> final(self)@.is_row_swap_of(old(self)@, a as int, b as int),
    {
        if a == b {
            return Ok(());
        }
        if a >= self.rows || b >= self.rows {
            return Err(MatrixError::IndexOutOfRange);
        }
        self.exchange_rows(a, b);
        Ok(())
    }

    /// Exchanges columns `a` and `b`, both of which must exist.
    pub fn exchange_columns(&mut self, a: usize, b: usize)
        requires
            old(self).wf(),
            a < old(self).columns,
            b < old(self).columns,
        ensures
            final(self)@.is_column_swap_of(old(self)@, a as int, b as int),
    {
        if a == b {
            return ;
        }
        let rows = self.rows;
        let columns = self.columns;
        let mut r: usize = 0;
        while r < rows
            invariant
                self.wf(),
                self@.same_shape(old(self)@),
                rows == self.rows,
                columns == self.columns,
                a != b,
                a < columns,
                b < columns,
                r <= rows,
                forall|i: int, j: int|
                    0 <= i < rows && 0 <= j < columns ==> #[trigger] self@.at(i, j) == old(self)@.at(
                        i,
                        if i < r {
                            exchanged(j, a as int, b as int)
                        } else {
                            j
                        },
                    ),
            decreases rows - r,
        {
            let x = self.cell(r, a);
            let y = self.cell(r, b);
            self.put(r, a, y);
            self.put(r, b, x);
            r += 1;
        }
    }

    /// Exchanges columns `a` and `b` in place. With `a == b` nothing is
    /// done; otherwise both must be columns of the matrix.
    pub fn swap_columns(&mut self, a: usize, b: usize) -> (result: Result<(), MatrixError>)
        requires
            old(self).wf(),
        ensures
            final(self).wf(),
            final(self)@.same_shape(old(self)@),
            result.is_ok() <==> (a == b || (a < old(self).columns && b < old(self).columns)),
            result.is_err() ==> result == Err::<(), MatrixError>(MatrixError::IndexOutOfRange)
                && final(self)@ == old(self)@,
            a == b ==> final(self)@ == old(self)@,
            result.is_ok() ==> final(self)@.is_column_swap_of(old(self)@, a as int, b as int),
    {
        if a == b {
            return Ok(());
        }
        if a >= self.columns || b >= self.columns {
            return Err(MatrixError::IndexOutOfRange);
        }
        self.exchange_columns(a, b);
        Ok(())
    }
}

} // verus!
