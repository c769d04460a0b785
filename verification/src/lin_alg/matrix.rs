//! The matrix type, its construction and the access to its cells.

use vstd::prelude::*;
use crate::lin_alg::error::MatrixError;
use crate::lin_alg::laws::lemma_row_is_stretch;
use crate::lin_alg::layout::{lemma_cell_in_buffer, lemma_cells_apart, lemma_rows_in_order};
use crate::lin_alg::scalar::ZERO;

verus! {

/// A dense matrix of binary64 patterns in row-major order.
#[derive(Debug)]
pub struct Matrix {
    /// The number of rows.
    pub rows: usize,
    /// The number of columns.
    pub columns: usize,
    /// The cells, row after row: `rows * columns` of them.
    pub data: Vec<u64>,
}

/// What a matrix is: its extents and its cells in row-major order.
pub struct MatrixView {
    pub rows: nat,
    pub columns: nat,
    pub data: Seq<u64>,
}

impl MatrixView {
    /// The buffer holds exactly one pattern for each cell.
    pub open spec fn wf(self) -> bool {
        self.data.len() == self.rows * self.columns
    }

    /// The cell in row `r` and column `c`.
    pub open spec fn at(self, r: int, c: int) -> u64 {
        self.data[r * self.columns + c]
    }

    /// Both matrices have the same number of rows and of columns.
    pub open spec fn same_shape(self, other: MatrixView) -> bool {
        self.rows == other.rows && self.columns == other.columns
    }

    /// The cells of row `r`, left to right.
    pub open spec fn row(self, r: int) -> Seq<u64> {
        Seq::new(self.columns, |c: int| self.at(r, c))
    }

    /// The cells of column `c`, top to bottom.
    pub open spec fn column(self, c: int) -> Seq<u64> {
        Seq::new(self.rows, |r: int| self.at(r, c))
    }

    /// Every cell is positive zero.
    pub open spec fn is_zero(self) -> bool {
        forall|i: int| 0 <= i < self.data.len() ==> self.data[i] == ZERO
    }
}

/// The column vector with the given cells, top to bottom.
pub open spec fn column_of(cells: Seq<u64>) -> MatrixView {
    MatrixView { rows: cells.len(), columns: 1, data: cells }
}

/// All rows of a literal have the length of the first.
pub open spec fn rectangular(rows: Seq<Vec<u64>>) -> bool {
    forall|i: int| 0 <= i < rows.len() ==> (#[trigger] rows[i]).len() == rows[0].len()
}

/// The number of columns of a literal: the length of its first row.
pub open spec fn literal_columns(rows: Seq<Vec<u64>>) -> nat {
    if rows.len() == 0 {
        0
    } else {
        rows[0]@.len()
    }
}

impl View for Matrix {
    type V = MatrixView;

    open spec fn view(&self) -> MatrixView {
        MatrixView { rows: self.rows as nat, columns: self.columns as nat, data: self.data@ }
    }
}

impl Clone for Matrix {
    fn clone(&self) -> (copy: Self)
        ensures
            copy@ == self@,
    {
        let copy = Matrix { rows: self.rows, columns: self.columns, data: self.data.clone() };
        assert(copy.data@ =~= self.data@);
        copy
    }
}

impl Matrix {
    /// The invariant of the type: `data.len() == rows * columns`.
    pub open spec fn wf(&self) -> bool {
        self@.wf()
    }

    /// Tells whether the buffer holds exactly one pattern for each cell.
    pub fn is_wf(&self) -> (r: bool)
        ensures
            r == self.wf(),
    {
        match self.rows.checked_mul(self.columns) {
            Some(n) => {
                assert(n == self.rows * self.columns);
                assert(self@.wf() == (self.data.len() == self.rows * self.columns));
                n == self.data.len()
            },
            None => {
                assert(self.rows * self.columns > usize::MAX);
                assert(self@.wf() == (self.data.len() == self.rows * self.columns));
                false
            },
        }
    }

    /// The flat index of a cell.
    pub fn offset(&self, row: usize, column: usize) -> (i: usize)
        requires
            self.wf(),
            row < self.rows,
            column < self.columns,
        ensures
            i == row * self.columns + column,
            i < self.data.len(),
    {
        proof {
            lemma_cell_in_buffer(self.rows as int, self.columns as int, row as int, column as int);
            assert(self.data.len() == self.rows * self.columns);
            assert(row * self.columns + column < self.rows * self.columns);
        }
        row * self.columns + column
    }

    /// The cell in row `row` and column `column`, which must exist.
    pub fn cell(&self, row: usize, column: usize) -> (value: u64)
        requires
            self.wf(),
            row < self.rows,
            column < self.columns,
        ensures
            value == self@.at(row as int, column as int),
    {
        let i = self.offset(row, column);
        self.data[i]
    }

    /// Writes `value` into the cell in row `row` and column `column`, which
    /// must exist. Every other cell stays as it is.
    pub fn put(&mut self, row: usize, column: usize, value: u64)
        requires
            old(self).wf(),
            row < old(self).rows,
            column < old(self).columns,
        ensures
            final(self).wf(),
            final(self)@.same_shape(old(self)@),
            final(self)@.data == old(self)@.data.update(row * old(self).columns + column, value),
            final(self)@.at(row as int, column as int) == value,
            forall|r: int, c: int|
                0 <= r < old(self).rows && 0 <= c < old(self).columns && (r != row || c != column)
                    ==> #[trigger] final(self)@.at(r, c) == old(self)@.at(r, c),
    {
        let i = self.offset(row, column);
        self.data.set(i, value);
        proof {
            assert forall|r: int, c: int|
                0 <= r < old(self).rows && 0 <= c < old(self).columns && (r != row || c
                    != column) implies #[trigger] self@.at(r, c) == old(self)@.at(r, c) by {
                lemma_cell_in_buffer(self.rows as int, self.columns as int, r, c);
                lemma_cells_apart(self.columns as int, r, c, row as int, column as int);
            }
        }
    }

    /// A matrix of the given extents with every cell positive zero.
    pub fn new(rows: usize, columns: usize) -> (m: Matrix)
        ensures
            m.wf(),
            m.rows == rows,
            m.columns == columns,
            m@.is_zero(),
    {
        let mut data: Vec<u64> = Vec::new();
        if columns > 0 {
            let mut r: usize = 0;
            while r < rows
                invariant
                    r <= rows,
                    data.len() == r * columns,
                    forall|i: int| 0 <= i < data.len() ==> data[i] == ZERO,
                decreases rows - r,
            {
                let mut c: usize = 0;
                while c < columns
                    invariant
                        r < rows,
                        c <= columns,
                        data.len() == r * columns + c,
                        forall|i: int| 0 <= i < data.len() ==> data[i] == ZERO,
                    decreases columns - c,
                {
                    data.push(ZERO);
                    c += 1;
                }
                assert(r * columns + columns == (r + 1) * columns) by (nonlinear_arith);
                r += 1;
            }
        } else {
            assert(rows * columns == 0) by (nonlinear_arith)
                requires
                    columns == 0,
            ;
        }
        Matrix { rows, columns, data }
    }

    /// Builds a matrix from its rows. All rows must have the length of the
    /// first; no rows at all give the empty matrix.
    pub fn from_rows(rows: &Vec<Vec<u64>>) -> (result: Result<Matrix, MatrixError>)
        ensures
            rectangular(rows@) ==> result.is_ok(),
            match result {
                Ok(m) => m.wf() && rectangular(rows@) && m@.rows == rows.len() && m@.columns == literal_columns(rows@)
                    && forall|r: int, c: int|
                    0 <= r < rows.len() && 0 <= c < m.columns ==> m@.at(r, c) == #[trigger] rows[r][c],
                Err(e) => e == MatrixError::ShapeMismatch,
            },
    {
        let count = rows.len();
        let columns = if count == 0 {
            0
        } else {
            rows[0].len()
        };
        let mut data: Vec<u64> = Vec::new();
        let mut r: usize = 0;
        while r < count
            invariant
                r <= count,
                count == rows.len(),
                count > 0 ==> columns == rows[0].len(),
                data.len() == r * columns,
                forall|i: int| 0 <= i < r ==> (#[trigger] rows[i]).len() == columns,
                forall|i: int, j: int|
                    0 <= i < r && 0 <= j < columns ==> data[i * columns + j] == #[trigger] rows[i][j],
            decreases count - r,
        {
            let line = &rows[r];
            if line.len() != columns {
                return Err(MatrixError::ShapeMismatch);
            }
            let mut c: usize = 0;
            while c < columns
                invariant
                    r < count,
                    c <= columns,
                    line == rows[r as int],
                    line.len() == columns,
                    data.len() == r * columns + c,
                    forall|i: int, j: int|
                        0 <= i < r && 0 <= j < columns ==> data[i * columns + j] == #[trigger] rows[i][j],
                    forall|j: int| 0 <= j < c ==> data[r * columns + j] == #[trigger] rows[r as int][j],
                decreases columns - c,
            {
                let ghost before = data@;
                data.push(line[c]);
                proof {
                    assert forall|i: int, j: int| 0 <= i < r && 0 <= j < columns implies data[i * columns
                        + j] == #[trigger] rows[i][j] by {
                        lemma_rows_in_order(columns as int, i, j, r as int, c as int);
                        assert(data[i * columns + j] == before[i * columns + j]);
                    }
                }
                c += 1;
            }
            assert(r * columns + columns == (r + 1) * columns) by (nonlinear_arith);
            r += 1;
        }
        Ok(Matrix { rows: count, columns, data })
    }

    /// The column vector with the given cells, top to bottom.
    pub fn from_column(cells: Vec<u64>) -> (m: Matrix)
        ensures
            m.wf(),
            m@ == column_of(cells@),
    {
        let rows = cells.len();
        assert(rows * 1 == rows);
        Matrix { rows, columns: 1, data: cells }
    }

    /// Reads the cell in row `row` and column `column`.
    pub fn get(&self, row: usize, column: usize) -> (result: Result<u64, MatrixError>)
        requires
            self.wf(),
        ensures
            result == (if row < self.rows && column < self.columns {
                Ok(self@.at(row as int, column as int))
            } else {
                Err(MatrixError::IndexOutOfRange)
            }),
    {
        if row >= self.rows || column >= self.columns {
            return Err(MatrixError::IndexOutOfRange);
        }
        let i = self.offset(row, column);
        Ok(self.data[i])
    }

    /// Writes `value` into the cell in row `row` and column `column`, and
    /// leaves the matrix as it is when there is no such cell.
    pub fn set(&mut self, row: usize, column: usize, value: u64) -> (result: Result<(), MatrixError>)
        requires
            old(self).wf(),
        ensures
            final(self).wf(),
            final(self)@.same_shape(old(self)@),
            row < old(self).rows && column < old(self).columns ==> result == Ok::<(), MatrixError>(())
                && final(self)@.data == old(self)@.data.update(row * old(self).columns + column, value),
            !(row < old(self).rows && column < old(self).columns) ==> result == Err::<
                (),
                MatrixError,
            >(MatrixError::IndexOutOfRange) && final(self)@ == old(self)@,
    {
        if row >= self.rows || column >= self.columns {
            return Err(MatrixError::IndexOutOfRange);
        }
        self.put(row, column, value);
        Ok(())
    }

    /// A copy of row `row`.
    pub fn get_row(&self, row: usize) -> (result: Result<Vec<u64>, MatrixError>)
        requires
            self.wf(),
        ensures
            match result {
                Ok(cells) => {
                    &&& row < self.rows
                    &&& cells@ == self@.row(row as int)
                    &&& cells@ == self.data@.subrange(row * self.columns, row * self.columns + self.columns)
                },
                Err(e) => row >= self.rows && e == MatrixError::IndexOutOfRange,
            },
    {
        if row >= self.rows {
            return Err(MatrixError::IndexOutOfRange);
        }
        let mut cells: Vec<u64> = Vec::new();
        let mut c: usize = 0;
        while c < self.columns
            invariant
                self.wf(),
                row < self.rows,
                c <= self.columns,
                cells.len() == c,
                forall|j: int| 0 <= j < c ==> cells[j] == self@.at(row as int, j),
            decreases self.columns - c,
        {
            let i = self.offset(row, c);
            cells.push(self.data[i]);
            c += 1;
        }
        proof {
            assert(cells@ =~= self@.row(row as int));
            lemma_row_is_stretch(self@, row as int);
        }
        Ok(cells)
    }

    /// A copy of column `column`: one cell from each row, a stride of
    /// `columns` apart.
    pub fn get_column(&self, column: usize) -> (result: Result<Vec<u64>, MatrixError>)
        requires
            self.wf(),
        ensures
            match result {
                Ok(cells) => column < self.columns && cells@ == self@.column(column as int),
                Err(e) => column >= self.columns && e == MatrixError::IndexOutOfRange,
            },
    {
        if column >= self.columns {
            return Err(MatrixError::IndexOutOfRange);
        }
        let mut cells: Vec<u64> = Vec::new();
        let mut r: usize = 0;
        while r < self.rows
            invariant
                self.wf(),
                column < self.columns,
                r <= self.rows,
                cells.len() == r,
                forall|j: int| 0 <= j < r ==> cells[j] == self@.at(j, column as int),
            decreases self.rows - r,
        {
            let i = self.offset(r, column);
            cells.push(self.data[i]);
            r += 1;
        }
        assert(cells@ =~= self@.column(column as int));
        Ok(cells)
    }
}

} // verus!
