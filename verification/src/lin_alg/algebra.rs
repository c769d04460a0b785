//! Sums, differences and products of matrices, and the image of a matrix
//! under a function of one scalar.

use vstd::prelude::*;
use crate::lin_alg::arithmetic::Arithmetic;
use crate::lin_alg::error::MatrixError;
use crate::lin_alg::layout::lemma_rows_in_order;
use crate::lin_alg::matrix::{Matrix, MatrixView};
use crate::lin_alg::scalar::ZERO;

verus! {

impl MatrixView {
    /// `self` is `a` with `f` applied to every cell.
    pub open spec fn is_image_of<F: Fn(u64) -> u64>(self, f: F, a: MatrixView) -> bool {
        &&& self.wf()
        &&& self.same_shape(a)
        &&& forall|i: int| 0 <= i < self.data.len() ==> f.ensures((a.data[i],), #[trigger] self.data[i])
    }

    /// `self` pairs each cell of `a` with the cell of `b` in the same place,
    /// and holds an outcome of `f` on the two.
    pub open spec fn is_pairing_of<F: Fn(u64, u64) -> u64>(
        self,
        f: F,
        a: MatrixView,
        b: MatrixView,
    ) -> bool {
        &&& self.wf()
        &&& self.same_shape(a)
        &&& a.same_shape(b)
        &&& forall|i: int|
            0 <= i < self.data.len() ==> f.ensures((a.data[i], b.data[i]), #[trigger] self.data[i])
    }
}

impl<A, S, M, D, E, L> Arithmetic<A, S, M, D, E, L> where
    A: Fn(u64, u64) -> u64,
    S: Fn(u64, u64) -> u64,
    M: Fn(u64, u64) -> u64,
    D: Fn(u64, u64) -> u64,
    E: Fn(u64) -> u64,
    L: Fn(u64) -> u64,
 {
    /// `r` is `a + b`: each cell of `r` is an outcome of adding the two cells
    /// in its place.
    pub open spec fn matrix_sum(&self, a: MatrixView, b: MatrixView, r: MatrixView) -> bool {
        r.is_pairing_of(self.add, a, b)
    }

    /// `r` is `a - b`, cell by cell.
    pub open spec fn matrix_difference(&self, a: MatrixView, b: MatrixView, r: MatrixView) -> bool {
        r.is_pairing_of(self.sub, a, b)
    }

    /// `r` is the product of `a` and `b` cell by cell.
    pub open spec fn hadamard(&self, a: MatrixView, b: MatrixView, r: MatrixView) -> bool {
        r.is_pairing_of(self.mul, a, b)
    }

    /// `acc` is an outcome of adding up, from positive zero and from left to
    /// right, the first `n` products of a cell in row `i` of `a` and the cell
    /// of column `j` of `b` that it meets.
    pub open spec fn dot(
        &self,
        a: MatrixView,
        b: MatrixView,
        i: int,
        j: int,
        n: nat,
        acc: u64,
    ) -> bool
        decreases n,
    {
        if n == 0 {
            acc == ZERO
        } else {
            exists|before: u64, term: u64|
                #![trigger self.sum(before, term, acc)]
                {
                    &&& self.dot(a, b, i, j, (n - 1) as nat, before)
                    &&& self.product(a.at(i, n - 1), b.at(n - 1, j), term)
                    &&& self.sum(before, term, acc)
                }
        }
    }

    /// One more product, added to a dot product of `n - 1` terms, gives one
    /// of `n` terms.
    pub proof fn lemma_dot_extends(
        &self,
        a: MatrixView,
        b: MatrixView,
        i: int,
        j: int,
        n: nat,
        before: u64,
        term: u64,
        acc: u64,
    )
        requires
            n > 0,
            self.dot(a, b, i, j, (n - 1) as nat, before),
            self.product(a.at(i, n - 1), b.at(n - 1, j), term),
            self.sum(before, term, acc),
        ensures
            self.dot(a, b, i, j, n, acc),
    {
    }

    /// `r` is the matrix product of `a` and `b`: cell `(i, j)` is the dot
    /// product of row `i` of `a` and column `j` of `b`.
    pub open spec fn matrix_product(&self, a: MatrixView, b: MatrixView, r: MatrixView) -> bool {
        &&& r.wf()
        &&& a.columns == b.rows
        &&& r.rows == a.rows
        &&& r.columns == b.columns
        &&& forall|i: int, j: int|
            0 <= i < r.rows && 0 <= j < r.columns ==> self.dot(a, b, i, j, a.columns, #[trigger] r.at(i, j))
    }
}

impl Matrix {
    /// Applies `f` to every cell.
    pub fn map<F: Fn(u64) -> u64>(&self, f: F) -> (m: Matrix)
        requires
            self.wf(),
            forall|i: int| 0 <= i < self.data.len() ==> f.requires((#[trigger] self.data[i],)),
        ensures
            m@.is_image_of(f, self@),
    {
        let n = self.data.len();
        let mut data: Vec<u64> = Vec::new();
        let mut i: usize = 0;
        while i < n
            invariant
                n == self.data.len(),
                i <= n,
                data.len() == i,
                forall|k: int| 0 <= k < self.data.len() ==> f.requires((#[trigger] self.data[k],)),
                forall|k: int| 0 <= k < i ==> f.ensures((self.data[k],), #[trigger] data[k]),
            decreases n - i,
        {
            let v = f(self.data[i]);
            data.push(v);
            i += 1;
        }
        Matrix { rows: self.rows, columns: self.columns, data }
    }

    /// Pairs the cells of two matrices of one shape through `f`.
    pub fn zip_with<F: Fn(u64, u64) -> u64>(&self, other: &Matrix, f: &F) -> (result: Result<Matrix, MatrixError>)
        requires
            self.wf(),
            other.wf(),
            forall|x: u64, y: u64| #[trigger] f.requires((x, y)),
        ensures
            match result {
                Ok(m) => self@.same_shape(other@) && m@.is_pairing_of(*f, self@, other@),
                Err(e) => !self@.same_shape(other@) && e == MatrixError::ShapeMismatch,
            },
    {
        if self.rows != other.rows || self.columns != other.columns {
            return Err(MatrixError::ShapeMismatch);
        }
        let n = self.data.len();
        let mut data: Vec<u64> = Vec::new();
        let mut i: usize = 0;
        while i < n
            invariant
                n == self.data.len(),
                n == other.data.len(),
                i <= n,
                data.len() == i,
                forall|x: u64, y: u64| #[trigger] f.requires((x, y)),
                forall|k: int| 0 <= k < i ==> f.ensures((self.data[k], other.data[k]), #[trigger] data[k]),
            decreases n - i,
        {
            let v = f(self.data[i], other.data[i]);
            data.push(v);
            i += 1;
        }
        Ok(Matrix { rows: self.rows, columns: self.columns, data })
    }

    /// The sum of two matrices of one shape.
    pub fn add_matrices<A, S, M, D, E, L>(
        &self,
        a: &Matrix,
        unit: &Arithmetic<A, S, M, D, E, L>,
    ) -> (result: Result<Matrix, MatrixError>) where
        A: Fn(u64, u64) -> u64,
        S: Fn(u64, u64) -> u64,
        M: Fn(u64, u64) -> u64,
        D: Fn(u64, u64) -> u64,
        E: Fn(u64) -> u64,
        L: Fn(u64) -> u64,

        requires
            self.wf(),
            a.wf(),
            unit.total(),
        ensures
            match result {
                Ok(m) => self@.same_shape(a@) && unit.matrix_sum(self@, a@, m@),
                Err(e) => !self@.same_shape(a@) && e == MatrixError::ShapeMismatch,
            },
    {
        self.zip_with(a, &unit.add)
    }

    /// The difference of two matrices of one shape.
    pub fn subtract_matrices<A, S, M, D, E, L>(
        &self,
        a: &Matrix,
        unit: &Arithmetic<A, S, M, D, E, L>,
    ) -> (result: Result<Matrix, MatrixError>) where
        A: Fn(u64, u64) -> u64,
        S: Fn(u64, u64) -> u64,
        M: Fn(u64, u64) -> u64,
        D: Fn(u64, u64) -> u64,
        E: Fn(u64) -> u64,
        L: Fn(u64) -> u64,

        requires
            self.wf(),
            a.wf(),
            unit.total(),
        ensures
            match result {
                Ok(m) => self@.same_shape(a@) && unit.matrix_difference(self@, a@, m@),
                Err(e) => !self@.same_shape(a@) && e == MatrixError::ShapeMismatch,
            },
    {
        self.zip_with(a, &unit.sub)
    }

    /// The product of two matrices of one shape, cell by cell.
    pub fn elementwise_multiplication<A, S, M, D, E, L>(
        &self,
        a: &Matrix,
        unit: &Arithmetic<A, S, M, D, E, L>,
    ) -> (result: Result<Matrix, MatrixError>) where
        A: Fn(u64, u64) -> u64,
        S: Fn(u64, u64) -> u64,
        M: Fn(u64, u64) -> u64,
        D: Fn(u64, u64) -> u64,
        E: Fn(u64) -> u64,
        L: Fn(u64) -> u64,

        requires
            self.wf(),
            a.wf(),
            unit.total(),
        ensures
            match result {
                Ok(m) => self@.same_shape(a@) && unit.hadamard(self@, a@, m@),
                Err(e) => !self@.same_shape(a@) && e == MatrixError::ShapeMismatch,
            },
    {
        self.zip_with(a, &unit.mul)
    }

    /// The matrix product `self * a`, which needs as many columns in `self`
    /// as `a` has rows.
    pub fn multiply_matrices<A, S, M, D, E, L>(
        &self,
        a: &Matrix,
        unit: &Arithmetic<A, S, M, D, E, L>,
    ) -> (result: Result<Matrix, MatrixError>) where
        A: Fn(u64, u64) -> u64,
        S: Fn(u64, u64) -> u64,
        M: Fn(u64, u64) -> u64,
        D: Fn(u64, u64) -> u64,
        E: Fn(u64) -> u64,
        L: Fn(u64) -> u64,

        requires
            self.wf(),
            a.wf(),
            unit.total(),
        ensures
            match result {
                Ok(m) => self.columns == a.rows && unit.matrix_product(self@, a@, m@),
                Err(e) => self.columns != a.rows && e == MatrixError::ShapeMismatch,
            },
    {
        if self.columns != a.rows {
            return Err(MatrixError::ShapeMismatch);
        }
        let rows = self.rows;
        let inner = self.columns;
        let columns = a.columns;
        let mut data: Vec<u64> = Vec::new();
        let mut i: usize = 0;
        while i < rows
            invariant
                self.wf(),
                a.wf(),
                unit.total(),
                rows == self.rows,
                inner == self.columns,
                inner == a.rows,
                columns == a.columns,
                i <= rows,
                data.len() == i * columns,
                forall|r: int, c: int|
                    0 <= r < i && 0 <= c < columns ==> unit.dot(
                        self@,
                        a@,
                        r,
                        c,
                        inner as nat,
                        #[trigger] data[r * columns + c],
                    ),
            decreases rows - i,
        {
            let mut j: usize = 0;
            while j < columns
                invariant
                    self.wf(),
                    a.wf(),
                    unit.total(),
                    rows == self.rows,
                    inner == self.columns,
                    inner == a.rows,
                    columns == a.columns,
                    i < rows,
                    j <= columns,
                    data.len() == i * columns + j,
                    forall|r: int, c: int|
                        0 <= r < i && 0 <= c < columns ==> unit.dot(
                            self@,
                            a@,
                            r,
                            c,
                            inner as nat,
                            #[trigger] data[r * columns + c],
                        ),
                    forall|c: int|
                        0 <= c < j ==> unit.dot(
                            self@,
                            a@,
                            i as int,
                            c,
                            inner as nat,
                            #[trigger] data[i * columns + c],
                        ),
                decreases columns - j,
            {
                let mut sum: u64 = ZERO;
                let mut k: usize = 0;
                while k < inner
                    invariant
                        self.wf(),
                        a.wf(),
                        unit.total(),
                        inner == self.columns,
                        inner == a.rows,
                        columns == a.columns,
                        i < self.rows,
                        j < columns,
                        k <= inner,
                        unit.dot(self@, a@, i as int, j as int, k as nat, sum),
                    decreases inner - k,
                {
                    let x = self.data[self.offset(i, k)];
                    let y = a.data[a.offset(k, j)];
                    let term = unit.times(x, y);
                    let next = unit.plus(sum, term);
                    proof {
                        assert(x == self@.at(i as int, k as int));
                        assert(y == a@.at(k as int, j as int));
                        unit.lemma_dot_extends(
                            self@,
                            a@,
                            i as int,
                            j as int,
                            (k + 1) as nat,
                            sum,
                            term,
                            next,
                        );
                    }
                    sum = next;
                    k += 1;
                }
                let ghost before = data@;
                data.push(sum);
                proof {
                    assert forall|r: int, c: int| 0 <= r < i && 0 <= c < columns implies unit.dot(
                        self@,
                        a@,
                        r,
                        c,
                        inner as nat,
                        #[trigger] data[r * columns + c],
                    ) by {
                        lemma_rows_in_order(columns as int, r, c, i as int, j as int);
                        assert(data[r * columns + c] == before[r * columns + c]);
                    }
                    assert forall|c: int| 0 <= c < j + 1 implies unit.dot(
                        self@,
                        a@,
                        i as int,
                        c,
                        inner as nat,
                        #[trigger] data[i * columns + c],
                    ) by {
                        if c < j {
                            assert(data[i * columns + c] == before[i * columns + c]);
                        }
                    }
                }
                j += 1;
            }
            assert(i * columns + columns == (i + 1) * columns) by (nonlinear_arith);
            i += 1;
        }
        let m = Matrix { rows, columns, data };
        proof {
            assert(m@.data.len() == m@.rows * m@.columns);
            assert forall|r: int, c: int| 0 <= r < m@.rows && 0 <= c < m@.columns implies unit.dot(
                self@,
                a@,
                r,
                c,
                self@.columns,
                #[trigger] m@.at(r, c),
            ) by {
                assert(m@.at(r, c) == data[r * columns + c]);
            }
        }
        Ok(m)
    }
}

} // verus!
