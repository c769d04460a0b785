//! With an arithmetic unit whose operations are functions of their
//! operands, every operation of the matrix engine has one outcome.

use vstd::prelude::*;
use crate::lin_alg::arithmetic::Arithmetic;
use crate::lin_alg::laws::lemma_equal_by_cells;
use crate::lin_alg::matrix::MatrixView;
use crate::lin_alg::scalar::below_tolerance;

verus! {

/// A matrix has one outcome of exchanging two of its rows.
pub proof fn lemma_row_swap_unique(m: MatrixView, a: int, b: int, s: MatrixView, t: MatrixView)
    requires
        s.is_row_swap_of(m, a, b),
        t.is_row_swap_of(m, a, b),
    ensures
        s == t,
{
    lemma_equal_by_cells(s, t);
}

impl<A, S, M, D, E, L> Arithmetic<A, S, M, D, E, L> where
    A: Fn(u64, u64) -> u64,
    S: Fn(u64, u64) -> u64,
    M: Fn(u64, u64) -> u64,
    D: Fn(u64, u64) -> u64,
    E: Fn(u64) -> u64,
    L: Fn(u64) -> u64,
 {
    /// Each operation has at most one outcome for given operands.
    pub open spec fn determinate(&self) -> bool {
        &&& forall|a: u64, b: u64, r: u64, s: u64| #[trigger]
            self.sum(a, b, r) && #[trigger] self.sum(a, b, s) ==> r == s
        &&& forall|a: u64, b: u64, r: u64, s: u64| #[trigger]
            self.difference(a, b, r) && #[trigger] self.difference(a, b, s) ==> r == s
        &&& forall|a: u64, b: u64, r: u64, s: u64| #[trigger]
            self.product(a, b, r) && #[trigger] self.product(a, b, s) ==> r == s
        &&& forall|a: u64, b: u64, r: u64, s: u64| #[trigger]
            self.quotient(a, b, r) && #[trigger] self.quotient(a, b, s) ==> r == s
        &&& forall|a: u64, r: u64, s: u64| #[trigger]
            self.exponential(a, r) && #[trigger] self.exponential(a, s) ==> r == s
        &&& forall|a: u64, r: u64, s: u64| #[trigger]
            self.logarithm(a, r) && #[trigger] self.logarithm(a, s) ==> r == s
    }

    /// Two matrices have one sum.
    pub proof fn lemma_sum_unique(&self, a: MatrixView, b: MatrixView, r: MatrixView, s: MatrixView)
        requires
            self.determinate(),
            self.matrix_sum(a, b, r),
            self.matrix_sum(a, b, s),
        ensures
            r == s,
    {
        assert forall|i: int| 0 <= i < r.data.len() implies r.data[i] == s.data[i] by {
            assert(self.sum(a.data[i], b.data[i], r.data[i]));
            assert(self.sum(a.data[i], b.data[i], s.data[i]));
        }
        assert(r.data =~= s.data);
    }

    /// Two matrices have one difference.
    pub proof fn lemma_difference_unique(&self, a: MatrixView, b: MatrixView, r: MatrixView, s: MatrixView)
        requires
            self.determinate(),
            self.matrix_difference(a, b, r),
            self.matrix_difference(a, b, s),
        ensures
            r == s,
    {
        assert forall|i: int| 0 <= i < r.data.len() implies r.data[i] == s.data[i] by {
            assert(self.difference(a.data[i], b.data[i], r.data[i]));
            assert(self.difference(a.data[i], b.data[i], s.data[i]));
        }
        assert(r.data =~= s.data);
    }

    /// Two matrices have one product cell by cell.
    pub proof fn lemma_hadamard_unique(&self, a: MatrixView, b: MatrixView, r: MatrixView, s: MatrixView)
        requires
            self.determinate(),
            self.hadamard(a, b, r),
            self.hadamard(a, b, s),
        ensures
            r == s,
    {
        assert forall|i: int| 0 <= i < r.data.len() implies r.data[i] == s.data[i] by {
            assert(self.product(a.data[i], b.data[i], r.data[i]));
            assert(self.product(a.data[i], b.data[i], s.data[i]));
        }
        assert(r.data =~= s.data);
    }

    /// A row and a column have one dot product.
    pub proof fn lemma_dot_unique(&self, a: MatrixView, b: MatrixView, i: int, j: int, n: nat, x: u64, y: u64)
        requires
            self.determinate(),
            self.dot(a, b, i, j, n, x),
            self.dot(a, b, i, j, n, y),
        ensures
            x == y,
        decreases n,
    {
        if n > 0 {
            let (bx, tx) = choose|before: u64, term: u64|
                #![trigger self.sum(before, term, x)]
                {
                    &&& self.dot(a, b, i, j, (n - 1) as nat, before)
                    &&& self.product(a.at(i, n - 1), b.at(n - 1, j), term)
                    &&& self.sum(before, term, x)
                };
            let (by, ty) = choose|before: u64, term: u64|
                #![trigger self.sum(before, term, y)]
                {
                    &&& self.dot(a, b, i, j, (n - 1) as nat, before)
                    &&& self.product(a.at(i, n - 1), b.at(n - 1, j), term)
                    &&& self.sum(before, term, y)
                };
            self.lemma_dot_unique(a, b, i, j, (n - 1) as nat, bx, by);
        }
    }

    /// Two matrices have one matrix product.
    pub proof fn lemma_product_unique(&self, a: MatrixView, b: MatrixView, r: MatrixView, s: MatrixView)
        requires
            self.determinate(),
            self.matrix_product(a, b, r),
            self.matrix_product(a, b, s),
        ensures
            r == s,
    {
        assert forall|i: int, j: int| 0 <= i < r.rows && 0 <= j < r.columns implies #[trigger] r.at(i, j) == s.at(
            i,
            j,
        ) by {
            assert(self.dot(a, b, i, j, a.columns, r.at(i, j)));
            assert(self.dot(a, b, i, j, a.columns, s.at(i, j)));
            self.lemma_dot_unique(a, b, i, j, a.columns, r.at(i, j), s.at(i, j));
        }
        lemma_equal_by_cells(r, s);
    }

    /// A row has one outcome of being reduced against a pivot row.
    pub proof fn lemma_reduced_row_unique(&self, m: MatrixView, h: int, k: int, r: int, x: Seq<u64>, y: Seq<u64>)
        requires
            self.determinate(),
            self.reduced_row(m, h, k, r, x),
            self.reduced_row(m, h, k, r, y),
        ensures
            x == y,
    {
        if r > h {
            let fx = choose|f: u64|
                #![trigger self.quotient(m.at(r, k), m.at(h, k), f)]
                {
                    &&& self.quotient(m.at(r, k), m.at(h, k), f)
                    &&& forall|c: int| 0 <= c < m.columns ==> self.reduced_cell(m, h, k, r, c, f, #[trigger] x[c])
                };
            let fy = choose|f: u64|
                #![trigger self.quotient(m.at(r, k), m.at(h, k), f)]
                {
                    &&& self.quotient(m.at(r, k), m.at(h, k), f)
                    &&& forall|c: int| 0 <= c < m.columns ==> self.reduced_cell(m, h, k, r, c, f, #[trigger] y[c])
                };
            assert(fx == fy);
            assert forall|c: int| 0 <= c < m.columns implies x[c] == y[c] by {
                assert(self.reduced_cell(m, h, k, r, c, fx, x[c]));
                assert(self.reduced_cell(m, h, k, r, c, fx, y[c]));
                if c > k {
                    let px = choose|p: u64|
                        #![trigger self.difference(m.at(r, c), p, x[c])]
                        self.product(m.at(h, c), fx, p) && self.difference(m.at(r, c), p, x[c]);
                    let py = choose|p: u64|
                        #![trigger self.difference(m.at(r, c), p, y[c])]
                        self.product(m.at(h, c), fx, p) && self.difference(m.at(r, c), p, y[c]);
                    assert(px == py);
                }
            }
        }
        assert(x =~= y);
    }

    /// A matrix has one outcome of clearing a column below a pivot row.
    pub proof fn lemma_reduction_unique(&self, m: MatrixView, h: int, k: int, s: MatrixView, t: MatrixView)
        requires
            self.determinate(),
            self.reduction(m, h, k, s),
            self.reduction(m, h, k, t),
        ensures
            s == t,
    {
        assert forall|r: int, c: int| 0 <= r < s.rows && 0 <= c < s.columns implies #[trigger] s.at(r, c) == t.at(
            r,
            c,
        ) by {
            assert(self.reduced_row(m, h, k, r, s.row(r)));
            assert(self.reduced_row(m, h, k, r, t.row(r)));
            self.lemma_reduced_row_unique(m, h, k, r, s.row(r), t.row(r));
            assert(s.row(r)[c] == s.at(r, c));
            assert(t.row(r)[c] == t.at(r, c));
        }
        lemma_equal_by_cells(s, t);
    }

    /// A matrix has one outcome of a pivot step.
    pub proof fn lemma_pivot_step_unique(&self, m: MatrixView, h: int, k: int, p: int, s: MatrixView, t: MatrixView)
        requires
            self.determinate(),
            self.pivot_step(m, h, k, p, s),
            self.pivot_step(m, h, k, p, t),
        ensures
            s == t,
    {
        let xs = choose|x: MatrixView|
            #![trigger self.reduction(x, h, k, s)]
            x.is_row_swap_of(m, h, p) && self.reduction(x, h, k, s);
        let xt = choose|x: MatrixView|
            #![trigger self.reduction(x, h, k, t)]
            x.is_row_swap_of(m, h, p) && self.reduction(x, h, k, t);
        lemma_row_swap_unique(m, h, p, xs, xt);
        self.lemma_reduction_unique(xs, h, k, s, t);
    }

    /// A matrix has one outcome of the elimination.
    pub proof fn lemma_elimination_unique(&self, m: MatrixView, h: nat, k: nat, s: MatrixView, t: MatrixView)
        requires
            self.determinate(),
            self.elimination(m, h, k, s),
            self.elimination(m, h, k, t),
        ensures
            s == t,
        decreases m.columns - k,
    {
        if h >= m.rows || k >= m.columns {
        } else {
            let ps = choose|p: int|
                #![trigger m.is_pivot(h as int, k as int, p)]
                {
                    &&& m.is_pivot(h as int, k as int, p)
                    &&& if below_tolerance(m.at(p, k as int)) {
                        self.elimination(m, h, (k + 1) as nat, s)
                    } else {
                        exists|mid: MatrixView|
                            #![trigger self.pivot_step(m, h as int, k as int, p, mid)]
                            {
                                &&& self.pivot_step(m, h as int, k as int, p, mid)
                                &&& self.elimination(mid, (h + 1) as nat, (k + 1) as nat, s)
                            }
                    }
                };
            let pt = choose|p: int|
                #![trigger m.is_pivot(h as int, k as int, p)]
                {
                    &&& m.is_pivot(h as int, k as int, p)
                    &&& if below_tolerance(m.at(p, k as int)) {
                        self.elimination(m, h, (k + 1) as nat, t)
                    } else {
                        exists|mid: MatrixView|
                            #![trigger self.pivot_step(m, h as int, k as int, p, mid)]
                            {
                                &&& self.pivot_step(m, h as int, k as int, p, mid)
                                &&& self.elimination(mid, (h + 1) as nat, (k + 1) as nat, t)
                            }
                    }
                };
            m.lemma_pivot_unique(h as int, k as int, ps, pt);
            if below_tolerance(m.at(ps, k as int)) {
                self.lemma_elimination_unique(m, h, (k + 1) as nat, s, t);
            } else {
                let ms = choose|mid: MatrixView|
                    #![trigger self.pivot_step(m, h as int, k as int, ps, mid)]
                    {
                        &&& self.pivot_step(m, h as int, k as int, ps, mid)
                        &&& self.elimination(mid, (h + 1) as nat, (k + 1) as nat, s)
                    };
                let mt = choose|mid: MatrixView|
                    #![trigger self.pivot_step(m, h as int, k as int, ps, mid)]
                    {
                        &&& self.pivot_step(m, h as int, k as int, ps, mid)
                        &&& self.elimination(mid, (h + 1) as nat, (k + 1) as nat, t)
                    };
                self.lemma_pivot_step_unique(m, h as int, k as int, ps, ms, mt);
                assert(ms.same_shape(m)) by {
                    let x = choose|x: MatrixView|
                        #![trigger self.reduction(x, h as int, k as int, ms)]
                        x.is_row_swap_of(m, h as int, ps) && self.reduction(x, h as int, k as int, ms);
                }
                self.lemma_elimination_unique(ms, (h + 1) as nat, (k + 1) as nat, s, t);
            }
        }
    }

    /// A diagonal has one product.
    pub proof fn lemma_diagonal_product_unique(&self, m: MatrixView, n: nat, x: u64, y: u64)
        requires
            self.determinate(),
            self.diagonal_product(m, n, x),
            self.diagonal_product(m, n, y),
        ensures
            x == y,
        decreases n,
    {
        if n > 0 {
            let bx = choose|before: u64|
                #![trigger self.product(before, m.at(n - 1, n - 1), x)]
                {
                    &&& self.diagonal_product(m, (n - 1) as nat, before)
                    &&& self.product(before, m.at(n - 1, n - 1), x)
                };
            let by = choose|before: u64|
                #![trigger self.product(before, m.at(n - 1, n - 1), y)]
                {
                    &&& self.diagonal_product(m, (n - 1) as nat, before)
                    &&& self.product(before, m.at(n - 1, n - 1), y)
                };
            self.lemma_diagonal_product_unique(m, (n - 1) as nat, bx, by);
        }
    }
}

} // verus!
