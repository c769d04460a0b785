//! The determinant of a square matrix with a row of zeros is a zero, where
//! the unit returns what can be held exactly and nothing overflows on the
//! way.

use vstd::prelude::*;
use crate::lin_alg::arithmetic::Arithmetic;
use crate::lin_alg::layout::{lemma_cell_in_buffer, lemma_index_is_cell};
use crate::lin_alg::matrix::MatrixView;
use crate::lin_alg::scalar::{
    below_tolerance, finite, holds_difference, holds_product, holds_quotient, is_zero, lemma_zero, numerator,
    same_value, ZERO,
};
use crate::lin_alg::structure::exchanged;

verus! {

impl MatrixView {
    /// Every cell is finite.
    pub open spec fn all_finite(self) -> bool {
        forall|i: int| 0 <= i < self.data.len() ==> finite(#[trigger] self.data[i])
    }

    /// Row `r` holds zeros only.
    pub open spec fn zero_row(self, r: int) -> bool {
        &&& 0 <= r < self.rows
        &&& forall|c: int| 0 <= c < self.columns ==> is_zero(#[trigger] self.at(r, c))
    }

    /// A cell of a matrix whose cells are all finite is finite.
    pub proof fn lemma_cell_finite(self, r: int, c: int)
        requires
            self.wf(),
            self.all_finite(),
            0 <= r < self.rows,
            0 <= c < self.columns,
        ensures
            finite(self.at(r, c)),
    {
        lemma_cell_in_buffer(self.rows as int, self.columns as int, r, c);
    }
}

impl<A, S, M, D, E, L> Arithmetic<A, S, M, D, E, L> where
    A: Fn(u64, u64) -> u64,
    S: Fn(u64, u64) -> u64,
    M: Fn(u64, u64) -> u64,
    D: Fn(u64, u64) -> u64,
    E: Fn(u64) -> u64,
    L: Fn(u64) -> u64,
 {
    /// The elimination, at pivot row `g` and pivot column `k` of `q`, goes
    /// on to pivot row `h` of `s` in the next column: with the same matrix
    /// and the same pivot row where the column has no pivot, and with the
    /// outcome of the pivot step and the next row where it has one.
    pub open spec fn stepped(&self, q: MatrixView, g: nat, k: nat, h: nat, s: MatrixView) -> bool {
        &&& g < q.rows
        &&& k < q.columns
        &&& exists|p: int|
            #![trigger q.is_pivot(g as int, k as int, p)]
            {
                &&& q.is_pivot(g as int, k as int, p)
                &&& if below_tolerance(q.at(p, k as int)) {
                    h == g && s == q
                } else {
                    h == g + 1 && self.pivot_step(q, g as int, k as int, p, s)
                }
            }
    }

    /// The elimination on `m` reaches `s` with pivot row `h` and pivot
    /// column `k`.
    pub open spec fn reaches(&self, m: MatrixView, h: nat, k: nat, s: MatrixView) -> bool
        decreases k,
    {
        if k == 0 {
            h == 0 && s == m
        } else {
            exists|g: nat, q: MatrixView|
                #![trigger self.stepped(q, g, (k - 1) as nat, h, s)]
                {
                    &&& self.reaches(m, g, (k - 1) as nat, q)
                    &&& self.stepped(q, g, (k - 1) as nat, h, s)
                }
        }
    }

    /// Nothing overflows in the elimination on `m`: every matrix that it
    /// reaches has finite cells only.
    pub open spec fn stays_finite(&self, m: MatrixView) -> bool {
        forall|h: nat, k: nat, s: MatrixView| #[trigger] self.reaches(m, h, k, s) ==> s.all_finite()
    }

    /// Nothing overflows in the product of the diagonal of `t`: every
    /// product of the first cells of the diagonal is finite.
    pub open spec fn diagonal_stays_finite(&self, t: MatrixView) -> bool {
        forall|n: nat, acc: u64| n <= t.rows && #[trigger] self.diagonal_product(t, n, acc) ==> finite(acc)
    }

    /// One step on from a matrix that the elimination reaches, it reaches
    /// the next.
    pub proof fn lemma_reaches_extends(&self, m: MatrixView, g: nat, k: nat, q: MatrixView, h: nat, s: MatrixView)
        requires
            k > 0,
            self.reaches(m, g, (k - 1) as nat, q),
            self.stepped(q, g, (k - 1) as nat, h, s),
        ensures
            self.reaches(m, h, k, s),
    {
    }

    /// The outcome of the elimination is a matrix that it reaches, with the
    /// pivot row or the pivot column past the end.
    pub proof fn lemma_outcome_is_reached(&self, m: MatrixView, h: nat, k: nat, s: MatrixView, t: MatrixView) -> (end: (
        nat,
        nat,
    ))
        requires
            self.reaches(m, h, k, s),
            self.elimination(s, h, k, t),
        ensures
            self.reaches(m, end.0, end.1, t),
            end.0 >= t.rows || end.1 >= t.columns,
        decreases s.columns - k,
    {
        if h >= s.rows || k >= s.columns {
            (h, k)
        } else {
            let p = choose|p: int|
                #![trigger s.is_pivot(h as int, k as int, p)]
                {
                    &&& s.is_pivot(h as int, k as int, p)
                    &&& if below_tolerance(s.at(p, k as int)) {
                        self.elimination(s, h, (k + 1) as nat, t)
                    } else {
                        exists|mid: MatrixView|
                            #![trigger self.pivot_step(s, h as int, k as int, p, mid)]
                            {
                                &&& self.pivot_step(s, h as int, k as int, p, mid)
                                &&& self.elimination(mid, (h + 1) as nat, (k + 1) as nat, t)
                            }
                    }
                };
            if below_tolerance(s.at(p, k as int)) {
                assert(self.stepped(s, h, k, h, s));
                self.lemma_reaches_extends(m, h, (k + 1) as nat, s, h, s);
                self.lemma_outcome_is_reached(m, h, (k + 1) as nat, s, t)
            } else {
                let mid = choose|mid: MatrixView|
                    #![trigger self.pivot_step(s, h as int, k as int, p, mid)]
                    {
                        &&& self.pivot_step(s, h as int, k as int, p, mid)
                        &&& self.elimination(mid, (h + 1) as nat, (k + 1) as nat, t)
                    };
                assert(self.stepped(s, h, k, h + 1, mid));
                self.lemma_reaches_extends(m, h, (k + 1) as nat, s, h + 1, mid);
                assert(mid.same_shape(s)) by {
                    let x = choose|x: MatrixView|
                        #![trigger self.reduction(x, h as int, k as int, mid)]
                        x.is_row_swap_of(s, h as int, p) && self.reduction(x, h as int, k as int, mid);
                }
                self.lemma_outcome_is_reached(m, (h + 1) as nat, (k + 1) as nat, mid, t)
            }
        }
    }

    /// A row of zeros, reduced against a pivot row of finite cells with a
    /// pivot that is not a zero, is a row of zeros.
    pub proof fn lemma_zero_row_reduced(&self, x: MatrixView, h: int, k: int, r: int, cells: Seq<u64>)
        requires
            self.exact(),
            x.wf(),
            x.all_finite(),
            0 <= h < r,
            x.zero_row(r),
            0 <= k < x.columns,
            !is_zero(x.at(h, k)),
            self.reduced_row(x, h, k, r, cells),
        ensures
            forall|c: int| 0 <= c < x.columns ==> is_zero(#[trigger] cells[c]),
    {
        let f = choose|f: u64|
            #![trigger self.quotient(x.at(r, k), x.at(h, k), f)]
            {
                &&& self.quotient(x.at(r, k), x.at(h, k), f)
                &&& forall|c: int| 0 <= c < x.columns ==> self.reduced_cell(x, h, k, r, c, f, #[trigger] cells[c])
            };
        x.lemma_cell_finite(h, k);
        assert(is_zero(x.at(r, k)));
        lemma_zero(x.at(r, k));
        assert(holds_quotient(x.at(r, k), x.at(h, k), ZERO)) by {
            assert(numerator(ZERO) == 0);
            assert(0 * numerator(x.at(h, k)) == 0);
        }
        assert(same_value(f, ZERO));
        assert(is_zero(f));
        lemma_zero(f);
        assert forall|c: int| 0 <= c < x.columns implies is_zero(#[trigger] cells[c]) by {
            assert(self.reduced_cell(x, h, k, r, c, f, cells[c]));
            assert(is_zero(x.at(r, c)));
            if c > k {
                let p = choose|p: u64|
                    #![trigger self.difference(x.at(r, c), p, cells[c])]
                    self.product(x.at(h, c), f, p) && self.difference(x.at(r, c), p, cells[c]);
                x.lemma_cell_finite(h, c);
                assert(holds_product(x.at(h, c), f, ZERO)) by {
                    assert(numerator(ZERO) == 0);
                    assert(numerator(f) == 0);
                    assert(numerator(x.at(h, c)) * 0 == 0);
                }
                assert(same_value(p, ZERO));
                lemma_zero(p);
                lemma_zero(x.at(r, c));
                assert(holds_difference(x.at(r, c), p, ZERO)) by {
                    assert(numerator(ZERO) == 0);
                }
                assert(same_value(cells[c], ZERO));
            }
        }
    }

    /// A matrix with a row of zeros keeps one, at or below the pivot row,
    /// in every matrix that the elimination reaches.
    pub proof fn lemma_zero_row_survives(&self, m: MatrixView, z: int, h: nat, k: nat, s: MatrixView) -> (zr: int)
        requires
            self.exact(),
            m.wf(),
            m.zero_row(z),
            self.stays_finite(m),
            self.reaches(m, h, k, s),
        ensures
            s.wf(),
            s.same_shape(m),
            h <= zr,
            s.zero_row(zr),
        decreases k,
    {
        if k == 0 {
            z
        } else {
            let (g, q) = choose|g: nat, q: MatrixView|
                #![trigger self.stepped(q, g, (k - 1) as nat, h, s)]
                {
                    &&& self.reaches(m, g, (k - 1) as nat, q)
                    &&& self.stepped(q, g, (k - 1) as nat, h, s)
                };
            let zq = self.lemma_zero_row_survives(m, z, g, (k - 1) as nat, q);
            let j = (k - 1) as nat;
            let p = choose|p: int|
                #![trigger q.is_pivot(g as int, j as int, p)]
                {
                    &&& q.is_pivot(g as int, j as int, p)
                    &&& if below_tolerance(q.at(p, j as int)) {
                        h == g && s == q
                    } else {
                        h == g + 1 && self.pivot_step(q, g as int, j as int, p, s)
                    }
                };
            if below_tolerance(q.at(p, j as int)) {
                zq
            } else {
                let x = choose|x: MatrixView|
                    #![trigger self.reduction(x, g as int, j as int, s)]
                    x.is_row_swap_of(q, g as int, p) && self.reduction(x, g as int, j as int, s);
                assert(q.all_finite());
                assert(is_zero(q.at(zq, j as int)));
                lemma_zero(q.at(zq, j as int));
                assert(zq != p);
                let zr = exchanged(zq, g as int, p);
                assert(exchanged(zr, g as int, p) == zq);
                assert(g < zr < x.rows);
                assert forall|c: int| 0 <= c < x.columns implies is_zero(#[trigger] x.at(zr, c)) by {
                    assert(x.at(zr, c) == q.at(exchanged(zr, g as int, p), c));
                    assert(is_zero(q.at(zq, c)));
                }
                assert forall|i: int| 0 <= i < x.data.len() implies finite(#[trigger] x.data[i]) by {
                    lemma_index_is_cell(x.rows as int, x.columns as int, i);
                    let r = i / (x.columns as int);
                    let c = i % (x.columns as int);
                    assert(x.at(r, c) == q.at(exchanged(r, g as int, p), c));
                    q.lemma_cell_finite(exchanged(r, g as int, p), c);
                }
                assert(x.at(g as int, j as int) == q.at(exchanged(g as int, g as int, p), j as int));
                if is_zero(x.at(g as int, j as int)) {
                    lemma_zero(x.at(g as int, j as int));
                }
                assert(self.reduced_row(x, g as int, j as int, zr, s.row(zr)));
                self.lemma_zero_row_reduced(x, g as int, j as int, zr, s.row(zr));
                assert forall|c: int| 0 <= c < s.columns implies is_zero(#[trigger] s.at(zr, c)) by {
                    assert(s.row(zr)[c] == s.at(zr, c));
                }
                zr
            }
        }
    }

    /// The product of a diagonal of finite cells with a zero among them is
    /// a zero, where no product on the way overflows.
    pub proof fn lemma_diagonal_with_zero(&self, t: MatrixView, zr: int, n: nat, acc: u64)
        requires
            self.exact(),
            t.wf(),
            t.all_finite(),
            t.rows == t.columns,
            0 <= zr < n <= t.rows,
            is_zero(t.at(zr, zr)),
            self.diagonal_stays_finite(t),
            self.diagonal_product(t, n, acc),
        ensures
            is_zero(acc),
        decreases n,
    {
        let before = choose|before: u64|
            #![trigger self.product(before, t.at(n - 1, n - 1), acc)]
            {
                &&& self.diagonal_product(t, (n - 1) as nat, before)
                &&& self.product(before, t.at(n - 1, n - 1), acc)
            };
        let cell = t.at(n - 1, n - 1);
        t.lemma_cell_finite(n - 1, n - 1);
        assert(numerator(ZERO) == 0);
        if n - 1 == zr {
            assert(finite(before));
            lemma_zero(cell);
            assert(numerator(before) * numerator(cell) == 0) by (nonlinear_arith)
                requires
                    numerator(cell) == 0,
            ;
        } else {
            self.lemma_diagonal_with_zero(t, zr, (n - 1) as nat, before);
            lemma_zero(before);
            assert(numerator(before) * numerator(cell) == 0) by (nonlinear_arith)
                requires
                    numerator(before) == 0,
            ;
        }
        assert(holds_product(before, cell, ZERO));
        assert(same_value(acc, ZERO));
    }

    /// The determinant of a square matrix with a row of zeros is a zero:
    /// with a unit that returns what can be held exactly, where nothing
    /// overflows in the elimination or in the product of the diagonal.
    pub proof fn lemma_zero_row_determinant(&self, m: MatrixView, z: int, t: MatrixView, d: u64)
        requires
            self.exact(),
            m.wf(),
            m.rows == m.columns,
            m.zero_row(z),
            self.stays_finite(m),
            self.elimination(m, 0, 0, t),
            self.diagonal_stays_finite(t),
            self.diagonal_product(t, m.rows, d),
        ensures
            same_value(d, ZERO),
    {
        assert(self.reaches(m, 0, 0, m));
        let end = self.lemma_outcome_is_reached(m, 0, 0, m, t);
        let zr = self.lemma_zero_row_survives(m, z, end.0, end.1, t);
        assert(t.all_finite());
        assert(is_zero(t.at(zr, zr)));
        self.lemma_diagonal_with_zero(t, zr, t.rows, d);
        lemma_zero(d);
    }
}

} // verus!
