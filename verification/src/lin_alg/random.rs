//! Matrices of random cells, uniform over `[0, 1)`.
//!
//! A cell is made of one random word: its upper 52 bits become the fraction
//! of a pattern in `[1, 2)`, from which 1 is subtracted.

use vstd::prelude::*;
use crate::lin_alg::arithmetic::Arithmetic;
use crate::lin_alg::matrix::Matrix;
use crate::lin_alg::scalar::{unit_seed, unit_seed_of, ONE};

verus! {

/// One 64-bit word from `rand::random`, which draws it from the thread's
/// generator. Nothing is claimed of the word: any value may come, and two
/// calls need not agree. The call panics if the generator cannot be seeded
/// from the operating system.
#[verifier::external_body]
fn random_word() -> (word: u64) {
    rand::random::<u64>()
}

impl<A, S, M, D, E, L> Arithmetic<A, S, M, D, E, L> where
    A: Fn(u64, u64) -> u64,
    S: Fn(u64, u64) -> u64,
    M: Fn(u64, u64) -> u64,
    D: Fn(u64, u64) -> u64,
    E: Fn(u64) -> u64,
    L: Fn(u64) -> u64,
 {
    /// `v` is the cell that the random word `word` gives: an outcome of
    /// subtracting 1 from the word's pattern in `[1, 2)`.
    pub open spec fn drawn_from(&self, word: u64, v: u64) -> bool {
        self.difference(unit_seed_of(word), ONE, v)
    }

    /// `v` is a cell that some random word gives.
    pub open spec fn drawn(&self, v: u64) -> bool {
        exists|word: u64| #[trigger] self.drawn_from(word, v)
    }
}

impl Matrix {
    /// The cell that a random word gives.
    pub fn cell_from_word<A, S, M, D, E, L>(word: u64, unit: &Arithmetic<A, S, M, D, E, L>) -> (v: u64) where
        A: Fn(u64, u64) -> u64,
        S: Fn(u64, u64) -> u64,
        M: Fn(u64, u64) -> u64,
        D: Fn(u64, u64) -> u64,
        E: Fn(u64) -> u64,
        L: Fn(u64) -> u64,

        requires
            unit.total(),
        ensures
            unit.drawn_from(word, v),
    {
        unit.minus(unit_seed(word), ONE)
    }

    /// A matrix of the given extents, each cell drawn anew.
    pub fn new_random<A, S, M, D, E, L>(rows: usize, columns: usize, unit: &Arithmetic<A, S, M, D, E, L>) -> (m:
        Matrix) where
        A: Fn(u64, u64) -> u64,
        S: Fn(u64, u64) -> u64,
        M: Fn(u64, u64) -> u64,
        D: Fn(u64, u64) -> u64,
        E: Fn(u64) -> u64,
        L: Fn(u64) -> u64,

        requires
            unit.total(),
        ensures
            m.wf(),
            m.rows == rows,
            m.columns == columns,
            forall|i: int| 0 <= i < m.data.len() ==> unit.drawn(#[trigger] m.data[i]),
    {
        let mut data: Vec<u64> = Vec::new();
        if columns > 0 {
            let mut r: usize = 0;
            while r < rows
                invariant
                    unit.total(),
                    r <= rows,
                    data.len() == r * columns,
                    forall|i: int| 0 <= i < data.len() ==> unit.drawn(#[trigger] data[i]),
                decreases rows - r,
            {
                let mut c: usize = 0;
                while c < columns
                    invariant
                        unit.total(),
                        r < rows,
                        c <= columns,
                        data.len() == r * columns + c,
                        forall|i: int| 0 <= i < data.len() ==> unit.drawn(#[trigger] data[i]),
                    decreases columns - c,
                {
                    let word = random_word();
                    let v = Matrix::cell_from_word(word, unit);
                    assert(unit.drawn(v));
                    data.push(v);
                    c += 1;
                }
                assert(r * columns + columns == (r + 1) * columns) by (nonlinear_arith);
                r += 1;
            }
        } else {
            assert(rows * columns == 0) by (nonlinear_arith)
                requires
                    columns == 0,
            ;
        }
        Matrix { rows, columns, data }
    }
}

} // verus!
