//! The rounded operations, as the caller supplies them.
//!
//! The library never computes a sum, a product or an exponential of binary64
//! values itself. It is handed six operations on bit patterns and calls them;
//! a contract that speaks of a sum says that the value is one that the unit's
//! addition returned for those two operands.

use vstd::prelude::*;

verus! {

/// The six operations on binary64 patterns that the library calls.
pub struct Arithmetic<A, S, M, D, E, L> {
    /// `a + b`.
    pub add: A,
    /// `a - b`.
    pub sub: S,
    /// `a * b`.
    pub mul: M,
    /// `a / b`.
    pub div: D,
    /// `e` to the power `a`.
    pub exp: E,
    /// The natural logarithm of `a`.
    pub ln: L,
}

impl<A, S, M, D, E, L> Arithmetic<A, S, M, D, E, L> where
    A: Fn(u64, u64) -> u64,
    S: Fn(u64, u64) -> u64,
    M: Fn(u64, u64) -> u64,
    D: Fn(u64, u64) -> u64,
    E: Fn(u64) -> u64,
    L: Fn(u64) -> u64,
 {
    /// Every operation accepts every pattern.
    pub open spec fn total(&self) -> bool {
        &&& forall|a: u64, b: u64| #[trigger] self.add.requires((a, b))
        &&& forall|a: u64, b: u64| #[trigger] self.sub.requires((a, b))
        &&& forall|a: u64, b: u64| #[trigger] self.mul.requires((a, b))
        &&& forall|a: u64, b: u64| #[trigger] self.div.requires((a, b))
        &&& forall|a: u64| #[trigger] self.exp.requires((a,))
        &&& forall|a: u64| #[trigger] self.ln.requires((a,))
    }

    /// `r` is an outcome of `a + b`.
    pub open spec fn sum(&self, a: u64, b: u64, r: u64) -> bool {
        self.add.ensures((a, b), r)
    }

    /// `r` is an outcome of `a - b`.
    pub open spec fn difference(&self, a: u64, b: u64, r: u64) -> bool {
        self.sub.ensures((a, b), r)
    }

    /// `r` is an outcome of `a * b`.
    pub open spec fn product(&self, a: u64, b: u64, r: u64) -> bool {
        self.mul.ensures((a, b), r)
    }

    /// `r` is an outcome of `a / b`.
    pub open spec fn quotient(&self, a: u64, b: u64, r: u64) -> bool {
        self.div.ensures((a, b), r)
    }

    /// `r` is an outcome of `e` to the power `a`.
    pub open spec fn exponential(&self, a: u64, r: u64) -> bool {
        self.exp.ensures((a,), r)
    }

    /// `r` is an outcome of the natural logarithm of `a`.
    pub open spec fn logarithm(&self, a: u64, r: u64) -> bool {
        self.ln.ensures((a,), r)
    }

    /// Gathers the six operations into a unit.
    pub fn new(add: A, sub: S, mul: M, div: D, exp: E, ln: L) -> (unit: Self)
        ensures
            unit.add == add,
            unit.sub == sub,
            unit.mul == mul,
            unit.div == div,
            unit.exp == exp,
            unit.ln == ln,
    {
        Arithmetic { add, sub, mul, div, exp, ln }
    }

    /// `a + b`.
    pub fn plus(&self, a: u64, b: u64) -> (r: u64)
        requires
            self.total(),
        ensures
            self.sum(a, b, r),
    {
        (self.add)(a, b)
    }

    /// `a - b`.
    pub fn minus(&self, a: u64, b: u64) -> (r: u64)
        requires
            self.total(),
        ensures
            self.difference(a, b, r),
    {
        (self.sub)(a, b)
    }

    /// `a * b`.
    pub fn times(&self, a: u64, b: u64) -> (r: u64)
        requires
            self.total(),
        ensures
            self.product(a, b, r),
    {
        (self.mul)(a, b)
    }

    /// `a / b`.
    pub fn over(&self, a: u64, b: u64) -> (r: u64)
        requires
            self.total(),
        ensures
            self.quotient(a, b, r),
    {
        (self.div)(a, b)
    }

    /// `e` to the power `a`.
    pub fn exp_of(&self, a: u64) -> (r: u64)
        requires
            self.total(),
        ensures
            self.exponential(a, r),
    {
        (self.exp)(a)
    }

    /// The natural logarithm of `a`.
    pub fn ln_of(&self, a: u64) -> (r: u64)
        requires
            self.total(),
        ensures
            self.logarithm(a, r),
    {
        (self.ln)(a)
    }
}

} // verus!
