//! The activation functions and their derivatives.
//!
//! The rectifier is decided on the bit pattern alone. The other three are
//! built from the exponential, the logarithm and the four operations of the
//! arithmetic unit, applied in the order that the formulas below give.

use vstd::prelude::*;
use crate::lin_alg::arithmetic::Arithmetic;
use crate::lin_alg::scalar::{is_positive, negate, negation_of, positive, FOUR, ONE, TWO, ZERO};

verus! {

/// The activation functions that a network can use.
#[derive(Clone, Copy, Debug, PartialEq, Eq, Structural)]
pub enum ActivationType {
    /// `1 / (1 + exp(-x))`.
    Sigmoid,
    /// `x` where `x > 0`, else `0`.
    ReLU,
    /// `2 / (1 + exp(-(2 * x))) - 1`.
    Tanh,
    /// `ln(1 + exp(x))`.
    Softplus,
}

/// An activation function together with its derivative.
#[derive(Clone, Copy, Debug)]
pub struct Activation {
    /// Which function the pair belongs to.
    pub kind: ActivationType,
}

impl ActivationType {
    /// The function and derivative that go by this name.
    pub fn get_function(&self) -> (activation: Activation)
        ensures
            activation.kind == *self,
    {
        Activation { kind: *self }
    }
}

impl<A, S, M, D, E, L> Arithmetic<A, S, M, D, E, L> where
    A: Fn(u64, u64) -> u64,
    S: Fn(u64, u64) -> u64,
    M: Fn(u64, u64) -> u64,
    D: Fn(u64, u64) -> u64,
    E: Fn(u64) -> u64,
    L: Fn(u64) -> u64,
 {
    /// `y` is an outcome of `1 / (1 + exp(-x))`.
    pub open spec fn sigmoid(&self, x: u64, y: u64) -> bool {
        exists|e: u64|
            #![trigger self.exponential(negation_of(x), e)]
            self.exponential(negation_of(x), e) && exists|d: u64|
                #![trigger self.sum(ONE, e, d)]
                self.sum(ONE, e, d) && self.quotient(ONE, d, y)
    }

    /// `y` is an outcome of `exp(-x) / (1 + exp(-x))^2`.
    pub open spec fn sigmoid_slope(&self, x: u64, y: u64) -> bool {
        exists|e: u64|
            #![trigger self.exponential(negation_of(x), e)]
            self.exponential(negation_of(x), e) && exists|d: u64|
                #![trigger self.sum(ONE, e, d)]
                self.sum(ONE, e, d) && exists|s: u64|
                    #![trigger self.product(d, d, s)]
                    self.product(d, d, s) && self.quotient(e, s, y)
    }

    /// `y` is `x` where `x` is a number above zero, and positive zero
    /// elsewhere.
    pub open spec fn rectifier(&self, x: u64, y: u64) -> bool {
        y == if positive(x) {
            x
        } else {
            ZERO
        }
    }

    /// `y` is 1 where `x` is a number above zero, and positive zero
    /// elsewhere.
    pub open spec fn rectifier_slope(&self, x: u64, y: u64) -> bool {
        y == if positive(x) {
            ONE
        } else {
            ZERO
        }
    }

    /// `y` is an outcome of `2 / (1 + exp(-(2 * x))) - 1`.
    pub open spec fn hyperbolic_tangent(&self, x: u64, y: u64) -> bool {
        exists|t: u64|
            #![trigger self.product(TWO, x, t)]
            self.product(TWO, x, t) && exists|e: u64|
                #![trigger self.exponential(negation_of(t), e)]
                self.exponential(negation_of(t), e) && exists|d: u64|
                    #![trigger self.sum(ONE, e, d)]
                    self.sum(ONE, e, d) && exists|q: u64|
                        #![trigger self.quotient(TWO, d, q)]
                        self.quotient(TWO, d, q) && self.difference(q, ONE, y)
    }

    /// `y` is an outcome of `4 / (exp(x) + exp(-x))^2`.
    pub open spec fn hyperbolic_tangent_slope(&self, x: u64, y: u64) -> bool {
        exists|p: u64|
            #![trigger self.exponential(x, p)]
            self.exponential(x, p) && exists|n: u64|
                #![trigger self.exponential(negation_of(x), n)]
                self.exponential(negation_of(x), n) && exists|s: u64|
                    #![trigger self.sum(p, n, s)]
                    self.sum(p, n, s) && exists|q: u64|
                        #![trigger self.product(s, s, q)]
                        self.product(s, s, q) && self.quotient(FOUR, q, y)
    }

    /// `y` is an outcome of `ln(1 + exp(x))`.
    pub open spec fn softplus(&self, x: u64, y: u64) -> bool {
        exists|e: u64|
            #![trigger self.exponential(x, e)]
            self.exponential(x, e) && exists|d: u64|
                #![trigger self.sum(ONE, e, d)]
                self.sum(ONE, e, d) && self.logarithm(d, y)
    }

    /// `y` is an outcome of `exp(x) / (1 + exp(x))`.
    pub open spec fn softplus_slope(&self, x: u64, y: u64) -> bool {
        exists|e: u64|
            #![trigger self.exponential(x, e)]
            self.exponential(x, e) && exists|d: u64|
                #![trigger self.sum(ONE, e, d)]
                self.sum(ONE, e, d) && self.quotient(e, d, y)
    }

    /// `y` is an outcome of the activation function `kind` at `x`.
    pub open spec fn activated(&self, kind: ActivationType, x: u64, y: u64) -> bool {
        match kind {
            ActivationType::Sigmoid => self.sigmoid(x, y),
            ActivationType::ReLU => self.rectifier(x, y),
            ActivationType::Tanh => self.hyperbolic_tangent(x, y),
            ActivationType::Softplus => self.softplus(x, y),
        }
    }

    /// `y` is an outcome of the derivative of the activation function `kind`
    /// at `x`.
    pub open spec fn slope(&self, kind: ActivationType, x: u64, y: u64) -> bool {
        match kind {
            ActivationType::Sigmoid => self.sigmoid_slope(x, y),
            ActivationType::ReLU => self.rectifier_slope(x, y),
            ActivationType::Tanh => self.hyperbolic_tangent_slope(x, y),
            ActivationType::Softplus => self.softplus_slope(x, y),
        }
    }
}

impl Activation {
    /// The activation function at `x`.
    pub fn function<A, S, M, D, E, L>(&self, x: u64, unit: &Arithmetic<A, S, M, D, E, L>) -> (y: u64) where
        A: Fn(u64, u64) -> u64,
        S: Fn(u64, u64) -> u64,
        M: Fn(u64, u64) -> u64,
        D: Fn(u64, u64) -> u64,
        E: Fn(u64) -> u64,
        L: Fn(u64) -> u64,

        requires
            unit.total(),
        ensures
            unit.activated(self.kind, x, y),
    {
        match self.kind {
            ActivationType::Sigmoid => {
                let e = unit.exp_of(negate(x));
                let d = unit.plus(ONE, e);
                unit.over(ONE, d)
            },
            ActivationType::ReLU => {
                if is_positive(x) {
                    x
                } else {
                    ZERO
                }
            },
            ActivationType::Tanh => {
                let t = unit.times(TWO, x);
                let e = unit.exp_of(negate(t));
                let d = unit.plus(ONE, e);
                let q = unit.over(TWO, d);
                unit.minus(q, ONE)
            },
            ActivationType::Softplus => {
                let e = unit.exp_of(x);
                let d = unit.plus(ONE, e);
                unit.ln_of(d)
            },
        }
    }

    /// The derivative of the activation function at `x`.
    pub fn derivative<A, S, M, D, E, L>(&self, x: u64, unit: &Arithmetic<A, S, M, D, E, L>) -> (y: u64) where
        A: Fn(u64, u64) -> u64,
        S: Fn(u64, u64) -> u64,
        M: Fn(u64, u64) -> u64,
        D: Fn(u64, u64) -> u64,
        E: Fn(u64) -> u64,
        L: Fn(u64) -> u64,

        requires
            unit.total(),
        ensures
            unit.slope(self.kind, x, y),
    {
        match self.kind {
            ActivationType::Sigmoid => {
                let e = unit.exp_of(negate(x));
                let d = unit.plus(ONE, e);
                let s = unit.times(d, d);
                unit.over(e, s)
            },
            ActivationType::ReLU => {
                if is_positive(x) {
                    ONE
                } else {
                    ZERO
                }
            },
            ActivationType::Tanh => {
                let p = unit.exp_of(x);
                let n = unit.exp_of(negate(x));
                let s = unit.plus(p, n);
                let q = unit.times(s, s);
                unit.over(FOUR, q)
            },
            ActivationType::Softplus => {
                let e = unit.exp_of(x);
                let d = unit.plus(ONE, e);
                unit.over(e, d)
            },
        }
    }
}

} // verus!
