//! With an arithmetic unit whose operations are functions of their
//! operands, the forward pass, the backward pass and training have one
//! outcome.

use vstd::prelude::*;
use crate::lin_alg::arithmetic::Arithmetic;
use crate::lin_alg::laws::lemma_transpose_unique;
use crate::lin_alg::matrix::MatrixView;
use crate::lin_alg::scalar::{negation_of, FOUR, ONE, TWO};
use crate::net::activations::ActivationType;
use crate::net::propagation::{Parameters, Progress};

verus! {

impl<A, S, M, D, E, L> Arithmetic<A, S, M, D, E, L> where
    A: Fn(u64, u64) -> u64,
    S: Fn(u64, u64) -> u64,
    M: Fn(u64, u64) -> u64,
    D: Fn(u64, u64) -> u64,
    E: Fn(u64) -> u64,
    L: Fn(u64) -> u64,
 {
    /// The sigmoid has one outcome at a point.
    pub proof fn lemma_sigmoid_unique(&self, x: u64, y: u64, z: u64)
        requires
            self.determinate(),
            self.sigmoid(x, y),
            self.sigmoid(x, z),
        ensures
            y == z,
    {
        let ey = choose|e: u64|
            #![trigger self.exponential(negation_of(x), e)]
            self.exponential(negation_of(x), e) && exists|d: u64|
                #![trigger self.sum(ONE, e, d)]
                self.sum(ONE, e, d) && self.quotient(ONE, d, y);
        let ez = choose|e: u64|
            #![trigger self.exponential(negation_of(x), e)]
            self.exponential(negation_of(x), e) && exists|d: u64|
                #![trigger self.sum(ONE, e, d)]
                self.sum(ONE, e, d) && self.quotient(ONE, d, z);
        let dy = choose|d: u64| #![trigger self.sum(ONE, ey, d)] self.sum(ONE, ey, d) && self.quotient(ONE, d, y);
        let dz = choose|d: u64| #![trigger self.sum(ONE, ez, d)] self.sum(ONE, ez, d) && self.quotient(ONE, d, z);
        assert(ey == ez);
        assert(dy == dz);
    }

    /// The derivative of the sigmoid has one outcome at a point.
    pub proof fn lemma_sigmoid_slope_unique(&self, x: u64, y: u64, z: u64)
        requires
            self.determinate(),
            self.sigmoid_slope(x, y),
            self.sigmoid_slope(x, z),
        ensures
            y == z,
    {
        let ey = choose|e: u64|
            #![trigger self.exponential(negation_of(x), e)]
            self.exponential(negation_of(x), e) && exists|d: u64|
                #![trigger self.sum(ONE, e, d)]
                self.sum(ONE, e, d) && exists|s: u64|
                    #![trigger self.product(d, d, s)]
                    self.product(d, d, s) && self.quotient(e, s, y);
        let ez = choose|e: u64|
            #![trigger self.exponential(negation_of(x), e)]
            self.exponential(negation_of(x), e) && exists|d: u64|
                #![trigger self.sum(ONE, e, d)]
                self.sum(ONE, e, d) && exists|s: u64|
                    #![trigger self.product(d, d, s)]
                    self.product(d, d, s) && self.quotient(e, s, z);
        let dy = choose|d: u64|
            #![trigger self.sum(ONE, ey, d)]
            self.sum(ONE, ey, d) && exists|s: u64|
                #![trigger self.product(d, d, s)]
                self.product(d, d, s) && self.quotient(ey, s, y);
        let dz = choose|d: u64|
            #![trigger self.sum(ONE, ez, d)]
            self.sum(ONE, ez, d) && exists|s: u64|
                #![trigger self.product(d, d, s)]
                self.product(d, d, s) && self.quotient(ez, s, z);
        let sy = choose|s: u64| #![trigger self.product(dy, dy, s)] self.product(dy, dy, s) && self.quotient(ey, s, y);
        let sz = choose|s: u64| #![trigger self.product(dz, dz, s)] self.product(dz, dz, s) && self.quotient(ez, s, z);
        assert(ey == ez);
        assert(dy == dz);
        assert(sy == sz);
    }

    /// The hyperbolic tangent has one outcome at a point.
    pub proof fn lemma_hyperbolic_tangent_unique(&self, x: u64, y: u64, z: u64)
        requires
            self.determinate(),
            self.hyperbolic_tangent(x, y),
            self.hyperbolic_tangent(x, z),
        ensures
            y == z,
    {
        let ty = choose|t: u64|
            #![trigger self.product(TWO, x, t)]
            self.product(TWO, x, t) && exists|e: u64|
                #![trigger self.exponential(negation_of(t), e)]
                self.exponential(negation_of(t), e) && exists|d: u64|
                    #![trigger self.sum(ONE, e, d)]
                    self.sum(ONE, e, d) && exists|q: u64|
                        #![trigger self.quotient(TWO, d, q)]
                        self.quotient(TWO, d, q) && self.difference(q, ONE, y);
        let tz = choose|t: u64|
            #![trigger self.product(TWO, x, t)]
            self.product(TWO, x, t) && exists|e: u64|
                #![trigger self.exponential(negation_of(t), e)]
                self.exponential(negation_of(t), e) && exists|d: u64|
                    #![trigger self.sum(ONE, e, d)]
                    self.sum(ONE, e, d) && exists|q: u64|
                        #![trigger self.quotient(TWO, d, q)]
                        self.quotient(TWO, d, q) && self.difference(q, ONE, z);
        assert(ty == tz);
        let ey = choose|e: u64|
            #![trigger self.exponential(negation_of(ty), e)]
            self.exponential(negation_of(ty), e) && exists|d: u64|
                #![trigger self.sum(ONE, e, d)]
                self.sum(ONE, e, d) && exists|q: u64|
                    #![trigger self.quotient(TWO, d, q)]
                    self.quotient(TWO, d, q) && self.difference(q, ONE, y);
        let ez = choose|e: u64|
            #![trigger self.exponential(negation_of(ty), e)]
            self.exponential(negation_of(ty), e) && exists|d: u64|
                #![trigger self.sum(ONE, e, d)]
                self.sum(ONE, e, d) && exists|q: u64|
                    #![trigger self.quotient(TWO, d, q)]
                    self.quotient(TWO, d, q) && self.difference(q, ONE, z);
        assert(ey == ez);
        let dy = choose|d: u64|
            #![trigger self.sum(ONE, ey, d)]
            self.sum(ONE, ey, d) && exists|q: u64|
                #![trigger self.quotient(TWO, d, q)]
                self.quotient(TWO, d, q) && self.difference(q, ONE, y);
        let dz = choose|d: u64|
            #![trigger self.sum(ONE, ey, d)]
            self.sum(ONE, ey, d) && exists|q: u64|
                #![trigger self.quotient(TWO, d, q)]
                self.quotient(TWO, d, q) && self.difference(q, ONE, z);
        assert(dy == dz);
        let qy = choose|q: u64| #![trigger self.quotient(TWO, dy, q)] self.quotient(TWO, dy, q) && self.difference(q, ONE, y);
        let qz = choose|q: u64| #![trigger self.quotient(TWO, dy, q)] self.quotient(TWO, dy, q) && self.difference(q, ONE, z);
        assert(qy == qz);
    }

    /// The derivative of the hyperbolic tangent has one outcome at a point.
    pub proof fn lemma_hyperbolic_tangent_slope_unique(&self, x: u64, y: u64, z: u64)
        requires
            self.determinate(),
            self.hyperbolic_tangent_slope(x, y),
            self.hyperbolic_tangent_slope(x, z),
        ensures
            y == z,
    {
        let py = choose|p: u64|
            #![trigger self.exponential(x, p)]
            self.exponential(x, p) && exists|n: u64|
                #![trigger self.exponential(negation_of(x), n)]
                self.exponential(negation_of(x), n) && exists|s: u64|
                    #![trigger self.sum(p, n, s)]
                    self.sum(p, n, s) && exists|q: u64|
                        #![trigger self.product(s, s, q)]
                        self.product(s, s, q) && self.quotient(FOUR, q, y);
        let pz = choose|p: u64|
            #![trigger self.exponential(x, p)]
            self.exponential(x, p) && exists|n: u64|
                #![trigger self.exponential(negation_of(x), n)]
                self.exponential(negation_of(x), n) && exists|s: u64|
                    #![trigger self.sum(p, n, s)]
                    self.sum(p, n, s) && exists|q: u64|
                        #![trigger self.product(s, s, q)]
                        self.product(s, s, q) && self.quotient(FOUR, q, z);
        assert(py == pz);
        let ny = choose|n: u64|
            #![trigger self.exponential(negation_of(x), n)]
            self.exponential(negation_of(x), n) && exists|s: u64|
                #![trigger self.sum(py, n, s)]
                self.sum(py, n, s) && exists|q: u64|
                    #![trigger self.product(s, s, q)]
                    self.product(s, s, q) && self.quotient(FOUR, q, y);
        let nz = choose|n: u64|
            #![trigger self.exponential(negation_of(x), n)]
            self.exponential(negation_of(x), n) && exists|s: u64|
                #![trigger self.sum(py, n, s)]
                self.sum(py, n, s) && exists|q: u64|
                    #![trigger self.product(s, s, q)]
                    self.product(s, s, q) && self.quotient(FOUR, q, z);
        assert(ny == nz);
        let sy = choose|s: u64|
            #![trigger self.sum(py, ny, s)]
            self.sum(py, ny, s) && exists|q: u64|
                #![trigger self.product(s, s, q)]
                self.product(s, s, q) && self.quotient(FOUR, q, y);
        let sz = choose|s: u64|
            #![trigger self.sum(py, ny, s)]
            self.sum(py, ny, s) && exists|q: u64|
                #![trigger self.product(s, s, q)]
                self.product(s, s, q) && self.quotient(FOUR, q, z);
        assert(sy == sz);
        let qy = choose|q: u64| #![trigger self.product(sy, sy, q)] self.product(sy, sy, q) && self.quotient(FOUR, q, y);
        let qz = choose|q: u64| #![trigger self.product(sy, sy, q)] self.product(sy, sy, q) && self.quotient(FOUR, q, z);
        assert(qy == qz);
    }

    /// The softplus has one outcome at a point.
    pub proof fn lemma_softplus_unique(&self, x: u64, y: u64, z: u64)
        requires
            self.determinate(),
            self.softplus(x, y),
            self.softplus(x, z),
        ensures
            y == z,
    {
        let ey = choose|e: u64|
            #![trigger self.exponential(x, e)]
            self.exponential(x, e) && exists|d: u64|
                #![trigger self.sum(ONE, e, d)]
                self.sum(ONE, e, d) && self.logarithm(d, y);
        let ez = choose|e: u64|
            #![trigger self.exponential(x, e)]
            self.exponential(x, e) && exists|d: u64|
                #![trigger self.sum(ONE, e, d)]
                self.sum(ONE, e, d) && self.logarithm(d, z);
        assert(ey == ez);
        let dy = choose|d: u64| #![trigger self.sum(ONE, ey, d)] self.sum(ONE, ey, d) && self.logarithm(d, y);
        let dz = choose|d: u64| #![trigger self.sum(ONE, ey, d)] self.sum(ONE, ey, d) && self.logarithm(d, z);
        assert(dy == dz);
    }

    /// The derivative of the softplus has one outcome at a point.
    pub proof fn lemma_softplus_slope_unique(&self, x: u64, y: u64, z: u64)
        requires
            self.determinate(),
            self.softplus_slope(x, y),
            self.softplus_slope(x, z),
        ensures
            y == z,
    {
        let ey = choose|e: u64|
            #![trigger self.exponential(x, e)]
            self.exponential(x, e) && exists|d: u64|
                #![trigger self.sum(ONE, e, d)]
                self.sum(ONE, e, d) && self.quotient(e, d, y);
        let ez = choose|e: u64|
            #![trigger self.exponential(x, e)]
            self.exponential(x, e) && exists|d: u64|
                #![trigger self.sum(ONE, e, d)]
                self.sum(ONE, e, d) && self.quotient(e, d, z);
        assert(ey == ez);
        let dy = choose|d: u64| #![trigger self.sum(ONE, ey, d)] self.sum(ONE, ey, d) && self.quotient(ey, d, y);
        let dz = choose|d: u64| #![trigger self.sum(ONE, ey, d)] self.sum(ONE, ey, d) && self.quotient(ey, d, z);
        assert(dy == dz);
    }

    /// An activation function has one outcome at a point.
    pub proof fn lemma_activated_unique(&self, kind: ActivationType, x: u64, y: u64, z: u64)
        requires
            self.determinate(),
            self.activated(kind, x, y),
            self.activated(kind, x, z),
        ensures
            y == z,
    {
        match kind {
            ActivationType::Sigmoid => self.lemma_sigmoid_unique(x, y, z),
            ActivationType::ReLU => {},
            ActivationType::Tanh => self.lemma_hyperbolic_tangent_unique(x, y, z),
            ActivationType::Softplus => self.lemma_softplus_unique(x, y, z),
        }
    }

    /// The derivative of an activation function has one outcome at a point.
    pub proof fn lemma_slope_unique(&self, kind: ActivationType, x: u64, y: u64, z: u64)
        requires
            self.determinate(),
            self.slope(kind, x, y),
            self.slope(kind, x, z),
        ensures
            y == z,
    {
        match kind {
            ActivationType::Sigmoid => self.lemma_sigmoid_slope_unique(x, y, z),
            ActivationType::ReLU => {},
            ActivationType::Tanh => self.lemma_hyperbolic_tangent_slope_unique(x, y, z),
            ActivationType::Softplus => self.lemma_softplus_slope_unique(x, y, z),
        }
    }

    /// A matrix has one image under an activation function.
    pub proof fn lemma_activated_matrix_unique(&self, kind: ActivationType, a: MatrixView, r: MatrixView, s: MatrixView)
        requires
            self.determinate(),
            self.activated_matrix(kind, a, r),
            self.activated_matrix(kind, a, s),
        ensures
            r == s,
    {
        assert forall|i: int| 0 <= i < r.data.len() implies r.data[i] == s.data[i] by {
            self.lemma_activated_unique(kind, a.data[i], r.data[i], s.data[i]);
        }
        assert(r.data =~= s.data);
    }

    /// A matrix has one image under the derivative of an activation
    /// function.
    pub proof fn lemma_slope_matrix_unique(&self, kind: ActivationType, a: MatrixView, r: MatrixView, s: MatrixView)
        requires
            self.determinate(),
            self.slope_matrix(kind, a, r),
            self.slope_matrix(kind, a, s),
        ensures
            r == s,
    {
        assert forall|i: int| 0 <= i < r.data.len() implies r.data[i] == s.data[i] by {
            self.lemma_slope_unique(kind, a.data[i], r.data[i], s.data[i]);
        }
        assert(r.data =~= s.data);
    }

    /// A matrix has one outcome of being scaled.
    pub proof fn lemma_scaled_unique(&self, a: MatrixView, factor: u64, r: MatrixView, s: MatrixView)
        requires
            self.determinate(),
            self.scaled(a, factor, r),
            self.scaled(a, factor, s),
        ensures
            r == s,
    {
        assert forall|i: int| 0 <= i < r.data.len() implies r.data[i] == s.data[i] by {
            assert(self.product(a.data[i], factor, r.data[i]));
            assert(self.product(a.data[i], factor, s.data[i]));
        }
        assert(r.data =~= s.data);
    }

    /// A layer has one output on an input.
    pub proof fn lemma_layer_output_unique(
        &self,
        kind: ActivationType,
        w: MatrixView,
        b: MatrixView,
        x: MatrixView,
        y: MatrixView,
        z: MatrixView,
    )
        requires
            self.determinate(),
            self.layer_output(kind, w, b, x, y),
            self.layer_output(kind, w, b, x, z),
        ensures
            y == z,
    {
        let py = choose|wx: MatrixView|
            #![trigger self.matrix_product(w, x, wx)]
            self.matrix_product(w, x, wx) && exists|pre: MatrixView|
                #![trigger self.matrix_sum(wx, b, pre)]
                self.matrix_sum(wx, b, pre) && self.activated_matrix(kind, pre, y);
        let pz = choose|wx: MatrixView|
            #![trigger self.matrix_product(w, x, wx)]
            self.matrix_product(w, x, wx) && exists|pre: MatrixView|
                #![trigger self.matrix_sum(wx, b, pre)]
                self.matrix_sum(wx, b, pre) && self.activated_matrix(kind, pre, z);
        self.lemma_product_unique(w, x, py, pz);
        let sy = choose|pre: MatrixView|
            #![trigger self.matrix_sum(py, b, pre)]
            self.matrix_sum(py, b, pre) && self.activated_matrix(kind, pre, y);
        let sz = choose|pre: MatrixView|
            #![trigger self.matrix_sum(py, b, pre)]
            self.matrix_sum(py, b, pre) && self.activated_matrix(kind, pre, z);
        self.lemma_sum_unique(py, b, sy, sz);
        self.lemma_activated_matrix_unique(kind, sy, y, z);
    }

    /// Two records of a forward pass on one input agree in every entry.
    pub proof fn lemma_records_agree(
        &self,
        kind: ActivationType,
        p: Parameters,
        input: MatrixView,
        r: Seq<MatrixView>,
        s: Seq<MatrixView>,
        i: int,
    )
        requires
            self.determinate(),
            self.forward(kind, p, input, r),
            self.forward(kind, p, input, s),
            0 <= i < r.len(),
        ensures
            r[i] == s[i],
        decreases i,
    {
        if i > 0 {
            self.lemma_records_agree(kind, p, input, r, s, i - 1);
            assert(self.layer_output(kind, p.weights[i - 1], p.biases[i - 1], r[i - 1], r[i - 1 + 1]));
            assert(self.layer_output(kind, p.weights[i - 1], p.biases[i - 1], s[i - 1], s[i - 1 + 1]));
            self.lemma_layer_output_unique(kind, p.weights[i - 1], p.biases[i - 1], r[i - 1], r[i], s[i]);
        }
    }

    /// A forward pass on an input has one record.
    pub proof fn lemma_forward_unique(
        &self,
        kind: ActivationType,
        p: Parameters,
        input: MatrixView,
        r: Seq<MatrixView>,
        s: Seq<MatrixView>,
    )
        requires
            self.determinate(),
            self.forward(kind, p, input, r),
            self.forward(kind, p, input, s),
        ensures
            r == s,
    {
        assert forall|i: int| 0 <= i < r.len() implies r[i] == s[i] by {
            self.lemma_records_agree(kind, p, input, r, s, i);
        }
        assert(r =~= s);
    }

    /// A layer has one gradient for an output and an error.
    pub proof fn lemma_gradient_unique(
        &self,
        kind: ActivationType,
        output: MatrixView,
        error: MatrixView,
        g: MatrixView,
        h: MatrixView,
    )
        requires
            self.determinate(),
            self.gradient(kind, output, error, g),
            self.gradient(kind, output, error, h),
        ensures
            g == h,
    {
        let dg = choose|d: MatrixView|
            #![trigger self.hadamard(d, error, g)]
            self.slope_matrix(kind, output, d) && self.hadamard(d, error, g);
        let dh = choose|d: MatrixView|
            #![trigger self.hadamard(d, error, h)]
            self.slope_matrix(kind, output, d) && self.hadamard(d, error, h);
        self.lemma_slope_matrix_unique(kind, output, dg, dh);
        self.lemma_hadamard_unique(dg, error, g, h);
    }

    /// An error has one outcome of being taken back through a layer.
    pub proof fn lemma_error_propagated_unique(&self, w: MatrixView, e: MatrixView, x: MatrixView, y: MatrixView)
        requires
            self.determinate(),
            self.error_propagated(w, e, x),
            self.error_propagated(w, e, y),
        ensures
            x == y,
    {
        let tx = choose|wt: MatrixView|
            #![trigger self.matrix_product(wt, e, x)]
            wt.is_transpose_of(w) && self.matrix_product(wt, e, x);
        let ty = choose|wt: MatrixView|
            #![trigger self.matrix_product(wt, e, y)]
            wt.is_transpose_of(w) && self.matrix_product(wt, e, y);
        lemma_transpose_unique(w, tx, ty);
        self.lemma_product_unique(tx, e, x, y);
    }

    /// A layer has one outcome of an update.
    pub proof fn lemma_parameters_updated_unique(
        &self,
        rate: u64,
        w: MatrixView,
        b: MatrixView,
        x: MatrixView,
        g: MatrixView,
        w2: MatrixView,
        b2: MatrixView,
        w3: MatrixView,
        b3: MatrixView,
    )
        requires
            self.determinate(),
            self.parameters_updated(rate, w, b, x, g, w2, b2),
            self.parameters_updated(rate, w, b, x, g, w3, b3),
        ensures
            w2 == w3,
            b2 == b3,
    {
        let s2 = choose|step: MatrixView|
            #![trigger self.scaled(g, rate, step)]
            {
                &&& self.scaled(g, rate, step)
                &&& self.matrix_sum(b, step, b2)
                &&& exists|xt: MatrixView, delta: MatrixView|
                    #![trigger self.matrix_product(step, xt, delta)]
                    {
                        &&& xt.is_transpose_of(x)
                        &&& self.matrix_product(step, xt, delta)
                        &&& self.matrix_sum(w, delta, w2)
                    }
            };
        let s3 = choose|step: MatrixView|
            #![trigger self.scaled(g, rate, step)]
            {
                &&& self.scaled(g, rate, step)
                &&& self.matrix_sum(b, step, b3)
                &&& exists|xt: MatrixView, delta: MatrixView|
                    #![trigger self.matrix_product(step, xt, delta)]
                    {
                        &&& xt.is_transpose_of(x)
                        &&& self.matrix_product(step, xt, delta)
                        &&& self.matrix_sum(w, delta, w3)
                    }
            };
        self.lemma_scaled_unique(g, rate, s2, s3);
        self.lemma_sum_unique(b, s2, b2, b3);
        let (t2, d2) = choose|xt: MatrixView, delta: MatrixView|
            #![trigger self.matrix_product(s2, xt, delta)]
            {
                &&& xt.is_transpose_of(x)
                &&& self.matrix_product(s2, xt, delta)
                &&& self.matrix_sum(w, delta, w2)
            };
        let (t3, d3) = choose|xt: MatrixView, delta: MatrixView|
            #![trigger self.matrix_product(s2, xt, delta)]
            {
                &&& xt.is_transpose_of(x)
                &&& self.matrix_product(s2, xt, delta)
                &&& self.matrix_sum(w, delta, w3)
            };
        lemma_transpose_unique(x, t2, t3);
        self.lemma_product_unique(s2, t2, d2, d3);
        self.lemma_sum_unique(w, d2, w2, w3);
    }

    /// Two traces of a backward pass agree in the error and the gradient of
    /// every layer but the input's.
    pub proof fn lemma_traces_agree(
        &self,
        kind: ActivationType,
        rate: u64,
        p: Parameters,
        record: Seq<MatrixView>,
        target: MatrixView,
        left: Parameters,
        e2: Seq<MatrixView>,
        g2: Seq<MatrixView>,
        other: Parameters,
        e3: Seq<MatrixView>,
        g3: Seq<MatrixView>,
        j: int,
    )
        requires
            self.determinate(),
            self.backward_trace(kind, rate, p, record, target, left, e2, g2),
            self.backward_trace(kind, rate, p, record, target, other, e3, g3),
            1 <= j < record.len(),
        ensures
            e2[j] == e3[j],
            g2[j] == g3[j],
        decreases record.len() - j,
    {
        let n = record.len();
        if j == n - 1 {
            self.lemma_difference_unique(target, record[n - 1], e2[n - 1], e3[n - 1]);
        } else {
            self.lemma_traces_agree(kind, rate, p, record, target, left, e2, g2, other, e3, g3, j + 1);
            assert(self.error_propagated(p.weights[j], e2[j + 1], e2[j]));
            assert(self.error_propagated(p.weights[j], e3[j + 1], e3[j]));
            self.lemma_error_propagated_unique(p.weights[j], e2[j + 1], e2[j], e3[j]);
        }
        assert(self.gradient(kind, record[j], e2[j], g2[j]));
        assert(self.gradient(kind, record[j], e3[j], g3[j]));
        self.lemma_gradient_unique(kind, record[j], e2[j], g2[j], g3[j]);
    }

    /// A backward pass has one outcome.
    pub proof fn lemma_backward_unique(
        &self,
        kind: ActivationType,
        rate: u64,
        p: Parameters,
        record: Seq<MatrixView>,
        target: MatrixView,
        left: Parameters,
        other: Parameters,
    )
        requires
            self.determinate(),
            self.backward(kind, rate, p, record, target, left),
            self.backward(kind, rate, p, record, target, other),
        ensures
            left == other,
    {
        let (e2, g2) = choose|errors: Seq<MatrixView>, gradients: Seq<MatrixView>| #[trigger]
            self.backward_trace(kind, rate, p, record, target, left, errors, gradients);
        let (e3, g3) = choose|errors: Seq<MatrixView>, gradients: Seq<MatrixView>| #[trigger]
            self.backward_trace(kind, rate, p, record, target, other, errors, gradients);
        assert forall|i: int| 0 <= i < left.weights.len() implies left.weights[i] == other.weights[i] && left.biases[i]
            == other.biases[i] by {
            self.lemma_traces_agree(kind, rate, p, record, target, left, e2, g2, other, e3, g3, i + 1);
            assert(self.parameters_updated(
                rate,
                p.weights[i],
                p.biases[i],
                record[i],
                g2[i + 1],
                left.weights[i],
                left.biases[i],
            ));
            assert(self.parameters_updated(
                rate,
                p.weights[i],
                p.biases[i],
                record[i],
                g3[i + 1],
                other.weights[i],
                other.biases[i],
            ));
            self.lemma_parameters_updated_unique(
                rate,
                p.weights[i],
                p.biases[i],
                record[i],
                g2[i + 1],
                left.weights[i],
                left.biases[i],
                other.weights[i],
                other.biases[i],
            );
        }
        assert(left.weights =~= other.weights);
        assert(left.biases =~= other.biases);
    }

    /// Training on one example has one outcome.
    pub proof fn lemma_example_step_unique(
        &self,
        kind: ActivationType,
        rate: u64,
        before: Progress,
        input: MatrixView,
        target: MatrixView,
        x: Progress,
        y: Progress,
    )
        requires
            self.determinate(),
            self.example_step(kind, rate, before, input, target, x),
            self.example_step(kind, rate, before, input, target, y),
        ensures
            x == y,
    {
        self.lemma_forward_unique(kind, before.parameters, input, x.record, y.record);
        self.lemma_backward_unique(kind, rate, before.parameters, x.record, target, x.parameters, y.parameters);
    }

    /// A pass over the examples has one outcome.
    pub proof fn lemma_pass_unique(
        &self,
        kind: ActivationType,
        rate: u64,
        start: Progress,
        inputs: Seq<MatrixView>,
        targets: Seq<MatrixView>,
        n: nat,
        x: Progress,
        y: Progress,
    )
        requires
            self.determinate(),
            self.pass(kind, rate, start, inputs, targets, n, x),
            self.pass(kind, rate, start, inputs, targets, n, y),
        ensures
            x == y,
        decreases n,
    {
        if n > 0 {
            let mx = choose|mid: Progress|
                #![trigger self.example_step(kind, rate, mid, inputs[n - 1], targets[n - 1], x)]
                {
                    &&& self.pass(kind, rate, start, inputs, targets, (n - 1) as nat, mid)
                    &&& self.example_step(kind, rate, mid, inputs[n - 1], targets[n - 1], x)
                };
            let my = choose|mid: Progress|
                #![trigger self.example_step(kind, rate, mid, inputs[n - 1], targets[n - 1], y)]
                {
                    &&& self.pass(kind, rate, start, inputs, targets, (n - 1) as nat, mid)
                    &&& self.example_step(kind, rate, mid, inputs[n - 1], targets[n - 1], y)
                };
            self.lemma_pass_unique(kind, rate, start, inputs, targets, (n - 1) as nat, mx, my);
            self.lemma_example_step_unique(kind, rate, mx, inputs[n - 1], targets[n - 1], x, y);
        }
    }

    /// Training that stops at an example has left one outcome.
    pub proof fn lemma_stopped_unique(
        &self,
        kind: ActivationType,
        rate: u64,
        start: Progress,
        inputs: Seq<MatrixView>,
        targets: Seq<MatrixView>,
        j: nat,
        input_fits: bool,
        x: Progress,
        y: Progress,
    )
        requires
            self.determinate(),
            self.stopped(kind, rate, start, inputs, targets, j, input_fits, x),
            self.stopped(kind, rate, start, inputs, targets, j, input_fits, y),
        ensures
            x == y,
    {
        let mx = choose|mid: Progress|
            #![trigger self.pass(kind, rate, start, inputs, targets, j, mid)]
            {
                &&& self.pass(kind, rate, start, inputs, targets, j, mid)
                &&& if input_fits {
                    &&& x.parameters == mid.parameters
                    &&& self.forward(kind, mid.parameters, inputs[j as int], x.record)
                } else {
                    x == mid
                }
            };
        let my = choose|mid: Progress|
            #![trigger self.pass(kind, rate, start, inputs, targets, j, mid)]
            {
                &&& self.pass(kind, rate, start, inputs, targets, j, mid)
                &&& if input_fits {
                    &&& y.parameters == mid.parameters
                    &&& self.forward(kind, mid.parameters, inputs[j as int], y.record)
                } else {
                    y == mid
                }
            };
        self.lemma_pass_unique(kind, rate, start, inputs, targets, j, mx, my);
        if input_fits {
            self.lemma_forward_unique(kind, mx.parameters, inputs[j as int], x.record, y.record);
        }
    }

    /// Training has one outcome.
    pub proof fn lemma_training_unique(
        &self,
        kind: ActivationType,
        rate: u64,
        start: Progress,
        inputs: Seq<MatrixView>,
        targets: Seq<MatrixView>,
        epochs: nat,
        x: Progress,
        y: Progress,
    )
        requires
            self.determinate(),
            self.training(kind, rate, start, inputs, targets, epochs, x),
            self.training(kind, rate, start, inputs, targets, epochs, y),
        ensures
            x == y,
        decreases epochs,
    {
        if epochs > 0 {
            let mx = choose|mid: Progress|
                #![trigger self.pass(kind, rate, mid, inputs, targets, inputs.len(), x)]
                {
                    &&& self.training(kind, rate, start, inputs, targets, (epochs - 1) as nat, mid)
                    &&& self.pass(kind, rate, mid, inputs, targets, inputs.len(), x)
                };
            let my = choose|mid: Progress|
                #![trigger self.pass(kind, rate, mid, inputs, targets, inputs.len(), y)]
                {
                    &&& self.training(kind, rate, start, inputs, targets, (epochs - 1) as nat, mid)
                    &&& self.pass(kind, rate, mid, inputs, targets, inputs.len(), y)
                };
            self.lemma_training_unique(kind, rate, start, inputs, targets, (epochs - 1) as nat, mx, my);
            self.lemma_pass_unique(kind, rate, mx, inputs, targets, inputs.len(), x, y);
        }
    }
}

} // verus!
