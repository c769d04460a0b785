//! What the forward and the backward pass compute, stated over the views of
//! the matrices involved.

use vstd::prelude::*;
use crate::lin_alg::arithmetic::Arithmetic;
use crate::lin_alg::matrix::MatrixView;
use crate::net::activations::ActivationType;

verus! {

/// The weights and biases of a network, one matrix of each for every
/// transition from a layer to the next.
pub struct Parameters {
    pub weights: Seq<MatrixView>,
    pub biases: Seq<MatrixView>,
}

/// What training has reached: the parameters, and the record of the latest
/// forward pass with the input first and then each layer's output.
pub struct Progress {
    pub parameters: Parameters,
    pub record: Seq<MatrixView>,
}

/// `m` is a column vector of `n` cells.
pub open spec fn is_column(m: MatrixView, n: nat) -> bool {
    m.wf() && m.rows == n && m.columns == 1
}

/// The parameters fit the layer widths: the weights of transition `i` have
/// `layers[i + 1]` rows and `layers[i]` columns, its biases are a column of
/// `layers[i + 1]` cells.
pub open spec fn parameters_fit(layers: Seq<usize>, p: Parameters) -> bool {
    &&& layers.len() >= 2
    &&& p.weights.len() == layers.len() - 1
    &&& p.biases.len() == layers.len() - 1
    &&& forall|i: int|
        0 <= i < layers.len() - 1 ==> {
            let w = #[trigger] p.weights[i];
            w.wf() && w.rows == layers[i + 1] && w.columns == layers[i]
        }
    &&& forall|i: int| 0 <= i < layers.len() - 1 ==> is_column(#[trigger] p.biases[i], layers[i + 1] as nat)
}

/// The record of a forward pass fits the layer widths: one column per
/// layer, of the layer's width.
pub open spec fn record_fits(layers: Seq<usize>, record: Seq<MatrixView>) -> bool {
    &&& record.len() == layers.len()
    &&& forall|i: int| 0 <= i < record.len() ==> is_column(#[trigger] record[i], layers[i] as nat)
}

impl<A, S, M, D, E, L> Arithmetic<A, S, M, D, E, L> where
    A: Fn(u64, u64) -> u64,
    S: Fn(u64, u64) -> u64,
    M: Fn(u64, u64) -> u64,
    D: Fn(u64, u64) -> u64,
    E: Fn(u64) -> u64,
    L: Fn(u64) -> u64,
 {
    /// `r` is `a` with the activation function applied to every cell.
    pub open spec fn activated_matrix(&self, kind: ActivationType, a: MatrixView, r: MatrixView) -> bool {
        &&& r.wf()
        &&& r.same_shape(a)
        &&& forall|i: int| 0 <= i < r.data.len() ==> self.activated(kind, a.data[i], #[trigger] r.data[i])
    }

    /// `r` is `a` with the derivative of the activation function applied to
    /// every cell.
    pub open spec fn slope_matrix(&self, kind: ActivationType, a: MatrixView, r: MatrixView) -> bool {
        &&& r.wf()
        &&& r.same_shape(a)
        &&& forall|i: int| 0 <= i < r.data.len() ==> self.slope(kind, a.data[i], #[trigger] r.data[i])
    }

    /// `r` is `a` with every cell multiplied by `factor`.
    pub open spec fn scaled(&self, a: MatrixView, factor: u64, r: MatrixView) -> bool {
        &&& r.wf()
        &&& r.same_shape(a)
        &&& forall|i: int| 0 <= i < r.data.len() ==> self.product(a.data[i], factor, #[trigger] r.data[i])
    }

    /// `y` is what a layer with weights `w` and biases `b` makes of `x`: the
    /// activation function applied to `w * x + b`.
    pub open spec fn layer_output(
        &self,
        kind: ActivationType,
        w: MatrixView,
        b: MatrixView,
        x: MatrixView,
        y: MatrixView,
    ) -> bool {
        exists|wx: MatrixView|
            #![trigger self.matrix_product(w, x, wx)]
            self.matrix_product(w, x, wx) && exists|pre: MatrixView|
                #![trigger self.matrix_sum(wx, b, pre)]
                self.matrix_sum(wx, b, pre) && self.activated_matrix(kind, pre, y)
    }

    /// `record` is the record of a forward pass on `input`: the input first,
    /// then the output of each layer on the entry before it.
    pub open spec fn forward(
        &self,
        kind: ActivationType,
        p: Parameters,
        input: MatrixView,
        record: Seq<MatrixView>,
    ) -> bool {
        &&& record.len() == p.weights.len() + 1
        &&& record[0] == input
        &&& forall|i: int|
            0 <= i < p.weights.len() ==> self.layer_output(
                kind,
                #[trigger] p.weights[i],
                p.biases[i],
                record[i],
                record[i + 1],
            )
    }

    /// `g` is the gradient at a layer whose output was `output` and whose
    /// error is `error`: the derivative of the activation function at the
    /// output, times the error, cell by cell.
    pub open spec fn gradient(
        &self,
        kind: ActivationType,
        output: MatrixView,
        error: MatrixView,
        g: MatrixView,
    ) -> bool {
        exists|d: MatrixView|
            #![trigger self.hadamard(d, error, g)]
            self.slope_matrix(kind, output, d) && self.hadamard(d, error, g)
    }

    /// `w2` and `b2` are the weights `w` and biases `b` of a layer after one
    /// update: with `step` the gradient `g` scaled by the learning rate,
    /// `b2` is `b + step` and `w2` is `w` plus `step` times the transposed
    /// input `x` of the layer.
    pub open spec fn parameters_updated(
        &self,
        rate: u64,
        w: MatrixView,
        b: MatrixView,
        x: MatrixView,
        g: MatrixView,
        w2: MatrixView,
        b2: MatrixView,
    ) -> bool {
        exists|step: MatrixView|
            #![trigger self.scaled(g, rate, step)]
            {
                &&& self.scaled(g, rate, step)
                &&& self.matrix_sum(b, step, b2)
                &&& exists|xt: MatrixView, delta: MatrixView|
                    #![trigger self.matrix_product(step, xt, delta)]
                    {
                        &&& xt.is_transpose_of(x)
                        &&& self.matrix_product(step, xt, delta)
                        &&& self.matrix_sum(w, delta, w2)
                    }
            }
    }

    /// `e2` is the error `e` at the output of a layer taken back to its
    /// input: the transposed weights times `e`.
    pub open spec fn error_propagated(&self, w: MatrixView, e: MatrixView, e2: MatrixView) -> bool {
        exists|wt: MatrixView|
            #![trigger self.matrix_product(wt, e, e2)]
            wt.is_transpose_of(w) && self.matrix_product(wt, e, e2)
    }

    /// `errors` and `gradients` are the errors and gradients of a backward
    /// pass, layer by layer, and `left` the parameters that it leaves.
    ///
    /// The error at the last layer is the target less the output. The error
    /// at an inner layer is the one above it, taken back through the
    /// weights as they were before the pass. Each layer's gradient is made of
    /// its recorded output and its error, and each transition is updated
    /// with the gradient of the layer that it leads to.
    pub open spec fn backward_trace(
        &self,
        kind: ActivationType,
        rate: u64,
        p: Parameters,
        record: Seq<MatrixView>,
        target: MatrixView,
        left: Parameters,
        errors: Seq<MatrixView>,
        gradients: Seq<MatrixView>,
    ) -> bool {
        let n = record.len();
        &&& errors.len() == n
        &&& gradients.len() == n
        &&& self.matrix_difference(target, record[n - 1], errors[n - 1])
        &&& forall|j: int| 1 <= j < n ==> self.gradient(kind, record[j], errors[j], #[trigger] gradients[j])
        &&& forall|i: int|
            1 <= i < n - 1 ==> self.error_propagated(p.weights[i], errors[i + 1], #[trigger] errors[i])
        &&& forall|i: int|
            0 <= i < n - 1 ==> self.parameters_updated(
                rate,
                p.weights[i],
                p.biases[i],
                record[i],
                gradients[i + 1],
                #[trigger] left.weights[i],
                left.biases[i],
            )
    }

    /// `left` is what a backward pass towards `target` makes of the
    /// parameters `p`, given the record of the forward pass before it.
    pub open spec fn backward(
        &self,
        kind: ActivationType,
        rate: u64,
        p: Parameters,
        record: Seq<MatrixView>,
        target: MatrixView,
        left: Parameters,
    ) -> bool {
        &&& record.len() == p.weights.len() + 1
        &&& p.biases.len() == p.weights.len()
        &&& left.weights.len() == p.weights.len()
        &&& left.biases.len() == p.biases.len()
        &&& exists|errors: Seq<MatrixView>, gradients: Seq<MatrixView>| #[trigger]
            self.backward_trace(kind, rate, p, record, target, left, errors, gradients)
    }

    /// `after` is what training on one example makes of `before`: the record
    /// is that of a forward pass on the input, and the parameters are what a
    /// backward pass towards the target makes of those of `before`.
    pub open spec fn example_step(
        &self,
        kind: ActivationType,
        rate: u64,
        before: Progress,
        input: MatrixView,
        target: MatrixView,
        after: Progress,
    ) -> bool {
        &&& self.forward(kind, before.parameters, input, after.record)
        &&& self.backward(kind, rate, before.parameters, after.record, target, after.parameters)
    }

    /// `after` is what training on the first `n` examples, in their order,
    /// makes of `start`.
    pub open spec fn pass(
        &self,
        kind: ActivationType,
        rate: u64,
        start: Progress,
        inputs: Seq<MatrixView>,
        targets: Seq<MatrixView>,
        n: nat,
        after: Progress,
    ) -> bool
        decreases n,
    {
        if n == 0 {
            after == start
        } else {
            exists|mid: Progress|
                #![trigger self.example_step(kind, rate, mid, inputs[n - 1], targets[n - 1], after)]
                {
                    &&& self.pass(kind, rate, start, inputs, targets, (n - 1) as nat, mid)
                    &&& self.example_step(kind, rate, mid, inputs[n - 1], targets[n - 1], after)
                }
        }
    }

    /// `after` is what is left of `start` when training stops at example `j`
    /// of a pass because the example does not fit: the examples before it
    /// have been trained on, and where the input of example `j` fits, its
    /// forward pass has been recorded.
    pub open spec fn stopped(
        &self,
        kind: ActivationType,
        rate: u64,
        start: Progress,
        inputs: Seq<MatrixView>,
        targets: Seq<MatrixView>,
        j: nat,
        input_fits: bool,
        after: Progress,
    ) -> bool {
        exists|mid: Progress|
            #![trigger self.pass(kind, rate, start, inputs, targets, j, mid)]
            {
                &&& self.pass(kind, rate, start, inputs, targets, j, mid)
                &&& if input_fits {
                    &&& after.parameters == mid.parameters
                    &&& self.forward(kind, mid.parameters, inputs[j as int], after.record)
                } else {
                    after == mid
                }
            }
    }

    /// `after` is what `epochs` passes over all the examples make of
    /// `start`.
    pub open spec fn training(
        &self,
        kind: ActivationType,
        rate: u64,
        start: Progress,
        inputs: Seq<MatrixView>,
        targets: Seq<MatrixView>,
        epochs: nat,
        after: Progress,
    ) -> bool
        decreases epochs,
    {
        if epochs == 0 {
            after == start
        } else {
            exists|mid: Progress|
                #![trigger self.pass(kind, rate, mid, inputs, targets, inputs.len(), after)]
                {
                    &&& self.training(kind, rate, start, inputs, targets, (epochs - 1) as nat, mid)
                    &&& self.pass(kind, rate, mid, inputs, targets, inputs.len(), after)
                }
        }
    }

    /// One more example, trained on after `n - 1` of them, makes a pass of
    /// `n`.
    pub proof fn lemma_pass_extends(
        &self,
        kind: ActivationType,
        rate: u64,
        start: Progress,
        inputs: Seq<MatrixView>,
        targets: Seq<MatrixView>,
        n: nat,
        mid: Progress,
        after: Progress,
    )
        requires
            n > 0,
            self.pass(kind, rate, start, inputs, targets, (n - 1) as nat, mid),
            self.example_step(kind, rate, mid, inputs[n - 1], targets[n - 1], after),
        ensures
            self.pass(kind, rate, start, inputs, targets, n, after),
    {
    }

    /// One more pass, after `epochs - 1` of them, makes a training of
    /// `epochs`.
    pub proof fn lemma_training_extends(
        &self,
        kind: ActivationType,
        rate: u64,
        start: Progress,
        inputs: Seq<MatrixView>,
        targets: Seq<MatrixView>,
        epochs: nat,
        mid: Progress,
        after: Progress,
    )
        requires
            epochs > 0,
            self.training(kind, rate, start, inputs, targets, (epochs - 1) as nat, mid),
            self.pass(kind, rate, mid, inputs, targets, inputs.len(), after),
        ensures
            self.training(kind, rate, start, inputs, targets, epochs, after),
    {
    }
}

} // verus!
