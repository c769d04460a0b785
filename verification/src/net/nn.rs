//! The network: its construction, the forward pass, the backward pass and
//! training.

use vstd::prelude::*;
use crate::lin_alg::arithmetic::Arithmetic;
use crate::lin_alg::error::MatrixError;
use crate::lin_alg::matrix::{column_of, Matrix, MatrixView};
use crate::lin_alg::scalar::{is_positive, positive};
use crate::net::activations::Activation;
use crate::net::layer::{gradient_of, output_of, propagate_error, update_of};
use crate::net::propagation::{is_column, parameters_fit, record_fits, Parameters, Progress};

verus! {

/// A feed-forward network of fully connected layers.
#[derive(Debug)]
pub struct NeuralNet {
    /// The width of each layer, the input layer first.
    pub layers: Vec<usize>,
    /// The weights of each transition from a layer to the next.
    pub weights: Vec<Matrix>,
    /// The biases of each transition.
    pub biases: Vec<Matrix>,
    /// The record of the latest forward pass: its input, then the output of
    /// each layer. Empty until the first pass.
    pub data: Vec<Matrix>,
    /// The activation function of every layer.
    pub activation: Activation,
    /// The learning rate, a positive number.
    pub learning_rate: u64,
}

/// An example fits a network of the given layer widths: its input is as
/// long as the first layer is wide and its target as long as the last.
pub open spec fn example_fits(layers: Seq<usize>, input: Vec<u64>, target: Vec<u64>) -> bool {
    input.len() == layers[0] && target.len() == layers.last()
}

/// The examples fit a network of the given layer widths: there are as many
/// targets as inputs, and every example fits.
pub open spec fn examples_fit(layers: Seq<usize>, inputs: Seq<Vec<u64>>, targets: Seq<Vec<u64>>) -> bool {
    &&& inputs.len() == targets.len()
    &&& forall|j: int| 0 <= j < inputs.len() ==> example_fits(layers, #[trigger] inputs[j], targets[j])
}

/// Example `j` is the first that does not fit.
pub open spec fn first_misfit(layers: Seq<usize>, inputs: Seq<Vec<u64>>, targets: Seq<Vec<u64>>, j: int) -> bool {
    &&& 0 <= j < inputs.len()
    &&& j < targets.len()
    &&& !example_fits(layers, inputs[j], targets[j])
    &&& forall|t: int| 0 <= t < j ==> example_fits(layers, #[trigger] inputs[t], targets[t])
}

/// Each run of cells as a column vector.
pub open spec fn columns_of(cells: Seq<Vec<u64>>) -> Seq<MatrixView> {
    Seq::new(cells.len(), |j: int| column_of(cells[j]@))
}

/// The views of a run of matrices.
pub open spec fn views(ms: Seq<Matrix>) -> Seq<MatrixView> {
    Seq::new(ms.len(), |i: int| ms[i]@)
}

impl NeuralNet {
    /// The weights and biases.
    pub open spec fn parameters(&self) -> Parameters {
        Parameters { weights: views(self.weights@), biases: views(self.biases@) }
    }

    /// The record of the latest forward pass.
    pub open spec fn record(&self) -> Seq<MatrixView> {
        views(self.data@)
    }

    /// The parameters together with the record.
    pub open spec fn progress(&self) -> Progress {
        Progress { parameters: self.parameters(), record: self.record() }
    }

    /// The network has at least two layers, parameters that fit them, a
    /// positive learning rate, and a record that is empty or fits the
    /// layers.
    pub open spec fn wf(&self) -> bool {
        &&& parameters_fit(self.layers@, self.parameters())
        &&& positive(self.learning_rate)
        &&& (self.data.len() == 0 || record_fits(self.layers@, self.record()))
    }

    /// `other` is this network but for the record of the forward pass.
    pub open spec fn same_network(&self, other: &NeuralNet) -> bool {
        &&& self.layers@ == other.layers@
        &&& self.parameters() == other.parameters()
        &&& self.activation.kind == other.activation.kind
        &&& self.learning_rate == other.learning_rate
    }

    /// A network with the given layer widths and randomly drawn weights and
    /// biases. It needs at least two layers and a learning rate that is a
    /// number above zero.
    pub fn new<A, S, M, D, E, L>(
        layers: Vec<usize>,
        activation: Activation,
        learning_rate: u64,
        unit: &Arithmetic<A, S, M, D, E, L>,
    ) -> (result: Result<NeuralNet, MatrixError>) where
        A: Fn(u64, u64) -> u64,
        S: Fn(u64, u64) -> u64,
        M: Fn(u64, u64) -> u64,
        D: Fn(u64, u64) -> u64,
        E: Fn(u64) -> u64,
        L: Fn(u64) -> u64,

        requires
            unit.total(),
        ensures
            result.is_ok() <==> layers.len() >= 2 && positive(learning_rate),
            match result {
                Ok(net) => {
                    &&& net.wf()
                    &&& net.layers@ == layers@
                    &&& net.activation.kind == activation.kind
                    &&& net.learning_rate == learning_rate
                    &&& net.data.len() == 0
                    &&& forall|i: int, j: int|
                        0 <= i < net.weights.len() && 0 <= j < net.weights[i].data.len() ==> unit.drawn(
                            #[trigger] net.weights[i].data[j],
                        )
                    &&& forall|i: int, j: int|
                        0 <= i < net.biases.len() && 0 <= j < net.biases[i].data.len() ==> unit.drawn(
                            #[trigger] net.biases[i].data[j],
                        )
                },
                Err(e) => e == MatrixError::InvalidConfiguration,
            },
    {
        if layers.len() < 2 || !is_positive(learning_rate) {
            return Err(MatrixError::InvalidConfiguration);
        }
        let count = layers.len() - 1;
        let mut weights: Vec<Matrix> = Vec::new();
        let mut biases: Vec<Matrix> = Vec::new();
        let mut i: usize = 0;
        while i < count
            invariant
                unit.total(),
                count == layers.len() - 1,
                i <= count,
                weights.len() == i,
                biases.len() == i,
                forall|t: int|
                    0 <= t < i ==> {
                        let w = #[trigger] weights[t];
                        w.wf() && w.rows == layers[t + 1] && w.columns == layers[t]
                    },
                forall|t: int| 0 <= t < i ==> is_column((#[trigger] biases[t])@, layers[t + 1] as nat),
                forall|t: int, j: int|
                    0 <= t < i && 0 <= j < weights[t].data.len() ==> unit.drawn(#[trigger] weights[t].data[j]),
                forall|t: int, j: int|
                    0 <= t < i && 0 <= j < biases[t].data.len() ==> unit.drawn(#[trigger] biases[t].data[j]),
            decreases count - i,
        {
            let w = Matrix::new_random(layers[i + 1], layers[i], unit);
            let b = Matrix::new_random(layers[i + 1], 1, unit);
            weights.push(w);
            biases.push(b);
            i += 1;
        }
        let net = NeuralNet { layers, weights, biases, data: Vec::new(), activation, learning_rate };
        proof {
            let p = net.parameters();
            assert forall|t: int| 0 <= t < net.layers.len() - 1 implies {
                let w = #[trigger] p.weights[t];
                w.wf() && w.rows == net.layers[t + 1] && w.columns == net.layers[t]
            } by {
                assert(p.weights[t] == net.weights[t]@);
            }
            assert forall|t: int| 0 <= t < net.layers.len() - 1 implies is_column(
                #[trigger] p.biases[t],
                net.layers[t + 1] as nat,
            ) by {
                assert(p.biases[t] == net.biases[t]@);
            }
        }
        Ok(net)
    }

    /// A network with the given layer widths, weights and biases. It needs
    /// at least two layers and a learning rate that is a number above zero,
    /// and parameters that fit the layers.
    pub fn with_parameters(
        layers: Vec<usize>,
        weights: Vec<Matrix>,
        biases: Vec<Matrix>,
        activation: Activation,
        learning_rate: u64,
    ) -> (result: Result<NeuralNet, MatrixError>)
        requires
            forall|i: int| 0 <= i < weights.len() ==> (#[trigger] weights[i]).wf(),
            forall|i: int| 0 <= i < biases.len() ==> (#[trigger] biases[i]).wf(),
        ensures
            result.is_ok() <==> layers.len() >= 2 && positive(learning_rate) && parameters_fit(
                layers@,
                (Parameters { weights: views(weights@), biases: views(biases@) }),
            ),
            match result {
                Ok(net) => {
                    &&& net.wf()
                    &&& net.layers@ == layers@
                    &&& net.weights@ == weights@
                    &&& net.biases@ == biases@
                    &&& net.activation.kind == activation.kind
                    &&& net.learning_rate == learning_rate
                    &&& net.data.len() == 0
                },
                Err(e) => if layers.len() < 2 || !positive(learning_rate) {
                    e == MatrixError::InvalidConfiguration
                } else {
                    e == MatrixError::ShapeMismatch && !parameters_fit(
                        layers@,
                        (Parameters { weights: views(weights@), biases: views(biases@) }),
                    )
                },
            },
    {
        if layers.len() < 2 || !is_positive(learning_rate) {
            return Err(MatrixError::InvalidConfiguration);
        }
        let count = layers.len() - 1;
        let ghost p = Parameters { weights: views(weights@), biases: views(biases@) };
        if weights.len() != count || biases.len() != count {
            return Err(MatrixError::ShapeMismatch);
        }
        let mut i: usize = 0;
        while i < count
            invariant
                layers.len() >= 2,
                positive(learning_rate),
                count == layers.len() - 1,
                weights.len() == count,
                biases.len() == count,
                p == (Parameters { weights: views(weights@), biases: views(biases@) }),
                forall|t: int| 0 <= t < weights.len() ==> (#[trigger] weights[t]).wf(),
                forall|t: int| 0 <= t < biases.len() ==> (#[trigger] biases[t]).wf(),
                i <= count,
                forall|t: int|
                    0 <= t < i ==> {
                        let w = #[trigger] p.weights[t];
                        w.wf() && w.rows == layers[t + 1] && w.columns == layers[t]
                    },
                forall|t: int| 0 <= t < i ==> is_column(#[trigger] p.biases[t], layers[t + 1] as nat),
            decreases count - i,
        {
            let w = &weights[i];
            let b = &biases[i];
            proof {
                assert(p.weights[i as int] == weights[i as int]@);
                assert(p.biases[i as int] == biases[i as int]@);
            }
            if w.rows != layers[i + 1] || w.columns != layers[i] || b.rows != layers[i + 1] || b.columns != 1 {
                proof {
                    if parameters_fit(layers@, p) {
                        let w = p.weights[i as int];
                        assert(w.wf() && w.rows == layers@[i + 1] && w.columns == layers@[i as int]);
                        assert(is_column(p.biases[i as int], layers@[i + 1] as nat));
                    }
                }
                return Err(MatrixError::ShapeMismatch);
            }
            i += 1;
        }
        Ok(NeuralNet { layers, weights, biases, data: Vec::new(), activation, learning_rate })
    }

    /// Tells whether `m` is a sound matrix of the given extents.
    fn has_shape(m: &Matrix, rows: usize, columns: usize) -> (r: bool)
        ensures
            r == (m.wf() && m.rows == rows && m.columns == columns),
    {
        m.is_wf() && m.rows == rows && m.columns == columns
    }

    /// Tells whether the network is sound: at least two layers, parameters
    /// that fit them, a positive learning rate, and a record that is empty
    /// or fits the layers.
    pub fn is_wf(&self) -> (r: bool)
        ensures
            r == self.wf(),
    {
        let n = self.layers.len();
        if n < 2 || self.weights.len() != n - 1 || self.biases.len() != n - 1 || !is_positive(self.learning_rate) {
            return false;
        }
        let ghost p = self.parameters();
        let ghost record = self.record();
        let mut i: usize = 0;
        while i < n - 1
            invariant
                n == self.layers.len(),
                n >= 2,
                self.weights.len() == n - 1,
                self.biases.len() == n - 1,
                p == self.parameters(),
                i <= n - 1,
                forall|t: int|
                    0 <= t < i ==> {
                        let w = #[trigger] p.weights[t];
                        w.wf() && w.rows == self.layers[t + 1] && w.columns == self.layers[t]
                    },
                forall|t: int| 0 <= t < i ==> is_column(#[trigger] p.biases[t], self.layers[t + 1] as nat),
            decreases n - 1 - i,
        {
            proof {
                assert(p.weights[i as int] == self.weights[i as int]@);
                assert(p.biases[i as int] == self.biases[i as int]@);
            }
            if !Self::has_shape(&self.weights[i], self.layers[i + 1], self.layers[i]) || !Self::has_shape(
                &self.biases[i],
                self.layers[i + 1],
                1,
            ) {
                proof {
                    if parameters_fit(self.layers@, p) {
                        let w = p.weights[i as int];
                        assert(w.wf() && w.rows == self.layers@[i + 1] && w.columns == self.layers@[i as int]);
                        assert(is_column(p.biases[i as int], self.layers@[i + 1] as nat));
                    }
                }
                return false;
            }
            i += 1;
        }
        if self.data.len() == 0 {
            return true;
        }
        if self.data.len() != n {
            return false;
        }
        let mut j: usize = 0;
        while j < n
            invariant
                n == self.layers.len(),
                self.data.len() == n,
                record == self.record(),
                parameters_fit(self.layers@, self.parameters()),
                positive(self.learning_rate),
                j <= n,
                forall|t: int| 0 <= t < j ==> is_column(#[trigger] record[t], self.layers[t] as nat),
            decreases n - j,
        {
            proof {
                assert(record[j as int] == self.data[j as int]@);
            }
            if !Self::has_shape(&self.data[j], self.layers[j], 1) {
                proof {
                    if record_fits(self.layers@, record) {
                        assert(is_column(record[j as int], self.layers@[j as int] as nat));
                    }
                }
                return false;
            }
            j += 1;
        }
        true
    }

    /// Whether a forward pass has been recorded.
    pub fn has_record(&self) -> (r: bool)
        ensures
            r == (self.data.len() > 0),
    {
        self.data.len() > 0
    }

    /// Runs `inputs`, a column of as many cells as the first layer is wide,
    /// through the layers, and records the input and every layer's output.
    pub fn feed_forward<A, S, M, D, E, L>(
        &mut self,
        inputs: Matrix,
        unit: &Arithmetic<A, S, M, D, E, L>,
    ) -> (result: Result<Matrix, MatrixError>) where
        A: Fn(u64, u64) -> u64,
        S: Fn(u64, u64) -> u64,
        M: Fn(u64, u64) -> u64,
        D: Fn(u64, u64) -> u64,
        E: Fn(u64) -> u64,
        L: Fn(u64) -> u64,

        requires
            old(self).wf(),
            inputs.wf(),
            unit.total(),
        ensures
            final(self).wf(),
            final(self).same_network(old(self)),
            result.is_ok() <==> is_column(inputs@, old(self).layers[0] as nat),
            match result {
                Ok(output) => {
                    &&& unit.forward(
                        old(self).activation.kind,
                        old(self).parameters(),
                        inputs@,
                        final(self).record(),
                    )
                    &&& output@ == final(self).record().last()
                },
                Err(e) => e == MatrixError::ShapeMismatch && final(self).record() == old(self).record(),
            },
    {
        if inputs.rows != self.layers[0] || inputs.columns != 1 {
            return Err(MatrixError::ShapeMismatch);
        }
        let count = self.weights.len();
        let activation = self.activation;
        let ghost p = self.parameters();
        let mut record: Vec<Matrix> = Vec::new();
        record.push(inputs.clone());
        let mut current = inputs;
        let mut i: usize = 0;
        while i < count
            invariant
                self.wf(),
                *self == *old(self),
                p == self.parameters(),
                activation == self.activation,
                unit.total(),
                count == self.weights.len(),
                i <= count,
                record.len() == i + 1,
                record[0]@ == inputs@,
                current@ == record[i as int]@,
                forall|t: int| 0 <= t <= i ==> is_column((#[trigger] record[t])@, self.layers[t] as nat),
                forall|t: int|
                    0 <= t < i ==> unit.layer_output(
                        activation.kind,
                        #[trigger] p.weights[t],
                        p.biases[t],
                        record[t]@,
                        record[t + 1]@,
                    ),
            decreases count - i,
        {
            proof {
                assert(p.weights[i as int] == self.weights[i as int]@);
                assert(p.biases[i as int] == self.biases[i as int]@);
            }
            let next = output_of(activation, &self.weights[i], &self.biases[i], &current, unit)?;
            let ghost before = record@;
            record.push(next.clone());
            current = next;
            proof {
                assert forall|t: int| 0 <= t < i + 1 implies unit.layer_output(
                    activation.kind,
                    #[trigger] p.weights[t],
                    p.biases[t],
                    record[t]@,
                    record[t + 1]@,
                ) by {
                    if t < i {
                        assert(record[t] == before[t]);
                        assert(record[t + 1] == before[t + 1]);
                    }
                }
            }
            i += 1;
        }
        proof {
            let r = views(record@);
            assert(r[0] == inputs@);
            assert forall|t: int| 0 <= t < p.weights.len() implies unit.layer_output(
                activation.kind,
                #[trigger] p.weights[t],
                p.biases[t],
                r[t],
                r[t + 1],
            ) by {
                assert(r[t] == record[t]@);
                assert(r[t + 1] == record[t + 1]@);
            }
            assert forall|t: int| 0 <= t < r.len() implies is_column(#[trigger] r[t], self.layers[t] as nat) by {
                assert(r[t] == record[t]@);
            }
            assert(r.last() == current@);
        }
        self.data = record;
        Ok(current)
    }

    /// Moves the weights and biases towards `targets`, a column of as many
    /// cells as the last layer is wide, by the errors of the recorded
    /// forward pass. Without a recorded pass there is no output for the
    /// targets to fit, and the shapes are reported as mismatched.
    pub fn back_propogate<A, S, M, D, E, L>(
        &mut self,
        targets: &Matrix,
        unit: &Arithmetic<A, S, M, D, E, L>,
    ) -> (result: Result<(), MatrixError>) where
        A: Fn(u64, u64) -> u64,
        S: Fn(u64, u64) -> u64,
        M: Fn(u64, u64) -> u64,
        D: Fn(u64, u64) -> u64,
        E: Fn(u64) -> u64,
        L: Fn(u64) -> u64,

        requires
            old(self).wf(),
            targets.wf(),
            unit.total(),
        ensures
            final(self).wf(),
            final(self).layers@ == old(self).layers@,
            final(self).activation.kind == old(self).activation.kind,
            final(self).learning_rate == old(self).learning_rate,
            final(self).record() == old(self).record(),
            result.is_ok() <==> old(self).data.len() > 0 && is_column(targets@, old(self).layers@.last() as nat),
            match result {
                Ok(_) => unit.backward(
                    old(self).activation.kind,
                    old(self).learning_rate,
                    old(self).parameters(),
                    old(self).record(),
                    targets@,
                    final(self).parameters(),
                ),
                Err(e) => e == MatrixError::ShapeMismatch && final(self).parameters() == old(self).parameters(),
            },
    {
        let n = self.layers.len();
        if self.data.len() == 0 || targets.rows != self.layers[n - 1] || targets.columns != 1 {
            return Err(MatrixError::ShapeMismatch);
        }
        let count = n - 1;
        let activation = self.activation;
        let rate = self.learning_rate;
        let ghost p = self.parameters();
        let ghost record = self.record();
        proof {
            assert(record[count as int] == self.data[count as int]@);
        }
        let mut error = targets.subtract_matrices(&self.data[count], unit)?;
        let mut gradient = gradient_of(activation, &self.data[count], &error, unit)?;
        let ghost mut errors: Seq<MatrixView> = Seq::new(n as nat, |j: int| error@);
        let ghost mut gradients: Seq<MatrixView> = Seq::new(n as nat, |j: int| gradient@);
        let ghost mut now = p;
        let mut i: usize = count;
        while i > 0
            invariant
                unit.total(),
                old(self).wf(),
                self.layers@ == old(self).layers@,
                self.data@ == old(self).data@,
                self.activation == old(self).activation,
                self.learning_rate == old(self).learning_rate,
                activation == self.activation,
                rate == self.learning_rate,
                p == old(self).parameters(),
                record == old(self).record(),
                now == self.parameters(),
                parameters_fit(self.layers@, now),
                n == self.layers.len(),
                n == record.len(),
                count == n - 1,
                i <= count,
                errors.len() == n,
                gradients.len() == n,
                i >= 1 ==> error@ == errors[i as int] && gradient@ == gradients[i as int],
                i >= 1 ==> is_column(error@, self.layers[i as int] as nat) && is_column(
                    gradient@,
                    self.layers[i as int] as nat,
                ),
                unit.matrix_difference(targets@, record[n - 1], errors[n - 1]),
                forall|j: int|
                    i <= j < n && 1 <= j ==> unit.gradient(
                        activation.kind,
                        record[j],
                        errors[j],
                        #[trigger] gradients[j],
                    ),
                forall|j: int|
                    i <= j < n - 1 && 1 <= j ==> unit.error_propagated(
                        p.weights[j],
                        errors[j + 1],
                        #[trigger] errors[j],
                    ),
                forall|j: int|
                    i <= j < n - 1 ==> unit.parameters_updated(
                        rate,
                        p.weights[j],
                        p.biases[j],
                        record[j],
                        gradients[j + 1],
                        #[trigger] now.weights[j],
                        now.biases[j],
                    ),
                forall|j: int| 0 <= j < i ==> #[trigger] now.weights[j] == p.weights[j],
                forall|j: int| 0 <= j < i ==> #[trigger] now.biases[j] == p.biases[j],
            decreases i,
        {
            let layer = i - 1;
            proof {
                assert(now.weights[layer as int] == self.weights[layer as int]@);
                assert(now.biases[layer as int] == self.biases[layer as int]@);
                assert(record[layer as int] == self.data[layer as int]@);
                assert(is_column(record[layer as int], self.layers[layer as int] as nat));
            }
            let (w2, b2) = update_of(
                &self.weights[layer],
                &self.biases[layer],
                &self.data[layer],
                &gradient,
                rate,
                unit,
            )?;
            if layer > 0 {
                let e2 = propagate_error(&self.weights[layer], &error, unit)?;
                let g2 = gradient_of(activation, &self.data[layer], &e2, unit)?;
                proof {
                    errors = errors.update(layer as int, e2@);
                    gradients = gradients.update(layer as int, g2@);
                }
                error = e2;
                gradient = g2;
            }
            self.weights.set(layer, w2);
            self.biases.set(layer, b2);
            proof {
                let after = self.parameters();
                assert(after.weights =~= now.weights.update(layer as int, w2@));
                assert(after.biases =~= now.biases.update(layer as int, b2@));
                now = after;
            }
            i = layer;
        }
        proof {
            assert(unit.backward_trace(activation.kind, rate, p, record, targets@, now, errors, gradients));
        }
        Ok(())
    }

    /// Tells whether the examples fit the network, so that training on them
    /// runs through: as many targets as inputs, every input as long as the
    /// first layer is wide and every target as long as the last.
    pub fn fits(&self, inputs: &Vec<Vec<u64>>, targets: &Vec<Vec<u64>>) -> (r: bool)
        requires
            self.layers.len() >= 2,
        ensures
            r == examples_fit(self.layers@, inputs@, targets@),
    {
        if inputs.len() != targets.len() {
            return false;
        }
        let first = self.layers[0];
        let last = self.layers[self.layers.len() - 1];
        let mut j: usize = 0;
        while j < inputs.len()
            invariant
                self.layers.len() >= 2,
                inputs.len() == targets.len(),
                first == self.layers@[0],
                last == self.layers@.last(),
                j <= inputs.len(),
                forall|t: int| 0 <= t < j ==> example_fits(self.layers@, #[trigger] inputs[t], targets[t]),
            decreases inputs.len() - j,
        {
            if inputs[j].len() != first || targets[j].len() != last {
                assert(!example_fits(self.layers@, inputs[j as int], targets[j as int]));
                return false;
            }
            j += 1;
        }
        true
    }

    /// Trains on the examples, in their order, `epochs` times over: for
    /// each a forward pass on the input and a backward pass towards the
    /// target.
    ///
    /// Unequal numbers of inputs and targets are refused before anything is
    /// done. An example that does not fit the network stops the training
    /// when its turn comes, which is in the first pass: the examples before
    /// it have been trained on, and where its input fits and only its target
    /// does not, its forward pass has been recorded.
    pub fn train<A, S, M, D, E, L>(
        &mut self,
        inputs: &Vec<Vec<u64>>,
        targets: &Vec<Vec<u64>>,
        epochs: usize,
        unit: &Arithmetic<A, S, M, D, E, L>,
    ) -> (result: Result<(), MatrixError>) where
        A: Fn(u64, u64) -> u64,
        S: Fn(u64, u64) -> u64,
        M: Fn(u64, u64) -> u64,
        D: Fn(u64, u64) -> u64,
        E: Fn(u64) -> u64,
        L: Fn(u64) -> u64,

        requires
            old(self).wf(),
            unit.total(),
        ensures
            final(self).wf(),
            final(self).layers@ == old(self).layers@,
            final(self).activation.kind == old(self).activation.kind,
            final(self).learning_rate == old(self).learning_rate,
            result.is_ok() <==> inputs.len() == targets.len() && (epochs == 0 || examples_fit(
                old(self).layers@,
                inputs@,
                targets@,
            )),
            match result {
                Ok(_) => unit.training(
                    old(self).activation.kind,
                    old(self).learning_rate,
                    old(self).progress(),
                    columns_of(inputs@),
                    columns_of(targets@),
                    epochs as nat,
                    final(self).progress(),
                ),
                Err(e) => {
                    &&& e == MatrixError::ShapeMismatch
                    &&& if inputs.len() != targets.len() {
                        final(self).progress() == old(self).progress()
                    } else {
                        exists|j: int|
                            #![trigger first_misfit(old(self).layers@, inputs@, targets@, j)]
                            {
                                &&& first_misfit(old(self).layers@, inputs@, targets@, j)
                                &&& unit.stopped(
                                    old(self).activation.kind,
                                    old(self).learning_rate,
                                    old(self).progress(),
                                    columns_of(inputs@),
                                    columns_of(targets@),
                                    j as nat,
                                    inputs[j].len() == old(self).layers[0],
                                    final(self).progress(),
                                )
                            }
                    }
                },
            },
    {
        if inputs.len() != targets.len() {
            return Err(MatrixError::ShapeMismatch);
        }
        let count = inputs.len();
        let ghost kind = self.activation.kind;
        let ghost rate = self.learning_rate;
        let ghost p = self.progress();
        let ghost ins = columns_of(inputs@);
        let ghost outs = columns_of(targets@);
        let mut epoch: usize = 0;
        while epoch < epochs
            invariant
                unit.total(),
                self.wf(),
                self.layers@ == old(self).layers@,
                kind == self.activation.kind,
                rate == self.learning_rate,
                kind == old(self).activation.kind,
                rate == old(self).learning_rate,
                p == old(self).progress(),
                count == inputs.len(),
                count == targets.len(),
                ins == columns_of(inputs@),
                outs == columns_of(targets@),
                epoch <= epochs,
                epoch > 0 ==> examples_fit(self.layers@, inputs@, targets@),
                unit.training(kind, rate, p, ins, outs, epoch as nat, self.progress()),
            decreases epochs - epoch,
        {
            let ghost start = self.progress();
            let mut j: usize = 0;
            while j < count
                invariant
                    unit.total(),
                    self.wf(),
                    self.layers@ == old(self).layers@,
                    kind == self.activation.kind,
                    rate == self.learning_rate,
                    kind == old(self).activation.kind,
                    rate == old(self).learning_rate,
                    p == old(self).progress(),
                    count == inputs.len(),
                    count == targets.len(),
                    ins == columns_of(inputs@),
                    outs == columns_of(targets@),
                    epoch < epochs,
                    epoch > 0 ==> examples_fit(self.layers@, inputs@, targets@),
                    epoch == 0 ==> start == p,
                    j <= count,
                    forall|t: int| 0 <= t < j ==> example_fits(self.layers@, #[trigger] inputs[t], targets[t]),
                    unit.pass(kind, rate, start, ins, outs, j as nat, self.progress()),
                decreases count - j,
            {
                let ghost mid = self.progress();
                let input = Matrix::from_column(inputs[j].clone());
                let target = Matrix::from_column(targets[j].clone());
                proof {
                    assert(inputs[j as int]@ =~= input@.data);
                    assert(targets[j as int]@ =~= target@.data);
                    assert(input@ == ins[j as int]);
                    assert(target@ == outs[j as int]);
                }
                match self.feed_forward(input, unit) {
                    Ok(_) => {},
                    Err(e) => {
                        proof {
                            assert(!example_fits(self.layers@, inputs[j as int], targets[j as int]));
                            assert(first_misfit(self.layers@, inputs@, targets@, j as int));
                            assert(self.progress() == mid);
                            assert(unit.stopped(kind, rate, p, ins, outs, j as nat, false, self.progress()));
                        }
                        return Err(e);
                    },
                }
                match self.back_propogate(&target, unit) {
                    Ok(_) => {},
                    Err(e) => {
                        proof {
                            assert(self.record().len() == self.data.len());
                            assert(!example_fits(self.layers@, inputs[j as int], targets[j as int]));
                            assert(first_misfit(self.layers@, inputs@, targets@, j as int));
                            assert(unit.stopped(kind, rate, p, ins, outs, j as nat, true, self.progress()));
                        }
                        return Err(e);
                    },
                }
                proof {
                    assert(unit.example_step(kind, rate, mid, ins[j as int], outs[j as int], self.progress()));
                    unit.lemma_pass_extends(kind, rate, start, ins, outs, (j + 1) as nat, mid, self.progress());
                }
                j += 1;
            }
            proof {
                unit.lemma_training_extends(kind, rate, p, ins, outs, (epoch + 1) as nat, start, self.progress());
            }
            epoch += 1;
        }
        Ok(())
    }
}

} // verus!
