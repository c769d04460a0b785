use matrix_net::lin_alg::arithmetic::Arithmetic;
use matrix_net::lin_alg::error::MatrixError;
use matrix_net::lin_alg::matrix::Matrix;
use matrix_net::net::activations::{Activation, ActivationType};
use matrix_net::net::layer::{activate, gradient_of, output_of, propagate_error, scale, slopes, update_of};
use matrix_net::net::nn::NeuralNet;

fn b(x: f64) -> u64 {
    x.to_bits()
}

fn f(x: u64) -> f64 {
    f64::from_bits(x)
}

fn unit() -> Arithmetic<
    impl Fn(u64, u64) -> u64,
    impl Fn(u64, u64) -> u64,
    impl Fn(u64, u64) -> u64,
    impl Fn(u64, u64) -> u64,
    impl Fn(u64) -> u64,
    impl Fn(u64) -> u64,
> {
    Arithmetic::new(
        |x, y| b(f(x) + f(y)),
        |x, y| b(f(x) - f(y)),
        |x, y| b(f(x) * f(y)),
        |x, y| b(f(x) / f(y)),
        |x| b(f(x).exp()),
        |x| b(f(x).ln()),
    )
}

fn matrix(rows: &[&[f64]]) -> Matrix {
    let rows: Vec<Vec<u64>> = rows.iter().map(|r| r.iter().map(|x| b(*x)).collect()).collect();
    Matrix::from_rows(&rows).unwrap()
}

fn column(cells: &[f64]) -> Matrix {
    Matrix::from_column(cells.iter().map(|x| b(*x)).collect())
}

fn cells(m: &Matrix) -> Vec<f64> {
    m.data.iter().map(|x| f(*x)).collect()
}

fn patterns(rows: &[&[f64]]) -> Vec<Vec<u64>> {
    rows.iter().map(|r| r.iter().map(|x| b(*x)).collect()).collect()
}

fn close(x: f64, y: f64) -> bool {
    (x - y).abs() < 1e-12
}

fn sigmoid(x: f64) -> f64 {
    1.0 / (1.0 + (-x).exp())
}

fn sigmoid_slope(x: f64) -> f64 {
    (-x).exp() / ((1.0 + (-x).exp()) * (1.0 + (-x).exp()))
}

fn small_net(kind: ActivationType, rate: f64) -> NeuralNet {
    NeuralNet::with_parameters(
        vec![3, 2, 1],
        vec![matrix(&[&[0.1, 0.2, 0.3], &[0.4, 0.5, 0.6]]), matrix(&[&[0.7, 0.8]])],
        vec![column(&[0.15, 0.25]), column(&[0.35])],
        kind.get_function(),
        b(rate),
    )
    .unwrap()
}

#[test]
fn the_activation_functions_at_given_points() {
    let u = unit();
    let sig = ActivationType::Sigmoid.get_function();
    assert_eq!(f(sig.function(b(0.), &u)), 0.5);
    assert_eq!(f(sig.derivative(b(0.), &u)), 0.25);
    assert!(close(f(sig.function(b(2.), &u)), sigmoid(2.)));
    assert!(close(f(sig.derivative(b(2.), &u)), sigmoid(2.) * (1. - sigmoid(2.))));
    let relu = ActivationType::ReLU.get_function();
    assert_eq!(f(relu.function(b(3.5), &u)), 3.5);
    assert_eq!(f(relu.function(b(-3.5), &u)), 0.0);
    assert_eq!(f(relu.function(b(0.), &u)), 0.0);
    assert_eq!(f(relu.derivative(b(3.5), &u)), 1.0);
    assert_eq!(f(relu.derivative(b(0.5), &u)), 1.0);
    assert_eq!(f(relu.derivative(b(-3.5), &u)), 0.0);
    assert_eq!(f(relu.derivative(b(0.), &u)), 0.0);
    let tanh = ActivationType::Tanh.get_function();
    assert_eq!(f(tanh.function(b(0.), &u)), 0.0);
    assert_eq!(f(tanh.derivative(b(0.), &u)), 1.0);
    assert!(close(f(tanh.function(b(0.75), &u)), 0.75f64.tanh()));
    assert!(close(f(tanh.derivative(b(0.75), &u)), 1. - 0.75f64.tanh() * 0.75f64.tanh()));
    let soft = ActivationType::Softplus.get_function();
    assert_eq!(f(soft.function(b(0.), &u)), 2f64.ln());
    assert_eq!(f(soft.derivative(b(0.), &u)), 0.5);
    assert!(close(f(soft.derivative(b(1.5), &u)), sigmoid(1.5)));
}

#[test]
fn get_function_keeps_the_kind() {
    assert_eq!(ActivationType::Sigmoid.get_function().kind, ActivationType::Sigmoid);
    assert_eq!(ActivationType::ReLU.get_function().kind, ActivationType::ReLU);
    assert_eq!(ActivationType::Tanh.get_function().kind, ActivationType::Tanh);
    assert_eq!(ActivationType::Softplus.get_function().kind, ActivationType::Softplus);
}

#[test]
fn a_network_needs_two_layers_and_a_positive_rate() {
    let u = unit();
    let act: Activation = ActivationType::Sigmoid.get_function();
    assert_eq!(NeuralNet::new(vec![], act, b(0.1), &u).unwrap_err(), MatrixError::InvalidConfiguration);
    assert_eq!(NeuralNet::new(vec![3], act, b(0.1), &u).unwrap_err(), MatrixError::InvalidConfiguration);
    assert_eq!(NeuralNet::new(vec![3, 2], act, b(0.), &u).unwrap_err(), MatrixError::InvalidConfiguration);
    assert_eq!(NeuralNet::new(vec![3, 2], act, b(-0.1), &u).unwrap_err(), MatrixError::InvalidConfiguration);
    assert_eq!(
        NeuralNet::new(vec![3, 2], act, b(f64::NAN), &u).unwrap_err(),
        MatrixError::InvalidConfiguration
    );
    let net = NeuralNet::new(vec![3, 2, 1], act, b(0.1), &u).unwrap();
    assert_eq!(net.layers, vec![3, 2, 1]);
    assert_eq!(net.weights.len(), 2);
    assert_eq!(net.biases.len(), 2);
    assert_eq!((net.weights[0].rows, net.weights[0].columns), (2, 3));
    assert_eq!((net.weights[1].rows, net.weights[1].columns), (1, 2));
    assert_eq!((net.biases[0].rows, net.biases[0].columns), (2, 1));
    assert_eq!((net.biases[1].rows, net.biases[1].columns), (1, 1));
    assert!(!net.has_record());
    assert_eq!(f(net.learning_rate), 0.1);
    for m in net.weights.iter().chain(net.biases.iter()) {
        assert!(cells(m).iter().all(|x| 0.0 <= *x && *x < 1.0));
    }
}

#[test]
fn given_parameters_must_fit_the_layers() {
    let act = ActivationType::ReLU.get_function();
    let w = || vec![matrix(&[&[1., 2.]])];
    let bias = || vec![column(&[1.])];
    assert!(NeuralNet::with_parameters(vec![2, 1], w(), bias(), act, b(0.5)).is_ok());
    assert_eq!(
        NeuralNet::with_parameters(vec![2], w(), bias(), act, b(0.5)).unwrap_err(),
        MatrixError::InvalidConfiguration
    );
    assert_eq!(
        NeuralNet::with_parameters(vec![2, 1], w(), bias(), act, b(-0.5)).unwrap_err(),
        MatrixError::InvalidConfiguration
    );
    assert_eq!(
        NeuralNet::with_parameters(vec![1, 2], w(), bias(), act, b(0.5)).unwrap_err(),
        MatrixError::ShapeMismatch
    );
    assert_eq!(
        NeuralNet::with_parameters(vec![2, 1], w(), vec![], act, b(0.5)).unwrap_err(),
        MatrixError::ShapeMismatch
    );
    assert_eq!(
        NeuralNet::with_parameters(vec![2, 1], w(), vec![matrix(&[&[1., 2.]])], act, b(0.5)).unwrap_err(),
        MatrixError::ShapeMismatch
    );
    assert_eq!(
        NeuralNet::with_parameters(vec![2, 1, 1], w(), bias(), act, b(0.5)).unwrap_err(),
        MatrixError::ShapeMismatch
    );
}

#[test]
fn feed_forward_refuses_an_input_of_the_wrong_length() {
    let u = unit();
    let mut net = NeuralNet::new(vec![3, 2], ActivationType::Sigmoid.get_function(), b(0.1), &u).unwrap();
    assert_eq!(net.feed_forward(column(&[1., 2.]), &u).unwrap_err(), MatrixError::ShapeMismatch);
    assert!(!net.has_record());
    assert_eq!(net.feed_forward(matrix(&[&[1., 2., 3.]]), &u).unwrap_err(), MatrixError::ShapeMismatch);
    assert_eq!(net.feed_forward(column(&[1., 2., 3., 4.]), &u).unwrap_err(), MatrixError::ShapeMismatch);
    let out = net.feed_forward(column(&[1., 2., 3.]), &u).unwrap();
    assert_eq!((out.rows, out.columns), (2, 1));
    assert!(net.has_record());
}

#[test]
fn feed_forward_applies_each_layer_in_turn() {
    let u = unit();
    let mut net = small_net(ActivationType::Sigmoid, 0.1);
    let out = net.feed_forward(column(&[1., 2., 3.]), &u).unwrap();
    let h0 = sigmoid(0.1 * 1. + 0.2 * 2. + 0.3 * 3. + 0.15);
    let h1 = sigmoid(0.4 * 1. + 0.5 * 2. + 0.6 * 3. + 0.25);
    let y = sigmoid(0.7 * h0 + 0.8 * h1 + 0.35);
    assert_eq!((out.rows, out.columns), (1, 1));
    assert!(close(f(out.data[0]), y));
    assert_eq!(net.data.len(), 3);
    assert_eq!(cells(&net.data[0]), vec![1., 2., 3.]);
    assert!(close(f(net.data[1].data[0]), h0));
    assert!(close(f(net.data[1].data[1]), h1));
    assert_eq!(net.data[2].data, out.data);
    let again = net.feed_forward(column(&[0., 0., 0.]), &u).unwrap();
    assert_eq!(net.data.len(), 3);
    assert_eq!(cells(&net.data[0]), vec![0., 0., 0.]);
    assert_eq!(net.data[2].data, again.data);
}

#[test]
fn feed_forward_with_the_rectifier() {
    let u = unit();
    let mut net = NeuralNet::with_parameters(
        vec![2, 2],
        vec![matrix(&[&[1., -1.], &[-2., 0.5]])],
        vec![column(&[0.5, -1.])],
        ActivationType::ReLU.get_function(),
        b(0.5),
    )
    .unwrap();
    let out = net.feed_forward(column(&[2., 1.]), &u).unwrap();
    assert_eq!(cells(&out), vec![1.5, 0.0]);
}

#[test]
fn back_propagation_needs_a_forward_pass_and_a_fitting_target() {
    let u = unit();
    let mut net = small_net(ActivationType::Sigmoid, 0.1);
    let w0 = net.weights[0].data.clone();
    assert_eq!(net.back_propogate(&column(&[1.]), &u), Err(MatrixError::ShapeMismatch));
    net.feed_forward(column(&[1., 2., 3.]), &u).unwrap();
    assert_eq!(net.back_propogate(&column(&[1., 2.]), &u), Err(MatrixError::ShapeMismatch));
    assert_eq!(net.back_propogate(&matrix(&[&[1., 2.]]), &u), Err(MatrixError::ShapeMismatch));
    assert_eq!(net.weights[0].data, w0);
    assert_eq!(net.back_propogate(&column(&[1.]), &u), Ok(()));
    assert!(net.weights[0].data != w0);
}

#[test]
fn back_propagation_follows_the_update_rule() {
    let u = unit();
    let mut net = small_net(ActivationType::Sigmoid, 0.1);
    let x = [1., 2., 3.];
    let out = net.feed_forward(column(&x), &u).unwrap();
    let h = cells(&net.data[1]);
    let y = f(out.data[0]);
    net.back_propogate(&column(&[1.]), &u).unwrap();

    let e2 = 1. - y;
    let g2 = sigmoid_slope(y) * e2;
    let step2 = g2 * 0.1;
    assert!(close(f(net.biases[1].data[0]), 0.35 + step2));
    assert!(close(f(net.weights[1].data[0]), 0.7 + step2 * h[0]));
    assert!(close(f(net.weights[1].data[1]), 0.8 + step2 * h[1]));

    let e1 = [0.7 * e2, 0.8 * e2];
    let w0 = [[0.1, 0.2, 0.3], [0.4, 0.5, 0.6]];
    let b0 = [0.15, 0.25];
    for r in 0..2 {
        let step = sigmoid_slope(h[r]) * e1[r] * 0.1;
        assert!(close(f(net.biases[0].data[r]), b0[r] + step));
        for c in 0..3 {
            assert!(close(f(net.weights[0].data[r * 3 + c]), w0[r][c] + step * x[c]));
        }
    }
    assert_eq!(cells(&net.data[0]), vec![1., 2., 3.]);
    assert_eq!(net.data[2].data, out.data);
}

#[test]
fn the_steps_of_a_layer() {
    let u = unit();
    let act = ActivationType::ReLU.get_function();
    let w = matrix(&[&[1., -1.], &[-2., 0.5]]);
    let bias = column(&[0.5, -1.]);
    let x = column(&[2., 1.]);
    assert_eq!(cells(&activate(act, &column(&[-1., 2.]), &u)), vec![0., 2.]);
    assert_eq!(cells(&slopes(act, &column(&[-1., 2.]), &u)), vec![0., 1.]);
    assert_eq!(cells(&scale(&column(&[-1., 2.]), b(0.5), &u)), vec![-0.5, 1.]);
    assert_eq!(cells(&output_of(act, &w, &bias, &x, &u).unwrap()), vec![1.5, 0.]);
    assert_eq!(output_of(act, &w, &x, &x.transpose(), &u).unwrap_err(), MatrixError::ShapeMismatch);
    assert_eq!(output_of(act, &w, &bias, &column(&[1.]), &u).unwrap_err(), MatrixError::ShapeMismatch);
    let e = column(&[3., 4.]);
    assert_eq!(cells(&gradient_of(act, &column(&[1.5, 0.]), &e, &u).unwrap()), vec![3., 0.]);
    assert_eq!(gradient_of(act, &column(&[1.5]), &e, &u).unwrap_err(), MatrixError::ShapeMismatch);
    assert_eq!(cells(&propagate_error(&w, &e, &u).unwrap()), vec![-5., -1.]);
    assert_eq!(propagate_error(&w, &column(&[1.]), &u).unwrap_err(), MatrixError::ShapeMismatch);
    let (w2, b2) = update_of(&w, &bias, &x, &column(&[3., 0.]), b(0.5), &u).unwrap();
    assert_eq!(cells(&w2), vec![4., 0.5, -2., 0.5]);
    assert_eq!(cells(&b2), vec![2., -1.]);
    assert_eq!(update_of(&w, &bias, &x, &column(&[3.]), b(0.5), &u).unwrap_err(), MatrixError::ShapeMismatch);
    assert_eq!(
        update_of(&w, &bias, &column(&[1.]), &column(&[3., 0.]), b(0.5), &u).unwrap_err(),
        MatrixError::ShapeMismatch
    );
}

#[test]
fn train_refuses_unequal_numbers_of_inputs_and_targets() {
    let u = unit();
    let mut net = small_net(ActivationType::Sigmoid, 0.1);
    let w0 = net.weights[0].data.clone();
    let b1 = net.biases[1].data.clone();
    let ins = patterns(&[&[0., 0., 0.], &[1., 1., 1.]]);
    assert_eq!(net.train(&ins, &patterns(&[&[0.]]), 3, &u), Err(MatrixError::ShapeMismatch));
    assert_eq!(net.train(&ins, &patterns(&[&[0.]]), 0, &u), Err(MatrixError::ShapeMismatch));
    assert_eq!(net.train(&vec![], &patterns(&[&[0.]]), 1, &u), Err(MatrixError::ShapeMismatch));
    assert_eq!(net.weights[0].data, w0);
    assert_eq!(net.biases[1].data, b1);
    assert!(!net.has_record());
    assert!(net.fits(&ins, &patterns(&[&[0.], &[1.]])));
    assert!(!net.fits(&ins, &patterns(&[&[0.]])));
    assert!(!net.fits(&ins, &patterns(&[&[0.], &[1., 1.]])));
    assert!(!net.fits(&patterns(&[&[0., 0., 0.], &[1., 1.]]), &patterns(&[&[0.], &[1.]])));
}

#[test]
fn train_without_a_pass_succeeds_whatever_the_widths() {
    let u = unit();
    let mut net = small_net(ActivationType::Sigmoid, 0.1);
    let w0 = net.weights[0].data.clone();
    let w1 = net.weights[1].data.clone();
    let b0 = net.biases[0].data.clone();
    let b1 = net.biases[1].data.clone();
    let outs = patterns(&[&[0.], &[1.]]);
    assert_eq!(net.train(&patterns(&[&[0., 0., 0.], &[1., 1.]]), &outs, 0, &u), Ok(()));
    assert_eq!(net.train(&patterns(&[&[0., 0., 0.], &[1., 1., 1.]]), &patterns(&[&[0.], &[1., 1.]]), 0, &u), Ok(()));
    assert_eq!(net.train(&patterns(&[&[0., 0., 0.], &[1., 1., 1.]]), &outs, 0, &u), Ok(()));
    assert_eq!(net.weights[0].data, w0);
    assert_eq!(net.weights[1].data, w1);
    assert_eq!(net.biases[0].data, b0);
    assert_eq!(net.biases[1].data, b1);
    assert!(!net.has_record());
}

#[test]
fn train_stops_at_the_first_example_that_does_not_fit() {
    let u = unit();
    let outs = patterns(&[&[0.], &[1.]]);
    let mut stepped = small_net(ActivationType::Sigmoid, 0.1);
    stepped.feed_forward(column(&[0., 0., 0.]), &u).unwrap();
    stepped.back_propogate(&column(&[0.]), &u).unwrap();

    let mut short_input = small_net(ActivationType::Sigmoid, 0.1);
    assert_eq!(
        short_input.train(&patterns(&[&[0., 0., 0.], &[1., 1.]]), &outs, 3, &u),
        Err(MatrixError::ShapeMismatch)
    );
    for i in 0..2 {
        assert_eq!(short_input.weights[i].data, stepped.weights[i].data);
        assert_eq!(short_input.biases[i].data, stepped.biases[i].data);
    }
    assert_eq!(short_input.data.len(), 3);
    for i in 0..3 {
        assert_eq!(short_input.data[i].data, stepped.data[i].data);
    }

    let mut long_target = small_net(ActivationType::Sigmoid, 0.1);
    assert_eq!(
        long_target.train(&patterns(&[&[0., 0., 0.], &[1., 1., 1.]]), &patterns(&[&[0.], &[1., 1.]]), 3, &u),
        Err(MatrixError::ShapeMismatch)
    );
    for i in 0..2 {
        assert_eq!(long_target.weights[i].data, stepped.weights[i].data);
        assert_eq!(long_target.biases[i].data, stepped.biases[i].data);
    }
    let seen = stepped.feed_forward(column(&[1., 1., 1.]), &u).unwrap();
    assert_eq!(cells(&long_target.data[0]), vec![1., 1., 1.]);
    assert_eq!(long_target.data[2].data, seen.data);

    let mut first = small_net(ActivationType::Sigmoid, 0.1);
    assert_eq!(
        first.train(&patterns(&[&[0., 0.], &[1., 1., 1.]]), &outs, 1, &u),
        Err(MatrixError::ShapeMismatch)
    );
    assert_eq!(first.weights[0].data, small_net(ActivationType::Sigmoid, 0.1).weights[0].data);
    assert_eq!(first.biases[1].data, small_net(ActivationType::Sigmoid, 0.1).biases[1].data);
    assert!(!first.has_record());
}

#[test]
fn train_is_a_forward_and_a_backward_pass_for_each_example() {
    let u = unit();
    let ins = patterns(&[&[0., 0., 0.], &[1., 1., 1.]]);
    let outs = patterns(&[&[0.], &[1.]]);
    let mut trained = small_net(ActivationType::Tanh, 0.1);
    assert_eq!(trained.train(&ins, &outs, 2, &u), Ok(()));
    let mut stepped = small_net(ActivationType::Tanh, 0.1);
    for _ in 0..2 {
        for k in 0..2 {
            stepped.feed_forward(Matrix::from_column(ins[k].clone()), &u).unwrap();
            stepped.back_propogate(&Matrix::from_column(outs[k].clone()), &u).unwrap();
        }
    }
    for i in 0..2 {
        assert_eq!(trained.weights[i].data, stepped.weights[i].data);
        assert_eq!(trained.biases[i].data, stepped.biases[i].data);
    }
    let mut idle = small_net(ActivationType::Tanh, 0.1);
    assert_eq!(idle.train(&ins, &outs, 0, &u), Ok(()));
    assert_eq!(idle.weights[0].data, small_net(ActivationType::Tanh, 0.1).weights[0].data);
    assert_eq!(idle.train(&vec![], &vec![], 5, &u), Ok(()));
    assert_eq!(idle.weights[0].data, small_net(ActivationType::Tanh, 0.1).weights[0].data);
}

#[test]
fn training_brings_the_outputs_closer_to_the_targets() {
    let u = unit();
    let ins = patterns(&[&[0., 0., 0.], &[1., 1., 1.]]);
    let outs = patterns(&[&[0.], &[1.]]);
    let mut net = small_net(ActivationType::Sigmoid, 0.1);
    let mut before = Vec::new();
    for k in 0..2 {
        let y = f(net.feed_forward(Matrix::from_column(ins[k].clone()), &u).unwrap().data[0]);
        before.push((f(outs[k][0]) - y).abs());
    }
    assert_eq!(net.train(&ins, &outs, 1000, &u), Ok(()));
    for k in 0..2 {
        let y = f(net.feed_forward(Matrix::from_column(ins[k].clone()), &u).unwrap().data[0]);
        assert!((f(outs[k][0]) - y).abs() < before[k]);
    }
}

#[test]
fn training_a_random_network_lowers_its_error() {
    let u = unit();
    let ins = patterns(&[&[0., 0., 0.], &[1., 1., 1.]]);
    let outs = patterns(&[&[0.], &[1.]]);
    let mut net = NeuralNet::new(vec![3, 2, 1], ActivationType::Sigmoid.get_function(), b(0.1), &u).unwrap();
    let mut before = 0.0;
    for k in 0..2 {
        let y = f(net.feed_forward(Matrix::from_column(ins[k].clone()), &u).unwrap().data[0]);
        before += (f(outs[k][0]) - y).abs();
    }
    assert_eq!(net.train(&ins, &outs, 1000, &u), Ok(()));
    let mut after = 0.0;
    for k in 0..2 {
        let y = f(net.feed_forward(Matrix::from_column(ins[k].clone()), &u).unwrap().data[0]);
        after += (f(outs[k][0]) - y).abs();
    }
    assert!(after < before);
}

#[test]
fn a_network_is_sound_when_its_parts_fit_its_layers() {
    let u = unit();
    let mut net = small_net(ActivationType::Sigmoid, 0.1);
    assert!(net.is_wf());
    net.feed_forward(column(&[1., 2., 3.]), &u).unwrap();
    assert!(net.is_wf());
    net.data.pop();
    assert!(!net.is_wf());
    net.data.clear();
    assert!(net.is_wf());
    net.learning_rate = b(0.);
    assert!(!net.is_wf());
    net.learning_rate = b(0.1);
    net.biases[1] = column(&[1., 2.]);
    assert!(!net.is_wf());
    net.biases[1] = column(&[1.]);
    net.weights[0] = matrix(&[&[1., 2.], &[3., 4.]]);
    assert!(!net.is_wf());
    net.weights.pop();
    assert!(!net.is_wf());
    net.layers = vec![3];
    assert!(!net.is_wf());
}
