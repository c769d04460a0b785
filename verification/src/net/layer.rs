//! The steps of the forward and the backward pass that concern one layer.

use vstd::prelude::*;
use crate::lin_alg::arithmetic::Arithmetic;
use crate::lin_alg::error::MatrixError;
use crate::lin_alg::matrix::{Matrix, MatrixView};
use crate::net::activations::Activation;

verus! {

/// The shapes that an update of a layer needs: gradient and biases of one
/// shape, as many columns in the gradient as in the layer's input, and
/// weights with a row for each row of the gradient and a column for each
/// row of the input.
pub open spec fn update_fits(w: MatrixView, b: MatrixView, x: MatrixView, g: MatrixView) -> bool {
    &&& b.same_shape(g)
    &&& g.columns == x.columns
    &&& w.rows == g.rows
    &&& w.columns == x.rows
}

/// Applies the activation function to every cell.
pub fn activate<A, S, M, D, E, L>(activation: Activation, m: &Matrix, unit: &Arithmetic<A, S, M, D, E, L>) -> (r:
    Matrix) where
    A: Fn(u64, u64) -> u64,
    S: Fn(u64, u64) -> u64,
    M: Fn(u64, u64) -> u64,
    D: Fn(u64, u64) -> u64,
    E: Fn(u64) -> u64,
    L: Fn(u64) -> u64,

    requires
        m.wf(),
        unit.total(),
    ensures
        unit.activated_matrix(activation.kind, m@, r@),
{
    let f = |x: u64| -> (y: u64)
        requires
            unit.total(),
        ensures
            unit.activated(activation.kind, x, y),
        { activation.function(x, unit) };
    let r = m.map(f);
    proof {
        assert forall|t: int| 0 <= t < r@.data.len() implies unit.activated(
            activation.kind,
            m@.data[t],
            #[trigger] r@.data[t],
        ) by {
            assert(f.ensures((m@.data[t],), r@.data[t]));
        }
    }
    r
}

/// Applies the derivative of the activation function to every cell.
pub fn slopes<A, S, M, D, E, L>(activation: Activation, m: &Matrix, unit: &Arithmetic<A, S, M, D, E, L>) -> (r:
    Matrix) where
    A: Fn(u64, u64) -> u64,
    S: Fn(u64, u64) -> u64,
    M: Fn(u64, u64) -> u64,
    D: Fn(u64, u64) -> u64,
    E: Fn(u64) -> u64,
    L: Fn(u64) -> u64,

    requires
        m.wf(),
        unit.total(),
    ensures
        unit.slope_matrix(activation.kind, m@, r@),
{
    let f = |x: u64| -> (y: u64)
        requires
            unit.total(),
        ensures
            unit.slope(activation.kind, x, y),
        { activation.derivative(x, unit) };
    let r = m.map(f);
    proof {
        assert forall|t: int| 0 <= t < r@.data.len() implies unit.slope(
            activation.kind,
            m@.data[t],
            #[trigger] r@.data[t],
        ) by {
            assert(f.ensures((m@.data[t],), r@.data[t]));
        }
    }
    r
}

/// Multiplies every cell by `factor`.
pub fn scale<A, S, M, D, E, L>(m: &Matrix, factor: u64, unit: &Arithmetic<A, S, M, D, E, L>) -> (r: Matrix) where
    A: Fn(u64, u64) -> u64,
    S: Fn(u64, u64) -> u64,
    M: Fn(u64, u64) -> u64,
    D: Fn(u64, u64) -> u64,
    E: Fn(u64) -> u64,
    L: Fn(u64) -> u64,

    requires
        m.wf(),
        unit.total(),
    ensures
        unit.scaled(m@, factor, r@),
{
    let f = |x: u64| -> (y: u64)
        requires
            unit.total(),
        ensures
            unit.product(x, factor, y),
        { unit.times(x, factor) };
    let r = m.map(f);
    proof {
        assert forall|t: int| 0 <= t < r@.data.len() implies unit.product(
            m@.data[t],
            factor,
            #[trigger] r@.data[t],
        ) by {
            assert(f.ensures((m@.data[t],), r@.data[t]));
        }
    }
    r
}

/// The output of a layer with weights `w` and biases `b` on the input `x`:
/// the activation function applied to `w * x + b`.
pub fn output_of<A, S, M, D, E, L>(
    activation: Activation,
    w: &Matrix,
    b: &Matrix,
    x: &Matrix,
    unit: &Arithmetic<A, S, M, D, E, L>,
) -> (result: Result<Matrix, MatrixError>) where
    A: Fn(u64, u64) -> u64,
    S: Fn(u64, u64) -> u64,
    M: Fn(u64, u64) -> u64,
    D: Fn(u64, u64) -> u64,
    E: Fn(u64) -> u64,
    L: Fn(u64) -> u64,

    requires
        w.wf(),
        b.wf(),
        x.wf(),
        unit.total(),
    ensures
        result.is_ok() <==> w.columns == x.rows && b.rows == w.rows && b.columns == x.columns,
        match result {
            Ok(y) => unit.layer_output(activation.kind, w@, b@, x@, y@) && y@.same_shape(b@),
            Err(e) => e == MatrixError::ShapeMismatch,
        },
{
    let product = w.multiply_matrices(x, unit)?;
    let sum = product.add_matrices(b, unit)?;
    let y = activate(activation, &sum, unit);
    proof {
        assert(unit.matrix_product(w@, x@, product@));
        assert(unit.matrix_sum(product@, b@, sum@));
    }
    Ok(y)
}

/// The gradient at a layer: the derivative of the activation function at
/// the layer's output, times its error, cell by cell.
pub fn gradient_of<A, S, M, D, E, L>(
    activation: Activation,
    output: &Matrix,
    error: &Matrix,
    unit: &Arithmetic<A, S, M, D, E, L>,
) -> (result: Result<Matrix, MatrixError>) where
    A: Fn(u64, u64) -> u64,
    S: Fn(u64, u64) -> u64,
    M: Fn(u64, u64) -> u64,
    D: Fn(u64, u64) -> u64,
    E: Fn(u64) -> u64,
    L: Fn(u64) -> u64,

    requires
        output.wf(),
        error.wf(),
        unit.total(),
    ensures
        result.is_ok() <==> output@.same_shape(error@),
        match result {
            Ok(g) => unit.gradient(activation.kind, output@, error@, g@) && g@.same_shape(error@),
            Err(e) => e == MatrixError::ShapeMismatch,
        },
{
    let d = slopes(activation, output, unit);
    let g = d.elementwise_multiplication(error, unit)?;
    proof {
        assert(unit.hadamard(d@, error@, g@));
    }
    Ok(g)
}

/// The weights and biases of a layer after one update with the gradient
/// `g`, the layer's input having been `x`: with the gradient scaled by the
/// learning rate, the biases plus it, and the weights plus it times the
/// transposed input.
pub fn update_of<A, S, M, D, E, L>(
    w: &Matrix,
    b: &Matrix,
    x: &Matrix,
    g: &Matrix,
    rate: u64,
    unit: &Arithmetic<A, S, M, D, E, L>,
) -> (result: Result<(Matrix, Matrix), MatrixError>) where
    A: Fn(u64, u64) -> u64,
    S: Fn(u64, u64) -> u64,
    M: Fn(u64, u64) -> u64,
    D: Fn(u64, u64) -> u64,
    E: Fn(u64) -> u64,
    L: Fn(u64) -> u64,

    requires
        w.wf(),
        b.wf(),
        x.wf(),
        g.wf(),
        unit.total(),
    ensures
        result.is_ok() <==> update_fits(w@, b@, x@, g@),
        match result {
            Ok((w2, b2)) => {
                &&& unit.parameters_updated(rate, w@, b@, x@, g@, w2@, b2@)
                &&& w2@.wf()
                &&& w2@.same_shape(w@)
                &&& b2@.wf()
                &&& b2@.same_shape(b@)
            },
            Err(e) => e == MatrixError::ShapeMismatch,
        },
{
    let step = scale(g, rate, unit);
    let b2 = b.add_matrices(&step, unit)?;
    let xt = x.transpose();
    let delta = step.multiply_matrices(&xt, unit)?;
    let w2 = w.add_matrices(&delta, unit)?;
    proof {
        assert(unit.scaled(g@, rate, step@));
        assert(unit.matrix_sum(b@, step@, b2@));
        assert(xt@.is_transpose_of(x@));
        assert(unit.matrix_product(step@, xt@, delta@));
        assert(unit.matrix_sum(w@, delta@, w2@));
    }
    Ok((w2, b2))
}

/// The error `e` at the output of a layer taken back to its input: the
/// transposed weights times `e`.
pub fn propagate_error<A, S, M, D, E, L>(w: &Matrix, e: &Matrix, unit: &Arithmetic<A, S, M, D, E, L>) -> (result:
    Result<Matrix, MatrixError>) where
    A: Fn(u64, u64) -> u64,
    S: Fn(u64, u64) -> u64,
    M: Fn(u64, u64) -> u64,
    D: Fn(u64, u64) -> u64,
    E: Fn(u64) -> u64,
    L: Fn(u64) -> u64,

    requires
        w.wf(),
        e.wf(),
        unit.total(),
    ensures
        result.is_ok() <==> w.rows == e.rows,
        match result {
            Ok(e2) => unit.error_propagated(w@, e@, e2@) && e2@.wf() && e2@.rows == w@.columns && e2@.columns
                == e@.columns,
            Err(err) => err == MatrixError::ShapeMismatch,
        },
{
    let wt = w.transpose();
    let e2 = wt.multiply_matrices(e, unit)?;
    proof {
        assert(wt@.is_transpose_of(w@));
        assert(unit.matrix_product(wt@, e@, e2@));
    }
    Ok(e2)
}

} // verus!
