use matrix_net::lin_alg::arithmetic::Arithmetic;
use matrix_net::lin_alg::error::MatrixError;
use matrix_net::lin_alg::matrix::Matrix;

fn b(x: f64) -> u64 {
    x.to_bits()
}

fn f(x: u64) -> f64 {
    f64::from_bits(x)
}

fn unit() -> Arithmetic<
    impl Fn(u64, u64) -> u64,
    impl Fn(u64, u64) -> u64,
    impl Fn(u64, u64) -> u64,
    impl Fn(u64, u64) -> u64,
    impl Fn(u64) -> u64,
    impl Fn(u64) -> u64,
> {
    Arithmetic::new(
        |x, y| b(f(x) + f(y)),
        |x, y| b(f(x) - f(y)),
        |x, y| b(f(x) * f(y)),
        |x, y| b(f(x) / f(y)),
        |x| b(f(x).exp()),
        |x| b(f(x).ln()),
    )
}

fn matrix(rows: &[&[f64]]) -> Matrix {
    let rows: Vec<Vec<u64>> = rows.iter().map(|r| r.iter().map(|x| b(*x)).collect()).collect();
    Matrix::from_rows(&rows).unwrap()
}

fn cells(m: &Matrix) -> Vec<f64> {
    m.data.iter().map(|x| f(*x)).collect()
}

#[test]
fn test_determinant_by_guassian() {
    let mut m = matrix(&[&[1., 2.], &[3., 4.]]);
    let d = f(m.determinant_by_guassian_elimination(&unit()).unwrap());
    println!("{}", d);
    assert!((d - 2.0).abs() < 1e-9);
    assert_eq!((m.rows, m.columns), (2, 2));
}

#[test]
fn test_guassian_elimination() {
    let mut m = matrix(&[&[1., 2.], &[3., 4.]]);
    m.forward_guassian_elimination(&unit());
    let got = cells(&m);
    println!("{:?}", got);
    assert_eq!(got[0], 3.0);
    assert_eq!(got[1], 4.0);
    assert_eq!(got[2], 0.0);
    assert_eq!(got[3], 2.0 - 4.0 * (1.0 / 3.0));
}

#[test]
fn the_determinant_is_the_product_of_the_diagonal() {
    let mut m = matrix(&[&[2., 0., 0.], &[0., 3., 0.], &[0., 0., 4.]]);
    assert_eq!(f(m.determinant_by_guassian_elimination(&unit()).unwrap()), 24.0);
    let mut m = matrix(&[&[2., 1.], &[0., 3.]]);
    assert_eq!(f(m.determinant_by_guassian_elimination(&unit()).unwrap()), 6.0);
    let mut m = matrix(&[&[-5.]]);
    assert_eq!(f(m.determinant_by_guassian_elimination(&unit()).unwrap()), -5.0);
    let mut m = Matrix::new(0, 0);
    assert_eq!(f(m.determinant_by_guassian_elimination(&unit()).unwrap()), 1.0);
}

#[test]
fn the_determinant_of_a_matrix_with_a_zero_row_is_zero() {
    let mut m = matrix(&[&[1., 2.], &[0., 0.]]);
    assert_eq!(f(m.determinant_by_guassian_elimination(&unit()).unwrap()), 0.0);
    let mut m = matrix(&[&[0., 0.], &[3., 4.]]);
    assert_eq!(f(m.determinant_by_guassian_elimination(&unit()).unwrap()), 0.0);
    let mut m = matrix(&[&[1., 2., 3.], &[0., 0., 0.], &[7., 8., 10.]]);
    assert_eq!(f(m.determinant_by_guassian_elimination(&unit()).unwrap()), 0.0);
    let mut m = matrix(&[&[0., 0.], &[1e-13, 1.]]);
    assert_eq!(f(m.determinant_by_guassian_elimination(&unit()).unwrap()), 0.0);
}

#[test]
fn the_determinant_needs_a_square_matrix() {
    let mut m = matrix(&[&[1., 2., 3.], &[4., 5., 6.]]);
    let before = m.data.clone();
    assert_eq!(m.determinant_by_guassian_elimination(&unit()), Err(MatrixError::ShapeMismatch));
    assert_eq!(m.data, before);
    let mut m = Matrix::new(0, 2);
    assert_eq!(m.determinant_by_guassian_elimination(&unit()), Err(MatrixError::ShapeMismatch));
}

#[test]
fn the_pivot_is_the_first_of_the_largest() {
    let m = matrix(&[&[1., 9.], &[-4., 2.], &[4., -9.], &[3., 9.]]);
    assert_eq!(m.pivot_row(0, 0), 1);
    assert_eq!(m.pivot_row(2, 0), 2);
    assert_eq!(m.pivot_row(0, 1), 0);
    assert_eq!(m.pivot_row(1, 1), 2);
    assert_eq!(m.pivot_row(3, 1), 3);
    let n = matrix(&[&[f64::INFINITY], &[f64::NAN], &[1.]]);
    assert_eq!(n.pivot_row(0, 0), 1);
}

#[test]
fn elimination_clears_below_the_pivots() {
    let mut m = matrix(&[&[2., 1., -1.], &[-3., -1., 2.], &[-2., 1., 2.]]);
    m.forward_guassian_elimination(&unit());
    let got = cells(&m);
    assert_eq!((m.rows, m.columns), (3, 3));
    assert_eq!(&got[0..3], &[-3., -1., 2.]);
    assert_eq!(got[3], 0.0);
    assert_eq!(got[6], 0.0);
    assert_eq!(got[7], 0.0);
    assert!((got[4] - 5. / 3.).abs() < 1e-12);
    assert!((got[5] - 2. / 3.).abs() < 1e-12);
    assert!((got[8] - 0.2).abs() < 1e-12);
}

#[test]
fn a_column_without_a_pivot_is_skipped() {
    let mut m = matrix(&[&[1e-13, 2., 3.], &[-1e-13, 4., 5.]]);
    m.forward_guassian_elimination(&unit());
    let got = cells(&m);
    assert_eq!(got, vec![-1e-13, 4., 5., 1e-13, 0., 3. - 5. * (2. / 4.)]);
    let mut z = Matrix::new(3, 2);
    z.forward_guassian_elimination(&unit());
    assert_eq!(z.data, vec![0u64; 6]);
    let mut e = Matrix::new(0, 0);
    e.forward_guassian_elimination(&unit());
    assert_eq!(e.data.len(), 0);
}

#[test]
fn a_wide_and_a_tall_matrix_are_eliminated_to_their_end() {
    let mut wide = matrix(&[&[1., 2., 3.], &[2., 4., 7.]]);
    wide.forward_guassian_elimination(&unit());
    assert_eq!(cells(&wide), vec![2., 4., 7., 0., 0., -0.5]);
    let mut tall = matrix(&[&[1., 1.], &[2., 1.], &[4., 1.]]);
    tall.forward_guassian_elimination(&unit());
    assert_eq!(cells(&tall), vec![4., 1., 0., 0.75, 0., 0.]);
}

#[test]
fn a_row_is_reduced_against_the_pivot_row() {
    let mut m = matrix(&[&[2., 4., 6.], &[1., 5., 9.], &[3., 3., 3.]]);
    m.reduce_row(0, 0, 1, &unit());
    assert_eq!(cells(&m), vec![2., 4., 6., 0., 3., 6., 3., 3., 3.]);
    m.reduce_row(0, 1, 2, &unit());
    assert_eq!(cells(&m), vec![2., 4., 6., 0., 3., 6., 3., 0., -1.5]);
    let mut n = matrix(&[&[2., 4.], &[1., 5.], &[3., 3.]]);
    n.clear_below(0, 0, &unit());
    assert_eq!(cells(&n), vec![2., 4., 0., 3., 0., -3.]);
}
