use matrix_net::lin_alg::arithmetic::Arithmetic;
use matrix_net::lin_alg::error::MatrixError;
use matrix_net::lin_alg::matrix::Matrix;

fn b(x: f64) -> u64 {
    x.to_bits()
}

fn f(x: u64) -> f64 {
    f64::from_bits(x)
}

fn unit() -> Arithmetic<
    impl Fn(u64, u64) -> u64,
    impl Fn(u64, u64) -> u64,
    impl Fn(u64, u64) -> u64,
    impl Fn(u64, u64) -> u64,
    impl Fn(u64) -> u64,
    impl Fn(u64) -> u64,
> {
    Arithmetic::new(
        |x, y| b(f(x) + f(y)),
        |x, y| b(f(x) - f(y)),
        |x, y| b(f(x) * f(y)),
        |x, y| b(f(x) / f(y)),
        |x| b(f(x).exp()),
        |x| b(f(x).ln()),
    )
}

fn matrix(rows: &[&[f64]]) -> Matrix {
    let rows: Vec<Vec<u64>> = rows.iter().map(|r| r.iter().map(|x| b(*x)).collect()).collect();
    Matrix::from_rows(&rows).unwrap()
}

fn cells(m: &Matrix) -> Vec<f64> {
    m.data.iter().map(|x| f(*x)).collect()
}

#[test]
fn test_get_row() {
    let m = matrix(&[&[1., 2.], &[3., 4.]]);
    assert!(m.get_row(0).unwrap() == [b(1.), b(2.)]);
}

#[test]
fn test_get_column() {
    let m = matrix(&[&[1., 2.], &[3., 4.]]);
    assert!(m.get_column(0).unwrap() == vec![b(1.), b(3.)]);
}

#[test]
fn rows_and_columns_of_a_wide_matrix() {
    let m = matrix(&[&[1., 2., 3.], &[4., 5., 6.]]);
    assert_eq!(m.get_row(1).unwrap(), vec![b(4.), b(5.), b(6.)]);
    assert_eq!(m.get_column(0).unwrap(), vec![b(1.), b(4.)]);
    assert_eq!(m.get_column(1).unwrap(), vec![b(2.), b(5.)]);
    assert_eq!(m.get_column(2).unwrap(), vec![b(3.), b(6.)]);
    assert_eq!(m.get_row(2), Err(MatrixError::IndexOutOfRange));
    assert_eq!(m.get_column(3), Err(MatrixError::IndexOutOfRange));
}

#[test]
fn test_random_matrix() {
    let m: Matrix = Matrix::new_random(5, 8, &unit());
    assert_eq!(m.rows, 5);
    assert_eq!(m.columns, 8);
    assert_eq!(m.data.len(), 40);
    assert!(cells(&m).iter().all(|x| 0.0 <= *x && *x < 1.0));
}

#[test]
fn matrix_test_random_matrix() {
    let m: Matrix = Matrix::new_random(5, 8, &unit());
    let first = m.data[0];
    assert!(m.data.iter().any(|x| *x != first));
    let empty = Matrix::new_random(0, 8, &unit());
    assert_eq!((empty.rows, empty.columns, empty.data.len()), (0, 8, 0));
    let flat = Matrix::new_random(3, 0, &unit());
    assert_eq!((flat.rows, flat.columns, flat.data.len()), (3, 0, 0));
}

#[test]
fn a_random_cell_is_the_seed_less_one() {
    let u = unit();
    assert_eq!(f(Matrix::cell_from_word(0, &u)), 0.0);
    assert_eq!(f(Matrix::cell_from_word(1u64 << 63, &u)), 0.5);
    assert_eq!(f(Matrix::cell_from_word(u64::MAX, &u)), 1.0 - f64::EPSILON);
}

#[test]
fn test_matrix_macro() {
    let m = matrix(&[&[1., 2., 3.], &[4., 5., 6.], &[7., 8., 9.]]);
    assert!(m.rows == 3);
    assert!(m.columns == 3);
    assert!(cells(&m) == vec![1., 2., 3., 4., 5., 6., 7., 8., 9.]);
}

#[test]
fn matrix_test_matrix_macro() {
    let m = matrix(&[&[1., 2., 3.]]);
    assert_eq!((m.rows, m.columns), (1, 3));
    let none = Matrix::from_rows(&vec![]).unwrap();
    assert_eq!((none.rows, none.columns, none.data.len()), (0, 0, 0));
    let hollow = Matrix::from_rows(&vec![vec![], vec![]]).unwrap();
    assert_eq!((hollow.rows, hollow.columns, hollow.data.len()), (2, 0, 0));
}

#[test]
fn ragged_rows_are_refused() {
    let rows = vec![vec![b(1.), b(2.)], vec![b(3.)]];
    assert_eq!(Matrix::from_rows(&rows).unwrap_err(), MatrixError::ShapeMismatch);
    let rows = vec![vec![], vec![b(3.)]];
    assert_eq!(Matrix::from_rows(&rows).unwrap_err(), MatrixError::ShapeMismatch);
}

#[test]
fn new_is_filled_with_zeros() {
    let m = Matrix::new(2, 3);
    assert_eq!((m.rows, m.columns), (2, 3));
    assert_eq!(m.data, vec![0u64; 6]);
    let e = Matrix::new(0, 4);
    assert_eq!((e.rows, e.columns, e.data.len()), (0, 4, 0));
    let e = Matrix::new(4, 0);
    assert_eq!((e.rows, e.columns, e.data.len()), (4, 0, 0));
}

#[test]
fn cells_are_read_and_written_in_row_major_order() {
    let mut m = Matrix::new(2, 3);
    assert_eq!(m.set(1, 2, b(7.5)), Ok(()));
    assert_eq!(m.set(0, 1, b(-2.)), Ok(()));
    assert_eq!(cells(&m), vec![0., -2., 0., 0., 0., 7.5]);
    assert_eq!(m.get(1, 2), Ok(b(7.5)));
    assert_eq!(m.get(0, 0), Ok(b(0.)));
    assert_eq!(m.get(2, 0), Err(MatrixError::IndexOutOfRange));
    assert_eq!(m.get(0, 3), Err(MatrixError::IndexOutOfRange));
    assert_eq!(m.set(2, 0, b(1.)), Err(MatrixError::IndexOutOfRange));
    assert_eq!(m.set(0, 3, b(1.)), Err(MatrixError::IndexOutOfRange));
    assert_eq!(cells(&m), vec![0., -2., 0., 0., 0., 7.5]);
    assert_eq!(m.offset(1, 1), 4);
    assert_eq!(m.cell(0, 1), b(-2.));
    m.put(0, 0, b(9.));
    assert_eq!(m.cell(0, 0), b(9.));
}

#[test]
fn test_matrix_addition() {
    let m1 = matrix(&[&[1., 2.], &[3., 4.]]);
    let m2 = matrix(&[&[1., 2.], &[3., 4.]]);
    let m3 = m1.add_matrices(&m2, &unit()).unwrap();
    assert!(m3 == matrix(&[&[2., 4., 6., 8.]]))
}

#[test]
fn matrix_test_matrix_addition() {
    let m1 = matrix(&[&[1., 2.], &[3., 4.]]);
    let m2 = matrix(&[&[1., 2.], &[3., 4.]]);
    let m3 = m1.add_matrices(&m2, &unit()).unwrap();
    assert_eq!((m3.rows, m3.columns), (2, 2));
    assert_eq!(cells(&m3), vec![2., 4., 6., 8.]);
}

#[test]
fn test_matrix_subtraction() {
    let m1 = matrix(&[&[1., 2.], &[3., 4.]]);
    let m2 = matrix(&[&[5., 6.], &[7., 8.]]);
    let m3 = m1.subtract_matrices(&m2, &unit()).unwrap();
    assert!(m3 == matrix(&[&[-4., -4., -4., -4.]]));
    assert_eq!((m3.rows, m3.columns), (2, 2));
}

#[test]
fn test_matrix_multiplication() {
    let m1 = matrix(&[&[1., 2.], &[3., 4.]]);
    let m2 = matrix(&[&[5., 6.], &[7., 8.]]);
    let m3: Matrix = m1.multiply_matrices(&m2, &unit()).unwrap();
    assert!(m3 == matrix(&[&[19., 22., 43., 50.]]));
}

#[test]
fn matrix_test_matrix_multiplication() {
    let m1 = matrix(&[&[1., 2.], &[3., 4.]]);
    let m2 = matrix(&[&[5., 6.], &[7., 8.]]);
    let m3: Matrix = m1.multiply_matrices(&m2, &unit()).unwrap();
    assert_eq!((m3.rows, m3.columns), (2, 2));
    assert_eq!(cells(&m3), vec![19., 22., 43., 50.]);
}

#[test]
fn test_dimension_assertion() {
    let m1 = matrix(&[&[1., 2.], &[3., 4.]]);
    let m2 = matrix(&[&[5., 6., 15.], &[7., 8., 53.]]);
    let m3: Matrix = m1.multiply_matrices(&m2, &unit()).unwrap();
    assert_eq!((m3.rows, m3.columns), (2, 3));
    assert_eq!(cells(&m3), vec![19., 22., 121., 43., 50., 257.]);
}

#[test]
fn matrix_test_dimension_assertion() {
    let m1 = matrix(&[&[1., 2.], &[3., 4.]]);
    let m2 = matrix(&[&[5., 6., 15.], &[7., 8., 53.]]);
    assert_eq!(m2.multiply_matrices(&m1, &unit()).unwrap_err(), MatrixError::ShapeMismatch);
    assert!(m2.multiply_matrices(&m2.transpose(), &unit()).is_ok());
}

#[test]
fn test_feed_forward() {
    let inputs = matrix(&[&[1., 1., 1.]]);
    let weights = matrix(&[&[0.5, -0.25], &[0.7, 0.1], &[-0.2, 0.1]]);
    let bias = matrix(&[&[0.1, -0.2]]);
    let weighted_sum = inputs
        .multiply_matrices(&weights, &unit())
        .unwrap()
        .add_matrices(&bias, &unit())
        .unwrap();
    assert_eq!((weighted_sum.rows, weighted_sum.columns), (1, 2));
    let got = cells(&weighted_sum);
    assert!((got[0] - 1.1).abs() < 1e-12);
    assert!((got[1] + 0.25).abs() < 1e-12);
}

#[test]
fn sums_need_one_shape() {
    let a = matrix(&[&[1., 2.], &[3., 4.]]);
    let wide = matrix(&[&[1., 2., 3.], &[4., 5., 6.]]);
    let flat = matrix(&[&[1., 2., 3., 4.]]);
    let u = unit();
    assert_eq!(a.add_matrices(&wide, &u).unwrap_err(), MatrixError::ShapeMismatch);
    assert_eq!(a.add_matrices(&flat, &u).unwrap_err(), MatrixError::ShapeMismatch);
    assert_eq!(a.subtract_matrices(&wide, &u).unwrap_err(), MatrixError::ShapeMismatch);
    assert_eq!(a.subtract_matrices(&flat, &u).unwrap_err(), MatrixError::ShapeMismatch);
    assert_eq!(a.elementwise_multiplication(&wide, &u).unwrap_err(), MatrixError::ShapeMismatch);
    assert_eq!(a.elementwise_multiplication(&flat, &u).unwrap_err(), MatrixError::ShapeMismatch);
}

#[test]
fn elementwise_product_multiplies_cell_by_cell() {
    let a = matrix(&[&[1., 2.], &[3., 4.]]);
    let c = matrix(&[&[5., 6.], &[7., 8.]]);
    let h = a.elementwise_multiplication(&c, &unit()).unwrap();
    assert_eq!((h.rows, h.columns), (2, 2));
    assert_eq!(cells(&h), vec![5., 12., 21., 32.]);
}

#[test]
fn multiply_fails_exactly_when_the_inner_extents_differ() {
    let u = unit();
    for (ar, ac) in [(1usize, 1usize), (2, 3), (3, 2), (0, 2), (2, 0)] {
        for (br, bc) in [(1usize, 1usize), (2, 3), (3, 2), (0, 2), (2, 0)] {
            let a = Matrix::new(ar, ac);
            let c = Matrix::new(br, bc);
            match a.multiply_matrices(&c, &u) {
                Ok(p) => {
                    assert_eq!(ac, br);
                    assert_eq!((p.rows, p.columns, p.data.len()), (ar, bc, ar * bc));
                },
                Err(e) => {
                    assert_ne!(ac, br);
                    assert_eq!(e, MatrixError::ShapeMismatch);
                },
            }
        }
    }
}

#[test]
fn a_product_over_no_terms_is_zero() {
    let a = Matrix::new(2, 0);
    let c = Matrix::new(0, 3);
    let p = a.multiply_matrices(&c, &unit()).unwrap();
    assert_eq!((p.rows, p.columns), (2, 3));
    assert_eq!(p.data, vec![0u64; 6]);
}

#[test]
fn add_then_subtract_gives_the_matrix_back() {
    let a = matrix(&[&[1., -2.5], &[3., 4.], &[0., 1024.]]);
    let c = matrix(&[&[0.5, 8.], &[-3., 16.], &[2., -1024.]]);
    let u = unit();
    let back = a.add_matrices(&c, &u).unwrap().subtract_matrices(&c, &u).unwrap();
    assert_eq!(back.data, a.data);
    assert_eq!((back.rows, back.columns), (3, 2));
}

#[test]
fn products_associate_within_tolerance() {
    let a = matrix(&[&[1.5, 2.], &[-3., 0.25]]);
    let c = matrix(&[&[0.1, 6., 1.], &[7., -8., 2.]]);
    let d = matrix(&[&[1., 2.], &[0.3, 4.], &[5., -6.]]);
    let u = unit();
    let left = a.multiply_matrices(&c, &u).unwrap().multiply_matrices(&d, &u).unwrap();
    let right = a.multiply_matrices(&c.multiply_matrices(&d, &u).unwrap(), &u).unwrap();
    assert_eq!((left.rows, left.columns), (right.rows, right.columns));
    for (x, y) in cells(&left).iter().zip(cells(&right).iter()) {
        assert!((x - y).abs() < 1e-9);
    }
}

#[test]
fn transpose_turns_rows_into_columns() {
    let m = matrix(&[&[1., 2., 3.], &[4., 5., 6.]]);
    let t = m.transpose();
    assert_eq!((t.rows, t.columns), (3, 2));
    assert_eq!(cells(&t), vec![1., 4., 2., 5., 3., 6.]);
    let back = t.transpose();
    assert_eq!((back.rows, back.columns), (2, 3));
    assert_eq!(back.data, m.data);
    let empty = Matrix::new(0, 3).transpose();
    assert_eq!((empty.rows, empty.columns, empty.data.len()), (3, 0, 0));
}

#[test]
fn map_applies_the_function_to_every_cell() {
    let m = matrix(&[&[1., -2.], &[3., 4.]]);
    let doubled = m.map(|x| b(f(x) * 2.0));
    assert_eq!((doubled.rows, doubled.columns), (2, 2));
    assert_eq!(cells(&doubled), vec![2., -4., 6., 8.]);
    let pairs = m.zip_with(&doubled, &|x, y| b(f(x).max(f(y)))).unwrap();
    assert_eq!(cells(&pairs), vec![2., -2., 6., 8.]);
}

#[test]
fn swapping_rows_and_columns() {
    let start = matrix(&[&[1., 2., 3.], &[4., 5., 6.], &[7., 8., 9.]]);
    let mut m = start.clone();
    assert_eq!(m.swap_rows(1, 1), Ok(()));
    assert_eq!(m.data, start.data);
    assert_eq!(m.swap_columns(2, 2), Ok(()));
    assert_eq!(m.data, start.data);
    assert_eq!(m.swap_rows(5, 5), Ok(()));
    assert_eq!(m.data, start.data);
    assert_eq!(m.swap_rows(0, 2), Ok(()));
    assert_eq!(cells(&m), vec![7., 8., 9., 4., 5., 6., 1., 2., 3.]);
    assert_eq!(m.swap_rows(0, 2), Ok(()));
    assert_eq!(m.data, start.data);
    assert_eq!(m.swap_columns(0, 1), Ok(()));
    assert_eq!(cells(&m), vec![2., 1., 3., 5., 4., 6., 8., 7., 9.]);
    assert_eq!(m.swap_columns(1, 0), Ok(()));
    assert_eq!(m.data, start.data);
    assert_eq!(m.swap_rows(0, 3), Err(MatrixError::IndexOutOfRange));
    assert_eq!(m.swap_rows(3, 0), Err(MatrixError::IndexOutOfRange));
    assert_eq!(m.swap_columns(0, 3), Err(MatrixError::IndexOutOfRange));
    assert_eq!(m.data, start.data);
    assert_eq!((m.rows, m.columns), (3, 3));
}

#[test]
fn swapping_columns_of_a_wide_matrix_strides_over_the_rows() {
    let mut m = matrix(&[&[1., 2., 3., 4.], &[5., 6., 7., 8.]]);
    assert_eq!(m.swap_columns(0, 3), Ok(()));
    assert_eq!(cells(&m), vec![4., 2., 3., 1., 8., 6., 7., 5.]);
    assert_eq!(m.swap_rows(0, 1), Ok(()));
    assert_eq!(cells(&m), vec![8., 6., 7., 5., 4., 2., 3., 1.]);
    m.exchange_rows(1, 0);
    m.exchange_columns(3, 0);
    m.exchange_rows(1, 1);
    assert_eq!(cells(&m), vec![1., 2., 3., 4., 5., 6., 7., 8.]);
}

#[test]
fn equality_compares_values_cell_by_cell() {
    let a = matrix(&[&[0., 1.], &[2., 3.]]);
    let signed = matrix(&[&[-0., 1.], &[2., 3.]]);
    assert!(a == signed);
    assert!(a != matrix(&[&[0., 1.], &[2., 4.]]));
    assert!(a != matrix(&[&[0., 1., 2.]]));
    let nan = matrix(&[&[f64::NAN]]);
    assert!(nan != nan.clone());
    assert!(Matrix::new(0, 3) == Matrix::new(2, 0));
}

#[test]
fn errors_describe_themselves() {
    assert_eq!(MatrixError::ShapeMismatch.describe(), "incompatible dimensions");
    assert_eq!(MatrixError::IndexOutOfRange.describe(), "index out of range");
    assert_eq!(MatrixError::InvalidConfiguration.describe(), "invalid configuration");
}

#[test]
fn a_column_vector_holds_its_cells_top_to_bottom() {
    let v = Matrix::from_column(vec![b(1.), b(2.), b(3.)]);
    assert_eq!((v.rows, v.columns), (3, 1));
    assert_eq!(cells(&v), vec![1., 2., 3.]);
    let none = Matrix::from_column(vec![]);
    assert_eq!((none.rows, none.columns), (0, 1));
}

#[test]
fn a_matrix_is_sound_when_its_buffer_fits_its_extents() {
    let mut m = matrix(&[&[1., 2.], &[3., 4.]]);
    assert!(m.is_wf());
    m.data.pop();
    assert!(!m.is_wf());
    m.data.push(b(4.));
    m.rows = usize::MAX;
    assert!(!m.is_wf());
    assert!(Matrix::new(0, usize::MAX).is_wf());
}

#[test]
fn add_then_subtract_restores_a_zero_in_value() {
    let u = unit();
    let a = matrix(&[&[-0., 3.], &[-7., 0.]]);
    let c = matrix(&[&[0., -3.], &[7., 0.]]);
    let back = a.add_matrices(&c, &u).unwrap().subtract_matrices(&c, &u).unwrap();
    assert!(back == a);
    assert_eq!(cells(&back), vec![0., 3., -7., 0.]);
    assert_eq!(back.data[0], b(0.));
    assert_eq!(a.data[0], b(-0.));
}
