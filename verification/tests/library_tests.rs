use neural_core::narray::errors::NErrors;
use neural_core::narray::matrix::{NMatrix, NMatrixAxis};
use neural_core::narray::scalar::Scalar;
use neural_core::narray::vector::NVector;
use neural_core::network::layer::{ActivationFn, Initializer, Layer};
use neural_core::network::network::{Network, TrainingDataElem};
use neural_core::network::shuffle::{ascending, reshuffle};
use rand::rngs::StdRng;
use rand::SeedableRng;

/// Single-precision floats as scalars of the library.
#[derive(Clone, Copy, Debug, PartialEq)]
struct F(f32);

impl Scalar for F {
    // The functions that stand for the operations in contracts are the
    // operations themselves.
    fn zero_spec() -> F {
        F(0.0)
    }

    fn one_spec() -> F {
        F(1.0)
    }

    fn add_spec(self, rhs: F) -> F {
        F(self.0 + rhs.0)
    }

    fn sub_spec(self, rhs: F) -> F {
        F(self.0 - rhs.0)
    }

    fn mul_spec(self, rhs: F) -> F {
        F(self.0 * rhs.0)
    }

    fn div_count_spec(self, n: usize) -> F {
        F(self.0 / n as f32)
    }

    fn is_positive_spec(self) -> bool {
        self.0 > 0.0
    }

    fn zero() -> F {
        F::zero_spec()
    }

    fn one() -> F {
        F::one_spec()
    }

    fn add(self, rhs: F) -> F {
        self.add_spec(rhs)
    }

    fn sub(self, rhs: F) -> F {
        self.sub_spec(rhs)
    }

    fn mul(self, rhs: F) -> F {
        self.mul_spec(rhs)
    }

    fn div_count(self, n: usize) -> F {
        self.div_count_spec(n)
    }

    fn is_positive(self) -> bool {
        self.is_positive_spec()
    }
}

fn scalars(values: &[f32]) -> Vec<F> {
    values.iter().map(|v| F(*v)).collect()
}

fn floats(values: &[F]) -> Vec<f32> {
    values.iter().map(|v| v.0).collect()
}

fn vector(values: &[f32]) -> NVector<F> {
    NVector::new_init(scalars(values))
}

fn matrix(rows: usize, cols: usize, values: &[f32]) -> NMatrix<F> {
    NMatrix::new_init(rows, cols, scalars(values)).unwrap()
}

fn int_matrix(rows: usize, cols: usize, values: &[i64]) -> NMatrix<i64> {
    NMatrix::new_init(rows, cols, values.to_vec()).unwrap()
}

fn relu_layer(inputs: usize, outputs: usize, weights: &[f32], biases: &[f32]) -> Layer<F> {
    let mut layer =
        Layer::new(inputs, outputs, ActivationFn::ReLU, matrix(outputs, inputs, weights)).unwrap();
    layer.update(matrix(outputs, inputs, weights), vector(biases)).unwrap();
    layer
}

fn int_layer(inputs: usize, outputs: usize, weights: &[i64]) -> Layer<i64> {
    let weight = NMatrix::new_init(outputs, inputs, weights.to_vec()).unwrap();
    Layer::new(inputs, outputs, ActivationFn::ReLU, weight).unwrap()
}

fn int_example(x: &[i64], y: &[i64]) -> TrainingDataElem<i64> {
    TrainingDataElem::new(NVector::new_init(x.to_vec()), NVector::new_init(y.to_vec()))
}

/// Half the squared distance between the network's output and `y`.
fn cost(layers: Vec<Layer<F>>, x: &[f32], y: &[f32]) -> f32 {
    let mut network = Network::new(layers);
    let out = network.forward(vector(x)).unwrap();
    let mut sum = 0.0;
    for (a, e) in floats(out.data()).iter().zip(y.iter()) {
        sum += (a - e) * (a - e);
    }
    sum / 2.0
}

#[test]
fn check_columnize() {
    let t1 = matrix(3, 3, &[0., 1., 2., 3., 4., 5., 6., 7., 8.]);
    let cols = [[0., 3., 6.], [1., 4., 7.], [2., 5., 8.]];
    let mut curr = 0;
    let mut columns = t1.by_iter(NMatrixAxis::COL);
    while let Some(a_col) = columns.next() {
        assert_eq!(floats(&a_col), cols[curr], "Failed comparing columnize");
        curr += 1;
    }
    assert_eq!(curr, 3);
}

#[test]
fn check_row_iter() {
    let t1 = matrix(3, 3, &[0., 1., 2., 3., 4., 5., 6., 7., 8.]);
    let rows = [[0., 1., 2.], [3., 4., 5.], [6., 7., 8.]];
    let mut curr = 0;
    let mut all_rows = t1.by_iter(NMatrixAxis::ROW);
    while let Some(a_row) = all_rows.next() {
        assert_eq!(floats(&a_row), rows[curr], "Failed comparing rowize");
        curr += 1;
    }
    assert_eq!(curr, 3);
}

#[test]
fn test_matrix_mul() {
    let m1 = matrix(2, 2, &[1., 2., 3., 4.]);
    let m2 = matrix(2, 2, &[1., 2., 3., 4.]);

    let mr = m1.mul(&m2).unwrap();
    let mx = matrix(2, 2, &[7., 10., 15., 22.]);
    assert_eq!(mr, mx);
}

#[test]
fn test_transpose() {
    let m1 = matrix(3, 2, &[1., 2., 3., 4., 5., 6.]);
    let mx = matrix(2, 3, &[1., 3., 5., 2., 4., 6.]);
    let mr = m1.transpose();

    assert_eq!(mr.cols(), m1.rows());
    assert_eq!(mr.rows(), m1.cols());

    assert_eq!(m1.transpose(), mx);
}

#[test]
fn check_multiply_m_v() {
    let m1 = matrix(2, 2, &[1., 2., 3., 4.]);

    let v1 = vector(&[1., 2.]);

    let res = m1.mul_vector(&v1);

    println!("{:?} res", res);
    assert_eq!(res, Ok(vector(&[5., 11.])));
}

#[test]
fn new_vector_is_zero_filled() {
    let v: NVector<F> = NVector::new(4);
    assert_eq!(v.len(), 4);
    assert_eq!(floats(v.data()), vec![0., 0., 0., 0.]);
    let empty: NVector<i64> = NVector::new(0);
    assert_eq!(empty.len(), 0);
}

#[test]
fn vector_from_data_keeps_the_data() {
    let v = vector(&[1.5, -2., 3.25]);
    assert_eq!(v.len(), 3);
    assert_eq!(floats(v.data()), vec![1.5, -2., 3.25]);
}

#[test]
fn vector_get_inside_and_outside() {
    let v = vector(&[1., 2., 3.]);
    assert_eq!(v.get(0), Some(F(1.)));
    assert_eq!(v.get(2), Some(F(3.)));
    assert_eq!(v.get(3), None);
    assert_eq!(v.get(usize::MAX), None);
}

#[test]
fn vector_set_inside_and_outside() {
    let mut v = vector(&[1., 2., 3.]);
    assert_eq!(v.set(1, F(9.)), Ok(()));
    assert_eq!(floats(v.data()), vec![1., 9., 3.]);
    assert_eq!(v.set(3, F(7.)), Err(NErrors::IndexError));
    assert_eq!(floats(v.data()), vec![1., 9., 3.]);
}

#[test]
fn dot_example() {
    let a = vector(&[1., 2., 3.]);
    let b = vector(&[4., 5., 6.]);
    assert_eq!(a.dot(&b), Ok(F(32.)));
    assert_eq!(floats(a.data()), vec![1., 2., 3.]);
    assert_eq!(floats(b.data()), vec![4., 5., 6.]);
}

#[test]
fn dot_of_empty_vectors_is_zero() {
    let a = vector(&[]);
    let b = vector(&[]);
    assert_eq!(a.dot(&b), Ok(F(0.)));
}

#[test]
fn hadamard_example() {
    let a = vector(&[1., 2., 3.]);
    let b = vector(&[4., 5., 6.]);
    assert_eq!(a.hadamard(&b), Ok(vector(&[4., 10., 18.])));
}

#[test]
fn vector_add_sub_scale() {
    let a = vector(&[1., 2., 3.]);
    let b = vector(&[4., 6., 8.]);
    assert_eq!(a.add(&b), Ok(vector(&[5., 8., 11.])));
    assert_eq!(a.sub(&b), Ok(vector(&[-3., -4., -5.])));
    assert_eq!(b.sub(&a), Ok(vector(&[3., 4., 5.])));
    assert_eq!(a.scale(F(2.5)), vector(&[2.5, 5., 7.5]));
}

#[test]
fn mismatched_vectors_fail_with_shape_mismatch() {
    let a = vector(&[1., 2., 3.]);
    let b = vector(&[4., 5.]);
    assert_eq!(a.dot(&b), Err(NErrors::ShapeMismatch));
    assert_eq!(b.dot(&a), Err(NErrors::ShapeMismatch));
    assert_eq!(a.add(&b), Err(NErrors::ShapeMismatch));
    assert_eq!(a.sub(&b), Err(NErrors::ShapeMismatch));
    assert_eq!(a.hadamard(&b), Err(NErrors::ShapeMismatch));
    let none = vector(&[]);
    assert_eq!(a.dot(&none), Err(NErrors::ShapeMismatch));
    assert_eq!(a.add(&none), Err(NErrors::ShapeMismatch));
    assert_eq!(a.hadamard(&none), Err(NErrors::ShapeMismatch));
}

#[test]
fn vector_clone_is_equal() {
    let a = vector(&[1., 2., 3.]);
    assert_eq!(a.clone(), a);
}

#[test]
fn new_matrix_is_zero_filled() {
    let m: NMatrix<F> = NMatrix::new(2, 3);
    assert_eq!(m.rows(), 2);
    assert_eq!(m.cols(), 3);
    assert_eq!(floats(m.data()), vec![0.; 6]);
    let none: NMatrix<F> = NMatrix::new(0, 5);
    assert_eq!(none.rows(), 0);
    assert_eq!(none.cols(), 5);
    assert_eq!(none.data().len(), 0);
    let tall: NMatrix<F> = NMatrix::new(usize::MAX, 0);
    assert_eq!(tall.rows(), usize::MAX);
    assert_eq!(tall.cols(), 0);
    assert_eq!(tall.data().len(), 0);
}

#[test]
fn matrix_from_flat_data_checks_the_size() {
    assert!(NMatrix::new_init(2, 3, scalars(&[1., 2., 3., 4., 5., 6.])).is_ok());
    assert_eq!(
        NMatrix::new_init(2, 2, scalars(&[1., 2., 3., 4., 5., 6.])),
        Err(NErrors::ShapeMismatch)
    );
    assert_eq!(NMatrix::new_init(2, 3, scalars(&[1., 2.])), Err(NErrors::ShapeMismatch));
    assert_eq!(NMatrix::new_init(usize::MAX, 2, scalars(&[1., 2.])), Err(NErrors::ShapeMismatch));
    assert_eq!(
        NMatrix::new_init(usize::MAX, usize::MAX, Vec::<F>::new()),
        Err(NErrors::ShapeMismatch)
    );
    assert!(NMatrix::new_init(0, 7, Vec::<F>::new()).is_ok());
}

#[test]
fn flat_data_round_trip() {
    let data = [1., 2., 3., 4., 5., 6., 7., 8., 9., 10., 11., 12.];
    let m = matrix(3, 4, &data);
    for r in 0..3 {
        for c in 0..4 {
            assert_eq!(m.get(r, c), Some(F(data[r * 4 + c])));
        }
    }
    for k in 0..12 {
        assert_eq!(m.get(k / 4, k % 4), Some(F(data[k])));
    }
    assert_eq!(floats(m.data()), data.to_vec());
}

#[test]
fn matrix_get_outside_is_none() {
    let m = matrix(2, 3, &[1., 2., 3., 4., 5., 6.]);
    assert_eq!(m.get(2, 0), None);
    assert_eq!(m.get(0, 3), None);
    assert_eq!(m.get(1, 2), Some(F(6.)));
    assert_eq!(m.get(usize::MAX, usize::MAX), None);
}

#[test]
fn matrix_set_inside_and_outside() {
    let mut m = matrix(2, 3, &[1., 2., 3., 4., 5., 6.]);
    assert_eq!(m.set(1, 0, F(9.)), Ok(()));
    assert_eq!(floats(m.data()), vec![1., 2., 3., 9., 5., 6.]);
    // A column past the end must not reach into the next row.
    assert_eq!(m.set(0, 3, F(7.)), Err(NErrors::IndexError));
    assert_eq!(m.set(2, 0, F(7.)), Err(NErrors::IndexError));
    assert_eq!(floats(m.data()), vec![1., 2., 3., 9., 5., 6.]);
    let mut none: NMatrix<F> = NMatrix::new(0, 0);
    assert_eq!(none.set(0, 0, F(1.)), Err(NErrors::IndexError));
}

#[test]
fn rows_and_columns_by_index() {
    let m = matrix(2, 3, &[1., 2., 3., 4., 5., 6.]);
    assert_eq!(floats(&m.row(0).unwrap()), vec![1., 2., 3.]);
    assert_eq!(floats(&m.row(1).unwrap()), vec![4., 5., 6.]);
    assert_eq!(m.row(2), Err(NErrors::IndexError));
    assert_eq!(floats(&m.col(0).unwrap()), vec![1., 4.]);
    assert_eq!(floats(&m.col(2).unwrap()), vec![3., 6.]);
    assert_eq!(m.col(3), Err(NErrors::IndexError));
}

#[test]
fn axis_iteration_ends_and_stays_ended() {
    let m = matrix(2, 3, &[1., 2., 3., 4., 5., 6.]);
    let mut by_rows = m.by_iter(NMatrixAxis::ROW);
    assert_eq!(by_rows.next().map(|r| floats(&r)), Some(vec![1., 2., 3.]));
    assert_eq!(by_rows.next().map(|r| floats(&r)), Some(vec![4., 5., 6.]));
    assert_eq!(by_rows.next(), None);
    assert_eq!(by_rows.next(), None);
    let mut by_cols = m.by_iter(NMatrixAxis::COL);
    assert_eq!(by_cols.next().map(|c| floats(&c)), Some(vec![1., 4.]));
    assert_eq!(by_cols.next().map(|c| floats(&c)), Some(vec![2., 5.]));
    assert_eq!(by_cols.next().map(|c| floats(&c)), Some(vec![3., 6.]));
    assert_eq!(by_cols.next(), None);
    assert_eq!(by_cols.next(), None);
    // The matrix is as it was.
    assert_eq!(floats(m.data()), vec![1., 2., 3., 4., 5., 6.]);
}

#[test]
fn axis_iteration_over_empty_matrices() {
    let no_rows: NMatrix<F> = NMatrix::new(0, 3);
    assert_eq!(no_rows.by_iter(NMatrixAxis::ROW).next(), None);
    let mut columns = no_rows.by_iter(NMatrixAxis::COL);
    assert_eq!(columns.next(), Some(vec![]));
    assert_eq!(columns.next(), Some(vec![]));
    assert_eq!(columns.next(), Some(vec![]));
    assert_eq!(columns.next(), None);
}

#[test]
fn compare_dimensions_looks_at_both() {
    let a = matrix(2, 3, &[0.; 6]);
    let b = matrix(2, 3, &[1.; 6]);
    let c = matrix(3, 2, &[0.; 6]);
    let d = matrix(2, 2, &[0.; 4]);
    assert!(a.compare_dimensions(&b));
    assert!(!a.compare_dimensions(&c));
    assert!(!a.compare_dimensions(&d));
}

#[test]
fn transpose_example() {
    let m = matrix(3, 2, &[1., 2., 3., 4., 5., 6.]);
    let t = m.transpose();
    assert_eq!(t.rows(), 2);
    assert_eq!(t.cols(), 3);
    assert_eq!(floats(t.data()), vec![1., 3., 5., 2., 4., 6.]);
    for r in 0..3 {
        for c in 0..2 {
            assert_eq!(t.get(c, r), m.get(r, c));
        }
    }
}

#[test]
fn transpose_twice_is_the_matrix() {
    let m = matrix(3, 2, &[1., 2., 3., 4., 5., 6.]);
    assert_eq!(m.transpose().transpose(), m);
    let no_rows: NMatrix<F> = NMatrix::new(0, 3);
    let t = no_rows.transpose();
    assert_eq!(t.rows(), 3);
    assert_eq!(t.cols(), 0);
    assert_eq!(t.transpose(), no_rows);
}

#[test]
fn matrix_add_sub_scale() {
    let a = matrix(2, 2, &[1., 2., 3., 4.]);
    let b = matrix(2, 2, &[10., 20., 30., 40.]);
    assert_eq!(a.add(&b), Ok(matrix(2, 2, &[11., 22., 33., 44.])));
    assert_eq!(b.sub(&a), Ok(matrix(2, 2, &[9., 18., 27., 36.])));
    assert_eq!(a.scale(F(0.5)), matrix(2, 2, &[0.5, 1., 1.5, 2.]));
}

#[test]
fn matrix_add_sub_need_equal_dimensions() {
    let a = matrix(2, 3, &[0.; 6]);
    let b = matrix(3, 2, &[0.; 6]);
    assert_eq!(a.add(&b), Err(NErrors::ShapeMismatch));
    assert_eq!(a.sub(&b), Err(NErrors::ShapeMismatch));
}

#[test]
fn matrix_sum_is_associative_on_integers() {
    let a = int_matrix(2, 2, &[1, -2, i64::MAX, 4]);
    let b = int_matrix(2, 2, &[5, 6, 7, i64::MIN]);
    let c = int_matrix(2, 2, &[-9, 10, 11, -12]);
    let left = a.add(&b).unwrap().add(&c).unwrap();
    let right = a.add(&b.add(&c).unwrap()).unwrap();
    assert_eq!(left, right);
    assert_eq!(left.data()[0], -3);
}

#[test]
fn matrix_sum_is_associative_on_floats_within_tolerance() {
    let a = matrix(2, 2, &[0.1, 0.2, 0.3, 0.4]);
    let b = matrix(2, 2, &[1.5, 2.5, 3.5, 4.5]);
    let c = matrix(2, 2, &[-0.7, 0.9, 1e-3, 7.]);
    let left = a.add(&b).unwrap().add(&c).unwrap();
    let right = a.add(&b.add(&c).unwrap()).unwrap();
    for k in 0..4 {
        assert!((left.data()[k].0 - right.data()[k].0).abs() < 1e-5);
    }
}

#[test]
fn product_of_unequal_shapes() {
    // (2 x 3) times (3 x 4) is (2 x 4).
    let a = matrix(2, 3, &[1., 2., 3., 4., 5., 6.]);
    let b = matrix(3, 4, &[1., 0., 2., 1., 0., 1., 3., 1., 1., 1., 0., 2.]);
    let p = a.mul(&b).unwrap();
    assert_eq!(p.rows(), 2);
    assert_eq!(p.cols(), 4);
    assert_eq!(floats(p.data()), vec![4., 5., 8., 9., 10., 11., 23., 21.]);
}

#[test]
fn product_needs_inner_dimensions_to_agree() {
    let a = matrix(2, 3, &[0.; 6]);
    let b = matrix(2, 3, &[0.; 6]);
    assert_eq!(a.mul(&b), Err(NErrors::ShapeMismatch));
    // Equal left rows and right columns do not make a product.
    let c = matrix(2, 2, &[0.; 4]);
    assert_eq!(a.mul(&c), Err(NErrors::ShapeMismatch));
    assert!(c.mul(&a).is_ok());
}

#[test]
fn product_with_identity_is_the_matrix() {
    let m = matrix(2, 3, &[1., 2., 3., 4., 5., 6.]);
    let identity = matrix(3, 3, &[1., 0., 0., 0., 1., 0., 0., 0., 1.]);
    assert_eq!(m.mul(&identity), Ok(matrix(2, 3, &[1., 2., 3., 4., 5., 6.])));
    let n = int_matrix(2, 2, &[i64::MAX, -2, 3, i64::MIN]);
    let one = int_matrix(2, 2, &[1, 0, 0, 1]);
    assert_eq!(n.mul(&one), Ok(int_matrix(2, 2, &[i64::MAX, -2, 3, i64::MIN])));
}

#[test]
fn product_with_no_inner_dimension_is_zero() {
    let a: NMatrix<F> = NMatrix::new(2, 0);
    let b: NMatrix<F> = NMatrix::new(0, 3);
    assert_eq!(a.mul(&b), Ok(matrix(2, 3, &[0.; 6])));
}

#[test]
fn matrix_times_vector() {
    let m = matrix(2, 3, &[1., 2., 3., 4., 5., 6.]);
    assert_eq!(m.mul_vector(&vector(&[1., 0., -1.])), Ok(vector(&[-2., -2.])));
    assert_eq!(m.mul_vector(&vector(&[1., 0.])), Err(NErrors::ShapeMismatch));
}

#[test]
fn outer_product_of_vectors() {
    let u = vector(&[1., 2.]);
    let v = vector(&[3., 4., 5.]);
    assert_eq!(NMatrix::outer(&u, &v), matrix(2, 3, &[3., 4., 5., 6., 8., 10.]));
    assert_eq!(NMatrix::outer(&v, &vector(&[])), matrix(3, 0, &[]));
}

#[test]
fn matrix_clone_is_equal() {
    let m = matrix(2, 3, &[1., 2., 3., 4., 5., 6.]);
    assert_eq!(m.clone(), m);
}

#[test]
fn integer_scalars_wrap_around() {
    assert_eq!(<i64 as Scalar>::zero(), 0);
    assert_eq!(<i64 as Scalar>::one(), 1);
    assert_eq!(Scalar::add(i64::MAX, 1), i64::MIN);
    assert_eq!(Scalar::sub(i64::MIN, 1), i64::MAX);
    assert_eq!(Scalar::mul(i64::MAX, 2), -2);
    assert_eq!(Scalar::add(2i64, 3), 5);
    assert_eq!(Scalar::sub(2i64, 3), -1);
    assert_eq!(Scalar::mul(-4i64, 3), -12);
    assert!(Scalar::is_positive(1i64));
    assert!(!Scalar::is_positive(0i64));
    assert!(!Scalar::is_positive(-1i64));
}

#[test]
fn integer_division_by_a_count_rounds_towards_zero() {
    assert_eq!(Scalar::div_count(7i64, 2), 3);
    assert_eq!(Scalar::div_count(-7i64, 2), -3);
    assert_eq!(Scalar::div_count(6i64, 3), 2);
    assert_eq!(Scalar::div_count(0i64, 5), 0);
    assert_eq!(Scalar::div_count(i64::MIN, 1), i64::MIN);
    assert_eq!(Scalar::div_count(i64::MIN, 2), i64::MIN / 2);
    assert_eq!(Scalar::div_count(i64::MAX, usize::MAX), 0);
    assert_eq!(Scalar::div_count(i64::MIN, usize::MAX), 0);
    assert_eq!(Scalar::div_count(i64::MIN, 1usize << 63), -1);
}

#[test]
fn integer_dot_product() {
    let a = NVector::new_init(vec![1i64, 2, 3]);
    let b = NVector::new_init(vec![4i64, 5, 6]);
    assert_eq!(a.dot(&b), Ok(32));
}

#[test]
fn initializer_goes_with_the_activation() {
    assert_eq!(ActivationFn::ReLU.initializer(None), Ok(Initializer::He));
    assert_eq!(ActivationFn::SoftMax.initializer(None), Ok(Initializer::Xavier));
    assert_eq!(ActivationFn::Sigmoid.initializer(None), Err(NErrors::UnsupportedOperation));
    assert_eq!(
        ActivationFn::Sigmoid.initializer(Some(Initializer::Xavier)),
        Ok(Initializer::Xavier)
    );
    assert_eq!(ActivationFn::Sigmoid.initializer(Some(Initializer::He)), Ok(Initializer::He));
    assert_eq!(ActivationFn::ReLU.initializer(Some(Initializer::Xavier)), Ok(Initializer::He));
    assert_eq!(Initializer::He.variance_numerator(), 2);
    assert_eq!(Initializer::Xavier.variance_numerator(), 1);
}

#[test]
fn only_relu_is_implemented() {
    assert!(ActivationFn::ReLU.implemented());
    assert!(!ActivationFn::SoftMax.implemented());
    assert!(!ActivationFn::Sigmoid.implemented());
}

#[test]
fn new_layer_starts_from_zero_biases_and_caches() {
    let layer = Layer::new(3, 2, ActivationFn::ReLU, matrix(2, 3, &[1., 2., 3., 4., 5., 6.]))
        .unwrap();
    assert_eq!(layer.input_size(), 3);
    assert_eq!(layer.output_size(), 2);
    assert_eq!(layer.activation(), ActivationFn::ReLU);
    assert_eq!(layer.weight(), &matrix(2, 3, &[1., 2., 3., 4., 5., 6.]));
    assert_eq!(layer.biases(), &vector(&[0., 0.]));
    assert_eq!(layer.cache_input(), &vector(&[0., 0., 0.]));
    assert_eq!(layer.cache_z(), &vector(&[0., 0.]));
    assert_eq!(layer.cache_output(), &vector(&[0., 0.]));
    assert_eq!(layer.cache_error(), &vector(&[0., 0.]));
}

#[test]
fn new_layer_turns_down_what_does_not_fit() {
    let unsupported = Layer::new(2, 2, ActivationFn::Sigmoid, matrix(2, 2, &[0.; 4]));
    assert_eq!(unsupported.err(), Some(NErrors::UnsupportedOperation));
    let unsupported = Layer::new(2, 2, ActivationFn::SoftMax, matrix(2, 2, &[0.; 4]));
    assert_eq!(unsupported.err(), Some(NErrors::UnsupportedOperation));
    // The weights are output by input.
    let transposed = Layer::new(3, 2, ActivationFn::ReLU, matrix(3, 2, &[0.; 6]));
    assert_eq!(transposed.err(), Some(NErrors::ShapeMismatch));
    // The activation is looked at first.
    let both = Layer::new(3, 2, ActivationFn::Sigmoid, matrix(3, 2, &[0.; 6]));
    assert_eq!(both.err(), Some(NErrors::UnsupportedOperation));
}

#[test]
fn relu_and_its_slope() {
    let z = vector(&[-1., 0., 2.5]);
    assert_eq!(Layer::relu(&z), vector(&[0., 0., 2.5]));
    assert_eq!(Layer::relu_prime(&z), vector(&[0., 0., 1.]));
}

#[test]
fn cost_gradient_is_the_difference() {
    let out = vector(&[1., 2.]);
    assert_eq!(Layer::cost_gradient(&out, &vector(&[0.5, 3.])), Ok(vector(&[0.5, -1.])));
    assert_eq!(Layer::cost_gradient(&out, &vector(&[0.5])), Err(NErrors::ShapeMismatch));
}

#[test]
fn layer_forward_computes_and_remembers() {
    let mut layer = relu_layer(2, 3, &[1., 2., -1., 0., 0.5, 0.5], &[0.5, 0., -2.]);
    let out = layer.forward(&vector(&[1., 2.])).unwrap();
    assert_eq!(out, vector(&[5.5, 0., 0.]));
    assert_eq!(layer.cache_input(), &vector(&[1., 2.]));
    assert_eq!(layer.cache_z(), &vector(&[5.5, -1., -0.5]));
    assert_eq!(layer.cache_output(), &vector(&[5.5, 0., 0.]));
    assert_eq!(layer.cached_z_prime(), vector(&[1., 0., 0.]));
}

#[test]
fn layer_forward_turns_down_a_wrong_length() {
    let mut layer = relu_layer(2, 1, &[1., 1.], &[0.]);
    layer.forward(&vector(&[1., 2.])).unwrap();
    assert_eq!(layer.forward(&vector(&[1., 2., 3.])), Err(NErrors::ShapeMismatch));
    assert_eq!(layer.forward(&vector(&[])), Err(NErrors::ShapeMismatch));
    // Nothing was remembered of the failed passes.
    assert_eq!(layer.cache_input(), &vector(&[1., 2.]));
    assert_eq!(layer.cache_output(), &vector(&[3.]));
}

#[test]
fn layer_backward_as_last_layer() {
    // Three inputs, two outputs: the error that goes back has three elements.
    let mut layer = relu_layer(3, 2, &[1., 2., 3., -1., 0., 1.], &[0., 0.]);
    let out = layer.forward(&vector(&[1., 1., 1.])).unwrap();
    assert_eq!(out, vector(&[6., 0.]));
    let previous_derivative = vector(&[1., 0., 1.]);
    let back = layer
        .back_propagrate(&vector(&[4., 1.]), None, Some(&previous_derivative))
        .unwrap();
    // local error: (out - expected) * slope(z) = [2, -1] * [1, 0] = [2, 0]
    assert_eq!(layer.cache_error(), &vector(&[2., 0.]));
    // transposed weights times local error = [2, 4, 6], masked by [1, 0, 1]
    assert_eq!(back, vector(&[2., 0., 6.]));
    // Without a layer before, nothing masks the error.
    let back = layer.back_propagrate(&vector(&[4., 1.]), None, None).unwrap();
    assert_eq!(back, vector(&[2., 4., 6.]));
}

#[test]
fn layer_backward_with_supplied_error() {
    let mut layer = relu_layer(3, 2, &[1., 2., 3., -1., 0., 1.], &[0., 0.]);
    layer.forward(&vector(&[1., 1., 1.])).unwrap();
    let supplied = vector(&[1., 2.]);
    let previous_derivative = vector(&[1., 1., 0.]);
    let back = layer
        .back_propagrate(&vector(&[]), Some(&supplied), Some(&previous_derivative))
        .unwrap();
    assert_eq!(layer.cache_error(), &vector(&[1., 2.]));
    assert_eq!(back, vector(&[-1., 2., 0.]));
}

#[test]
fn layer_backward_turns_down_wrong_lengths() {
    let mut layer = relu_layer(3, 2, &[1., 2., 3., -1., 0., 1.], &[0., 0.]);
    layer.forward(&vector(&[1., 1., 1.])).unwrap();
    let good_previous = vector(&[1., 1., 1.]);
    let bad_previous = vector(&[1., 1.]);
    let bad_error = vector(&[1., 2., 3.]);
    assert_eq!(
        layer.back_propagrate(&vector(&[1.]), None, Some(&good_previous)),
        Err(NErrors::ShapeMismatch)
    );
    assert_eq!(
        layer.back_propagrate(&vector(&[1., 2.]), None, Some(&bad_previous)),
        Err(NErrors::ShapeMismatch)
    );
    assert_eq!(
        layer.back_propagrate(&vector(&[1., 2.]), Some(&bad_error), Some(&good_previous)),
        Err(NErrors::ShapeMismatch)
    );
    assert_eq!(layer.cache_error(), &vector(&[0., 0.]));
}

#[test]
fn layer_update_replaces_both_or_nothing() {
    let mut layer = relu_layer(2, 2, &[1., 0., 0., 1.], &[0., 0.]);
    assert_eq!(layer.update(matrix(2, 2, &[2., 3., 4., 5.]), vector(&[6., 7.])), Ok(()));
    assert_eq!(layer.weight(), &matrix(2, 2, &[2., 3., 4., 5.]));
    assert_eq!(layer.biases(), &vector(&[6., 7.]));
    assert_eq!(
        layer.update(matrix(2, 3, &[0.; 6]), vector(&[1., 1.])),
        Err(NErrors::ShapeMismatch)
    );
    assert_eq!(
        layer.update(matrix(2, 2, &[0.; 4]), vector(&[1., 1., 1.])),
        Err(NErrors::ShapeMismatch)
    );
    assert_eq!(layer.weight(), &matrix(2, 2, &[2., 3., 4., 5.]));
    assert_eq!(layer.biases(), &vector(&[6., 7.]));
}

#[test]
fn identity_layer_with_relu() {
    let layer =
        Layer::new(2, 2, ActivationFn::ReLU, matrix(2, 2, &[1., 0., 0., 1.])).unwrap();
    let mut network = Network::new(vec![layer]);
    assert_eq!(network.forward(vector(&[-1., 2.])), Ok(vector(&[0., 2.])));
}

#[test]
fn network_without_layers_hands_the_input_back() {
    let mut network: Network<F> = Network::new(vec![]);
    assert_eq!(network.forward(vector(&[1., 2.])), Ok(vector(&[1., 2.])));
    let (grad_w, grad_b) = network.back_propagrate(&vector(&[1.]), &vector(&[2., 3.])).unwrap();
    assert_eq!(grad_w.len(), 0);
    assert_eq!(grad_b.len(), 0);
}

#[test]
fn network_forward_chains_the_layers() {
    let first = relu_layer(2, 3, &[1., 0., 0., 1., 1., 1.], &[0., 0., -10.]);
    let second = relu_layer(3, 1, &[1., 2., 3.], &[0.5]);
    let mut network = Network::new(vec![first, second]);
    assert_eq!(network.forward(vector(&[1., 2.])), Ok(vector(&[5.5])));
    assert_eq!(network.layers()[0].cache_output(), &vector(&[1., 2., 0.]));
    assert_eq!(network.layers()[1].cache_input(), &vector(&[1., 2., 0.]));
}

#[test]
fn network_forward_stops_at_the_first_mismatch() {
    let first = relu_layer(2, 2, &[1., 0., 0., 1.], &[0., 0.]);
    let second = relu_layer(3, 1, &[1., 2., 3.], &[0.]);
    let mut network = Network::new(vec![first, second]);
    assert_eq!(network.forward(vector(&[1., 2.])), Err(NErrors::ShapeMismatch));
    // The first layer has remembered its pass, the second has not.
    assert_eq!(network.layers()[0].cache_input(), &vector(&[1., 2.]));
    assert_eq!(network.layers()[1].cache_input(), &vector(&[0., 0., 0.]));
    assert_eq!(network.forward(vector(&[1., 2., 3.])), Err(NErrors::ShapeMismatch));
}

#[test]
fn back_propagation_of_two_layers() {
    let first = relu_layer(2, 2, &[1., 2., -1., 1.], &[0., 0.]);
    let second = relu_layer(2, 1, &[3., 4.], &[0.]);
    let mut network = Network::new(vec![first, second]);
    // z1 = [5, 1], a1 = [5, 1], z2 = [19], a2 = [19]
    let (grad_w, grad_b) = network.back_propagrate(&vector(&[1., 2.]), &vector(&[9.])).unwrap();
    // delta2 = 19 - 9 = 10, delta1 = [3, 4] * 10 masked by [1, 1]
    assert_eq!(grad_b, vec![vector(&[30., 40.]), vector(&[10.])]);
    assert_eq!(
        grad_w,
        vec![matrix(2, 2, &[30., 60., 40., 80.]), matrix(1, 2, &[50., 10.])]
    );
    assert_eq!(network.layers()[0].cache_error(), &vector(&[30., 40.]));
    assert_eq!(network.layers()[1].cache_error(), &vector(&[10.]));
    // Weights are as they were.
    assert_eq!(network.layers()[0].weight(), &matrix(2, 2, &[1., 2., -1., 1.]));
}

#[test]
fn back_propagation_through_layers_of_unequal_sizes() {
    // 3 -> 2 -> 1: the error of the first layer has two elements.
    let first = relu_layer(3, 2, &[1., 0., 1., 0., 1., 0.], &[0., 0.]);
    let second = relu_layer(2, 1, &[2., -3.], &[0.]);
    let mut network = Network::new(vec![first, second]);
    // a1 = [4, 2], a2 = relu(8 - 6) = 2
    let (grad_w, grad_b) =
        network.back_propagrate(&vector(&[1., 2., 3.]), &vector(&[1.])).unwrap();
    assert_eq!(grad_b, vec![vector(&[2., -3.]), vector(&[1.])]);
    assert_eq!(
        grad_w,
        vec![matrix(2, 3, &[2., 4., 6., -3., -6., -9.]), matrix(1, 2, &[4., 2.])]
    );
}

#[test]
fn back_propagation_turns_down_a_misfit() {
    let first = relu_layer(2, 2, &[1., 2., -1., 1.], &[0., 0.]);
    let second = relu_layer(2, 1, &[3., 4.], &[0.]);
    let mut network = Network::new(vec![first, second]);
    assert_eq!(
        network.back_propagrate(&vector(&[1., 2., 3.]), &vector(&[9.])).err(),
        Some(NErrors::ShapeMismatch)
    );
    assert_eq!(
        network.back_propagrate(&vector(&[1., 2.]), &vector(&[9., 1.])).err(),
        Some(NErrors::ShapeMismatch)
    );
}

#[test]
fn gradient_matches_finite_differences() {
    let w1 = [0.5, 0.25, -0.125, 0.75, 0.375, 0.5];
    let b1 = [0.5, 0.25, 0.125];
    let w2 = [0.25, -0.5, 0.75, 0.5, 0.25, -0.125];
    let b2 = [0.25, 0.5];
    let x = [1.0, 2.0];
    let y = [0.5, 0.25];
    let build = |w1: &[f32], b1: &[f32], w2: &[f32], b2: &[f32]| {
        vec![relu_layer(2, 3, w1, b1), relu_layer(3, 2, w2, b2)]
    };
    let mut network = Network::new(build(&w1, &b1, &w2, &b2));
    let (grad_w, grad_b) = network.back_propagrate(&vector(&x), &vector(&y)).unwrap();
    let eps = 1e-2;
    let tolerance = 1e-3;
    for k in 0..w1.len() {
        let (mut up, mut down) = (w1, w1);
        up[k] += eps;
        down[k] -= eps;
        let estimate = (cost(build(&up, &b1, &w2, &b2), &x, &y)
            - cost(build(&down, &b1, &w2, &b2), &x, &y))
            / (2.0 * eps);
        assert!((grad_w[0].data()[k].0 - estimate).abs() < tolerance);
    }
    for k in 0..b1.len() {
        let (mut up, mut down) = (b1, b1);
        up[k] += eps;
        down[k] -= eps;
        let estimate = (cost(build(&w1, &up, &w2, &b2), &x, &y)
            - cost(build(&w1, &down, &w2, &b2), &x, &y))
            / (2.0 * eps);
        assert!((grad_b[0].data()[k].0 - estimate).abs() < tolerance);
    }
    for k in 0..w2.len() {
        let (mut up, mut down) = (w2, w2);
        up[k] += eps;
        down[k] -= eps;
        let estimate = (cost(build(&w1, &b1, &up, &b2), &x, &y)
            - cost(build(&w1, &b1, &down, &b2), &x, &y))
            / (2.0 * eps);
        assert!((grad_w[1].data()[k].0 - estimate).abs() < tolerance);
    }
    for k in 0..b2.len() {
        let (mut up, mut down) = (b2, b2);
        up[k] += eps;
        down[k] -= eps;
        let estimate = (cost(build(&w1, &b1, &w2, &up), &x, &y)
            - cost(build(&w1, &b1, &w2, &down), &x, &y))
            / (2.0 * eps);
        assert!((grad_b[1].data()[k].0 - estimate).abs() < tolerance);
    }
    // The gradient is not zero, so the comparison says something.
    assert!(grad_w[0].data().iter().any(|g| g.0.abs() > 0.1));
    assert!(grad_w[1].data().iter().any(|g| g.0.abs() > 0.1));
}

#[test]
fn mini_batch_of_one_example() {
    let mut network = Network::new(vec![int_layer(2, 2, &[1, 0, 0, 1])]);
    let batch = vec![int_example(&[3, 4], &[1, 1])];
    assert_eq!(network.update_mini_batch(&batch, 1), Ok(()));
    // delta = [2, 3], weight gradient = [[6, 8], [9, 12]]
    let layer = &network.layers()[0];
    assert_eq!(layer.weight().data(), &vec![-5, -8, -9, -11]);
    assert_eq!(layer.biases().data(), &vec![-2, -3]);
    assert_eq!(layer.cache_error().data(), &vec![2, 3]);
}

#[test]
fn mini_batch_sums_the_gradients_and_divides_the_rate() {
    let mut network = Network::new(vec![int_layer(2, 2, &[1, 0, 0, 1])]);
    let batch = vec![int_example(&[3, 4], &[1, 1]), int_example(&[1, 1], &[0, 3])];
    // gradients: [[6, 8], [9, 12]] and [2, 3]; [[1, 1], [0, 0]] and [1, 0]
    // (the second output is below the expected one but positive: delta = 1 - 3 = -2)
    assert_eq!(network.update_mini_batch(&batch, 4), Ok(()));
    // step = 4 / 2 = 2; sums: [[7, 9], [7, 10]] and [3, 1]
    let layer = &network.layers()[0];
    assert_eq!(layer.weight().data(), &vec![1 - 14, -18, -14, 1 - 20]);
    assert_eq!(layer.biases().data(), &vec![-6, -2]);
}

#[test]
fn mini_batch_on_floats() {
    let mut network = Network::new(vec![relu_layer(2, 1, &[1., 1.], &[0.])]);
    let batch = vec![
        TrainingDataElem::new(vector(&[1., 2.]), vector(&[2.])),
        TrainingDataElem::new(vector(&[2., 2.]), vector(&[2.])),
    ];
    // deltas 1 and 2; summed weight gradient [1 + 4, 2 + 4]; step 0.5 / 2
    assert_eq!(network.update_mini_batch(&batch, F(0.5)), Ok(()));
    let layer = &network.layers()[0];
    assert_eq!(layer.weight(), &matrix(1, 2, &[-0.25, -0.5]));
    assert_eq!(layer.biases(), &vector(&[-0.75]));
}

#[test]
fn empty_mini_batch_changes_nothing() {
    let mut network = Network::new(vec![int_layer(2, 2, &[1, 0, 0, 1])]);
    assert_eq!(network.update_mini_batch(&vec![], 5), Ok(()));
    assert_eq!(network.layers()[0].weight().data(), &vec![1, 0, 0, 1]);
}

#[test]
fn mini_batch_with_a_misfit_leaves_the_weights() {
    let mut network = Network::new(vec![int_layer(2, 2, &[1, 0, 0, 1])]);
    let batch = vec![int_example(&[3, 4], &[1, 1]), int_example(&[1, 1, 1], &[0, 3])];
    assert_eq!(network.update_mini_batch(&batch, 1), Err(NErrors::ShapeMismatch));
    let layer = &network.layers()[0];
    assert_eq!(layer.weight().data(), &vec![1, 0, 0, 1]);
    assert_eq!(layer.biases().data(), &vec![0, 0]);
    // The first example was passed through before the second was turned down.
    assert_eq!(layer.cache_error().data(), &vec![2, 3]);
    let wrong_output = vec![int_example(&[3, 4], &[1])];
    assert_eq!(network.update_mini_batch(&wrong_output, 1), Err(NErrors::ShapeMismatch));
}

#[test]
fn epoch_takes_consecutive_batches() {
    let set = vec![
        int_example(&[3, 4], &[1, 1]),
        int_example(&[1, 1], &[0, 3]),
        int_example(&[2, 0], &[2, 0]),
    ];
    // Batches of two: the examples 2 and 0 together, then example 1 alone.
    let mut by_epoch = Network::new(vec![int_layer(2, 2, &[1, 0, 0, 1])]);
    assert_eq!(by_epoch.train_epoch(&set, &vec![2, 0, 1], 2, 2), Ok(()));
    let mut by_hand = Network::new(vec![int_layer(2, 2, &[1, 0, 0, 1])]);
    let first = vec![int_example(&[2, 0], &[2, 0]), int_example(&[3, 4], &[1, 1])];
    let second = vec![int_example(&[1, 1], &[0, 3])];
    by_hand.update_mini_batch(&first, 2).unwrap();
    by_hand.update_mini_batch(&second, 2).unwrap();
    assert_eq!(by_epoch.layers()[0].weight(), by_hand.layers()[0].weight());
    assert_eq!(by_epoch.layers()[0].biases(), by_hand.layers()[0].biases());
    assert_eq!(by_epoch.layers()[0].weight().data(), &vec![-5, -8, -9, -11]);
}

#[test]
fn epoch_turns_down_bad_arguments() {
    let set = vec![int_example(&[3, 4], &[1, 1]), int_example(&[1, 1], &[0, 3])];
    let mut network = Network::new(vec![int_layer(2, 2, &[1, 0, 0, 1])]);
    assert_eq!(network.train_epoch(&set, &vec![0, 1], 0, 1), Err(NErrors::ShapeMismatch));
    assert_eq!(network.train_epoch(&set, &vec![0, 2], 1, 1), Err(NErrors::IndexError));
    assert_eq!(network.layers()[0].weight().data(), &vec![1, 0, 0, 1]);
    assert_eq!(network.train_epoch(&set, &vec![], 1, 1), Ok(()));
    assert_eq!(network.layers()[0].weight().data(), &vec![1, 0, 0, 1]);
}

#[test]
fn epoch_stops_at_the_first_batch_with_a_misfit() {
    let set = vec![int_example(&[3, 4], &[1, 1]), int_example(&[1], &[0, 3])];
    let mut network = Network::new(vec![int_layer(2, 2, &[1, 0, 0, 1])]);
    assert_eq!(network.train_epoch(&set, &vec![0, 1], 1, 1), Err(NErrors::ShapeMismatch));
    // The first batch was learned.
    assert_eq!(network.layers()[0].weight().data(), &vec![-5, -8, -9, -11]);
}

#[test]
fn ascending_counts_up() {
    assert_eq!(ascending(0), Vec::<usize>::new());
    assert_eq!(ascending(4), vec![0, 1, 2, 3]);
}

#[test]
fn reshuffle_permutes() {
    let mut rng = StdRng::seed_from_u64(7);
    let mut order = ascending(100);
    reshuffle(&mut order, &mut rng);
    assert_ne!(order, ascending(100));
    let mut sorted = order.clone();
    sorted.sort();
    assert_eq!(sorted, ascending(100));
}

#[test]
fn training_with_one_example_does_not_depend_on_the_order() {
    let set = vec![int_example(&[3, 4], &[1, 1])];
    let mut rng = StdRng::seed_from_u64(1);
    let mut network = Network::new(vec![int_layer(2, 2, &[1, 0, 0, 1])]);
    assert_eq!(network.train(&set, 1, 10, 1, &mut rng), Ok(()));
    assert_eq!(network.layers()[0].weight().data(), &vec![-5, -8, -9, -11]);
    assert_eq!(network.layers()[0].biases().data(), &vec![-2, -3]);
}

#[test]
fn training_lowers_the_cost() {
    // One linear unit learns y = 2 * x from four examples.
    let examples = [1.0f32, 2.0, 3.0, 4.0];
    let set: Vec<TrainingDataElem<F>> = examples
        .iter()
        .map(|x| TrainingDataElem::new(vector(&[*x]), vector(&[2.0 * x])))
        .collect();
    let mut rng = StdRng::seed_from_u64(42);
    let mut network = Network::new(vec![relu_layer(1, 1, &[0.5], &[0.])]);
    assert_eq!(network.train(&set, 200, 2, F(0.05), &mut rng), Ok(()));
    let weight = network.layers()[0].weight().data()[0].0;
    let bias = network.layers()[0].biases().data()[0].0;
    assert!((weight - 2.0).abs() < 0.1);
    assert!(bias.abs() < 0.2);
    let out = network.forward(vector(&[5.])).unwrap();
    assert!((out.data()[0].0 - 10.0).abs() < 0.5);
}

#[test]
fn training_turns_down_bad_arguments() {
    let set = vec![int_example(&[3, 4], &[1, 1]), int_example(&[1], &[0, 3])];
    let mut rng = StdRng::seed_from_u64(3);
    let mut network = Network::new(vec![int_layer(2, 2, &[1, 0, 0, 1])]);
    assert_eq!(network.train(&set, 3, 0, 1, &mut rng), Err(NErrors::ShapeMismatch));
    assert_eq!(network.layers()[0].weight().data(), &vec![1, 0, 0, 1]);
    assert_eq!(network.train(&set, 0, 1, 1, &mut rng), Ok(()));
    assert_eq!(network.layers()[0].weight().data(), &vec![1, 0, 0, 1]);
    assert_eq!(network.train(&set, 3, 2, 1, &mut rng), Err(NErrors::ShapeMismatch));
    // Both examples were in the one batch that failed.
    assert_eq!(network.layers()[0].weight().data(), &vec![1, 0, 0, 1]);
}

#[test]
fn training_keeps_the_topology() {
    let set = vec![
        TrainingDataElem::new(vector(&[1., 0.]), vector(&[1.])),
        TrainingDataElem::new(vector(&[0., 1.]), vector(&[0.5])),
        TrainingDataElem::new(vector(&[1., 1.]), vector(&[1.5])),
    ];
    let first = relu_layer(2, 3, &[0.5, 0.25, 0.125, 0.75, 0.375, 0.5], &[0.1, 0.1, 0.1]);
    let second = relu_layer(3, 1, &[0.25, 0.5, 0.75], &[0.1]);
    let mut network = Network::new(vec![first, second]);
    let mut rng = StdRng::seed_from_u64(11);
    assert_eq!(network.train(&set, 5, 2, F(0.01), &mut rng), Ok(()));
    assert_eq!(network.layers().len(), 2);
    assert_eq!(network.layers()[0].weight().rows(), 3);
    assert_eq!(network.layers()[0].weight().cols(), 2);
    assert_eq!(network.layers()[1].weight().rows(), 1);
    assert_eq!(network.layers()[1].weight().cols(), 3);
    assert_eq!(network.layers()[0].biases().len(), 3);
}

#[test]
fn activation_dispatch() {
    let z = vector(&[-2., 0.5]);
    assert_eq!(ActivationFn::ReLU.activate(&z), Ok(vector(&[0., 0.5])));
    assert_eq!(ActivationFn::ReLU.activate_prime(&z), Ok(vector(&[0., 1.])));
    assert_eq!(ActivationFn::SoftMax.activate(&z), Err(NErrors::UnsupportedOperation));
    assert_eq!(ActivationFn::SoftMax.activate_prime(&z), Err(NErrors::UnsupportedOperation));
    assert_eq!(ActivationFn::Sigmoid.activate(&z), Err(NErrors::UnsupportedOperation));
    assert_eq!(ActivationFn::Sigmoid.activate_prime(&z), Err(NErrors::UnsupportedOperation));
}

#[test]
fn training_is_reproducible_for_a_seed() {
    let set: Vec<TrainingDataElem<F>> = [1.0f32, 2.0, 3.0, 4.0, 5.0]
        .iter()
        .map(|x| TrainingDataElem::new(vector(&[*x, 1.0]), vector(&[0.5 * x])))
        .collect();
    let run = |seed: u64| {
        let mut rng = StdRng::seed_from_u64(seed);
        let mut network = Network::new(vec![relu_layer(2, 1, &[0.25, 0.5], &[0.1])]);
        network.train(&set, 3, 2, F(0.01), &mut rng).unwrap();
        floats(network.layers()[0].weight().data())
    };
    assert_eq!(run(5), run(5));
}

#[test]
fn training_makes_as_many_steps_as_there_are_batches() {
    // One input, one output, weight one, examples with output equal to input:
    // every gradient is zero, whatever the order, and nothing changes.
    let set = vec![int_example(&[1], &[1]), int_example(&[2], &[2]), int_example(&[3], &[3])];
    let mut rng = StdRng::seed_from_u64(9);
    let mut network = Network::new(vec![int_layer(1, 1, &[1])]);
    assert_eq!(network.train(&set, 4, 2, 1, &mut rng), Ok(()));
    assert_eq!(network.layers()[0].weight().data(), &vec![1]);
    assert_eq!(network.layers()[0].biases().data(), &vec![0]);
    // With two examples in one batch the order within the batch does not
    // matter either: the sums are the same.
    let pair = vec![int_example(&[3], &[1]), int_example(&[5], &[2])];
    let mut network = Network::new(vec![int_layer(1, 1, &[1])]);
    assert_eq!(network.train(&pair, 1, 2, 2, &mut rng), Ok(()));
    // deltas 2 and 3, weight gradients 6 and 15, step 2 / 2
    assert_eq!(network.layers()[0].weight().data(), &vec![1 - 21]);
    assert_eq!(network.layers()[0].biases().data(), &vec![-5]);
}
