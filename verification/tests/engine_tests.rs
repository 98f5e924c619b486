use jiro_nn::error::Error;
use jiro_nn::layer::activation_layer::{Activation, ActivationLayer};
use jiro_nn::layer::dense_layer::DenseLayer;
use jiro_nn::learning_rate::{default_learning_rate, LearningRateSchedule};
use jiro_nn::linalg::{BinaryOp, Matrix, UnaryOp};
use jiro_nn::loss::{Loss, Losses};
use jiro_nn::network::params::NetworkParams;
use jiro_nn::network::{Network, NetworkLayer};
use jiro_nn::optimizer::adam::Adam;
use jiro_nn::optimizer::momentum::Momentum;
use jiro_nn::optimizer::sgd::SGD;
use jiro_nn::optimizer::{adam, momentum, sgd, Optimizers};
use jiro_nn::scalar::{mean, power, ratio, standard_deviation, sum, Scalar};

#[derive(Clone, Copy, Debug, PartialEq)]
struct Real(f64);

impl Scalar for Real {
    fn zero() -> Self {
        Real(0.0)
    }

    fn one() -> Self {
        Real(1.0)
    }

    fn from_count(n: usize) -> Self {
        Real(n as f64)
    }

    fn to_count(self) -> usize {
        self.0 as usize
    }

    fn add(self, rhs: Self) -> Self {
        Real(self.0 + rhs.0)
    }

    fn sub(self, rhs: Self) -> Self {
        Real(self.0 - rhs.0)
    }

    fn mul(self, rhs: Self) -> Self {
        Real(self.0 * rhs.0)
    }

    fn div(self, rhs: Self) -> Self {
        Real(self.0 / rhs.0)
    }

    fn sqrt(self) -> Self {
        Real(self.0.sqrt())
    }

    fn exp(self) -> Self {
        Real(self.0.exp())
    }

    fn lt(self, rhs: Self) -> bool {
        self.0 < rhs.0
    }

    fn is_finite(self) -> bool {
        self.0.is_finite()
    }

    fn equals(self, rhs: Self) -> bool {
        self.0 == rhs.0
    }

    fn from_text(text: &str) -> Option<Self> {
        text.parse::<f64>().ok().map(Real)
    }
}

fn reals(values: &[f64]) -> Vec<Real> {
    values.iter().map(|v| Real(*v)).collect()
}

fn columns(values: &[&[f64]]) -> Vec<Vec<Real>> {
    values.iter().map(|column| reals(column)).collect()
}

fn matrix(values: &[&[f64]]) -> Matrix<Real> {
    Matrix::from_column_leading_vector2(&columns(values)).unwrap()
}

fn floats(matrix: &Matrix<Real>) -> Vec<Vec<f64>> {
    matrix.get_data_col_leading().iter().map(|column| column.iter().map(|v| v.0).collect()).collect()
}

fn const_sgd(rate: f64) -> Optimizers<Real> {
    Optimizers::SGD(SGD::with_const_lr(Real(rate)))
}

fn dense(weights: &[&[f64]], biases: &[f64], rate: f64) -> NetworkLayer<Real> {
    NetworkLayer::Dense(
        DenseLayer::from_parameters(matrix(weights), matrix(&[biases]), const_sgd(rate), const_sgd(rate))
            .unwrap(),
    )
}

fn close(a: f64, b: f64, tolerance: f64) -> bool {
    (a - b).abs() <= tolerance
}

#[test]
fn sums_first_to_last() {
    assert_eq!(sum(&reals(&[1.0, 2.0, 0.5])), Real(3.5));
    assert_eq!(sum::<Real>(&vec![]), Real(0.0));
}

#[test]
fn ratio_of_counts_is_the_nearest_number() {
    assert_eq!(ratio::<Real>(1, 1000), Real(0.001));
    assert_eq!(ratio::<Real>(9, 10), Real(0.9));
    assert_eq!(ratio::<Real>(999, 1000), Real(0.999));
    assert_eq!(ratio::<Real>(1, 100000000), Real(1e-8));
}

#[test]
fn power_multiplies_that_many_times() {
    assert_eq!(power(Real(2.0), 0), Real(1.0));
    assert_eq!(power(Real(2.0), 10), Real(1024.0));
}

#[test]
fn mean_and_deviation_of_a_list() {
    let values = reals(&[2.0, 4.0, 4.0, 4.0, 5.0, 5.0, 7.0, 9.0]);
    assert_eq!(mean(&values), Real(5.0));
    assert_eq!(standard_deviation(&values), Real(2.0));
}

#[test]
fn matrix_is_built_from_its_columns() {
    let m = matrix(&[&[1.0, 2.0, 3.0], &[4.0, 5.0, 6.0]]);
    assert_eq!(m.dim(), (3, 2));
    assert_eq!(m.index(2, 1), Some(Real(6.0)));
    assert_eq!(m.index(3, 0), None);
    assert_eq!(m.index(0, 2), None);
    assert_eq!(m.get_column(1), Some(reals(&[4.0, 5.0, 6.0])));
    assert_eq!(m.get_column(2), None);
    assert_eq!(m.get_row(1), Some(reals(&[2.0, 5.0])));
    assert_eq!(m.get_row(3), None);
    assert_eq!(floats(&m), vec![vec![1.0, 2.0, 3.0], vec![4.0, 5.0, 6.0]]);
    let rows: Vec<Vec<Real>> = m.get_data_row_leading();
    assert_eq!(rows, vec![reals(&[1.0, 4.0]), reals(&[2.0, 5.0]), reals(&[3.0, 6.0])]);
}

#[test]
fn ragged_columns_are_a_shape_mismatch() {
    let ragged = columns(&[&[1.0, 2.0], &[3.0]]);
    assert_eq!(Matrix::from_column_leading_vector2(&ragged).err(), Some(Error::ShapeMismatch));
    assert_eq!(Matrix::from_row_leading_vector2(&ragged).err(), Some(Error::ShapeMismatch));
    assert_eq!(Matrix::from_column_range(&ragged, 0, 2).err(), Some(Error::ShapeMismatch));
    assert_eq!(Matrix::from_column_range(&ragged, 1, 2).unwrap().dim(), (1, 1));
    assert!(Matrix::from_leading_columns(2, &ragged, 2).is_none());
    assert_eq!(Matrix::from_leading_columns(2, &ragged, 1).unwrap().dim(), (2, 1));
    assert_eq!(Matrix::from_leading_columns(2, &ragged, 0).unwrap().dim(), (2, 0));
}

#[test]
fn matrix_from_rows_and_vectors() {
    let m = Matrix::from_row_leading_vector2(&columns(&[&[1.0, 2.0, 3.0], &[4.0, 5.0, 6.0]])).unwrap();
    assert_eq!(m.dim(), (2, 3));
    assert_eq!(floats(&m), vec![vec![1.0, 4.0], vec![2.0, 5.0], vec![3.0, 6.0]]);
    let column = Matrix::from_column_vector(&reals(&[1.0, 2.0]));
    assert_eq!(column.dim(), (2, 1));
    let row = Matrix::from_row_vector(&reals(&[1.0, 2.0]));
    assert_eq!(row.dim(), (1, 2));
    assert_eq!(floats(&row), vec![vec![1.0], vec![2.0]]);
    let empty: Matrix<Real> = Matrix::from_column_leading_vector2(&vec![]).unwrap();
    assert_eq!(empty.dim(), (0, 0));
}

#[test]
fn constant_zero_and_identity_matrices() {
    let c = Matrix::constant(2, 3, Real(7.0));
    assert_eq!(floats(&c), vec![vec![7.0, 7.0], vec![7.0, 7.0], vec![7.0, 7.0]]);
    let z: Matrix<Real> = Matrix::zeros(1, 2);
    assert_eq!(floats(&z), vec![vec![0.0], vec![0.0]]);
    let i: Matrix<Real> = Matrix::identity(3);
    assert_eq!(floats(&i), vec![vec![1.0, 0.0, 0.0], vec![0.0, 1.0, 0.0], vec![0.0, 0.0, 1.0]]);
    let f = Matrix::from_fn(2, 3, |r: usize, c: usize| Real((10 * r + c) as f64));
    assert_eq!(floats(&f), vec![vec![0.0, 10.0], vec![1.0, 11.0], vec![2.0, 12.0]]);
}

#[test]
fn transpose_swaps_rows_and_columns() {
    let m = matrix(&[&[1.0, 2.0, 3.0], &[4.0, 5.0, 6.0]]);
    let t = m.transpose();
    assert_eq!(t.dim(), (2, 3));
    assert_eq!(floats(&t), vec![vec![1.0, 4.0], vec![2.0, 5.0], vec![3.0, 6.0]]);
    assert_eq!(floats(&t.transpose()), floats(&m));
}

#[test]
fn matrix_product_follows_the_shape_contract() {
    // (2 x 3) . (3 x 2) -> (2 x 2)
    let a = matrix(&[&[1.0, 4.0], &[2.0, 5.0], &[3.0, 6.0]]);
    let b = matrix(&[&[7.0, 9.0, 11.0], &[8.0, 10.0, 12.0]]);
    let product = a.dot(&b).unwrap();
    assert_eq!(product.dim(), (2, 2));
    assert_eq!(floats(&product), vec![vec![58.0, 139.0], vec![64.0, 154.0]]);
    assert_eq!(a.dot(&a).err(), Some(Error::ShapeMismatch));
    let identity: Matrix<Real> = Matrix::identity(3);
    assert_eq!(floats(&a.dot(&identity).unwrap()), floats(&a));
}

#[test]
fn elementwise_operations_combine_entries() {
    let a = matrix(&[&[1.0, 2.0], &[3.0, 4.0]]);
    let b = matrix(&[&[10.0, 20.0], &[30.0, 40.0]]);
    assert_eq!(floats(&a.component_add(&b).unwrap()), vec![vec![11.0, 22.0], vec![33.0, 44.0]]);
    assert_eq!(floats(&b.component_sub(&a).unwrap()), vec![vec![9.0, 18.0], vec![27.0, 36.0]]);
    assert_eq!(floats(&a.component_mul(&b).unwrap()), vec![vec![10.0, 40.0], vec![90.0, 160.0]]);
    assert_eq!(floats(&b.component_div(&a).unwrap()), vec![vec![10.0, 10.0], vec![10.0, 10.0]]);
    let c = matrix(&[&[5.0, 1.0], &[2.0, 9.0]]);
    assert_eq!(floats(&a.maxof(&c).unwrap()), vec![vec![5.0, 2.0], vec![3.0, 9.0]]);
    assert_eq!(floats(&a.minof(&c).unwrap()), vec![vec![1.0, 1.0], vec![2.0, 4.0]]);
    assert_eq!(floats(&a.zip_with(BinaryOp::Add, &b).unwrap()), floats(&a.component_add(&b).unwrap()));
}

#[test]
fn a_single_column_is_broadcast_over_the_samples() {
    let a = matrix(&[&[1.0, 2.0], &[3.0, 4.0], &[5.0, 6.0]]);
    let bias = matrix(&[&[10.0, 20.0]]);
    assert_eq!(
        floats(&a.component_add(&bias).unwrap()),
        vec![vec![11.0, 22.0], vec![13.0, 24.0], vec![15.0, 26.0]]
    );
    assert_eq!(
        floats(&bias.component_sub(&a).unwrap()),
        vec![vec![9.0, 18.0], vec![7.0, 16.0], vec![5.0, 14.0]]
    );
    let two_columns = matrix(&[&[1.0, 2.0], &[3.0, 4.0]]);
    assert_eq!(a.component_add(&two_columns).err(), Some(Error::ShapeMismatch));
    let other_rows = matrix(&[&[1.0, 2.0, 3.0]]);
    assert_eq!(a.component_add(&other_rows).err(), Some(Error::ShapeMismatch));
}

#[test]
fn scalar_and_unary_operations() {
    let a = matrix(&[&[1.0, 4.0], &[9.0, 16.0]]);
    assert_eq!(floats(&a.scalar_add(Real(1.0))), vec![vec![2.0, 5.0], vec![10.0, 17.0]]);
    assert_eq!(floats(&a.scalar_sub(Real(1.0))), vec![vec![0.0, 3.0], vec![8.0, 15.0]]);
    assert_eq!(floats(&a.scalar_mul(Real(2.0))), vec![vec![2.0, 8.0], vec![18.0, 32.0]]);
    assert_eq!(floats(&a.scalar_div(Real(2.0))), vec![vec![0.5, 2.0], vec![4.5, 8.0]]);
    assert_eq!(floats(&a.square()), vec![vec![1.0, 16.0], vec![81.0, 256.0]]);
    assert_eq!(floats(&a.sqrt()), vec![vec![1.0, 2.0], vec![3.0, 4.0]]);
    let zero: Matrix<Real> = Matrix::zeros(1, 1);
    assert_eq!(floats(&zero.exp()), vec![vec![1.0]]);
    let signed = matrix(&[&[-1.0, 0.0, 2.0]]);
    assert_eq!(floats(&signed.map_with(UnaryOp::Relu)), vec![vec![0.0, 0.0, 2.0]]);
    assert_eq!(floats(&signed.map_with(UnaryOp::ReluSlope)), vec![vec![0.0, 0.0, 1.0]]);
    assert_eq!(floats(&signed.map_with(UnaryOp::One)), vec![vec![1.0, 1.0, 1.0]]);
    assert_eq!(floats(&zero.map_with(UnaryOp::Sigmoid)), vec![vec![0.5]]);
    assert_eq!(floats(&zero.map_with(UnaryOp::SigmoidSlope)), vec![vec![0.25]]);
    assert_eq!(floats(&zero.map_with(UnaryOp::Tanh)), vec![vec![0.0]]);
    assert_eq!(floats(&zero.map_with(UnaryOp::TanhSlope)), vec![vec![1.0]]);
    let one = matrix(&[&[1.0]]);
    assert!(close(floats(&one.map_with(UnaryOp::Tanh))[0][0], 1.0f64.tanh(), 1e-15));
}

#[test]
fn reductions_of_a_matrix() {
    let a = matrix(&[&[1.0, 2.0], &[3.0, 4.0], &[5.0, 9.0]]);
    assert_eq!(a.sum(), Real(24.0));
    assert_eq!(a.mean(), Real(4.0));
    assert_eq!(a.max(), Some(Real(9.0)));
    assert_eq!(a.min(), Some(Real(1.0)));
    assert_eq!(floats(&a.columns_sum()), vec![vec![9.0, 15.0]]);
    let empty: Matrix<Real> = Matrix::zeros(0, 3);
    assert_eq!(empty.max(), None);
    assert_eq!(empty.min(), None);
    assert_eq!(empty.sum(), Real(0.0));
    assert_eq!(floats(&a.get_column_as_matrix(2).unwrap()), vec![vec![5.0, 9.0]]);
    assert!(a.get_column_as_matrix(3).is_none());
}

#[test]
fn learning_rate_schedules() {
    let constant = LearningRateSchedule::Constant(Real(0.5));
    assert_eq!(constant.get_learning_rate(0), Real(0.5));
    assert_eq!(constant.get_learning_rate(1000), Real(0.5));
    let decay =
        LearningRateSchedule::InverseTimeDecay { initial_learning_rate: Real(1.0), decay_rate: Real(0.5) };
    assert_eq!(decay.get_learning_rate(0), Real(1.0));
    assert_eq!(decay.get_learning_rate(2), Real(0.5));
    assert_eq!(decay.get_learning_rate(6), Real(0.25));
    assert_eq!(default_learning_rate::<Real>().get_learning_rate(3), Real(0.001));
}

#[test]
fn sgd_moves_against_the_gradient() {
    let mut optimizer = SGD::with_const_lr(Real(0.5));
    let parameters = matrix(&[&[1.0, 2.0], &[3.0, 4.0]]);
    let gradient = matrix(&[&[2.0, 4.0], &[-2.0, 0.0]]);
    let updated = optimizer.update_parameters(0, &parameters, &gradient).unwrap();
    assert_eq!(floats(&updated), vec![vec![0.0, 0.0], vec![4.0, 4.0]]);
    let other_shape = matrix(&[&[2.0, 4.0]]);
    assert_eq!(optimizer.update_parameters(0, &parameters, &other_shape).err(), Some(Error::ShapeMismatch));
    let mut scheduled = SGD::new(LearningRateSchedule::InverseTimeDecay {
        initial_learning_rate: Real(1.0),
        decay_rate: Real(1.0),
    });
    let later = scheduled.update_parameters(1, &parameters, &gradient).unwrap();
    assert_eq!(floats(&later), vec![vec![0.0, 0.0], vec![4.0, 4.0]]);
    let mut default: SGD<Real> = SGD::default();
    let small = default.update_parameters(0, &parameters, &gradient).unwrap();
    assert_eq!(floats(&small)[0][0], 1.0 - 0.001 * 2.0);
}

#[test]
fn sgd_with_a_zero_gradient_is_the_identity() {
    let parameters = matrix(&[&[1.5, -2.0, 0.0], &[3.25, 4.0, -0.0]]);
    let zero: Matrix<Real> = Matrix::zeros(3, 2);
    for epoch in [0usize, 1, 7, 1000, usize::MAX] {
        let mut constant = SGD::with_const_lr(Real(0.1));
        let updated = constant.update_parameters(epoch, &parameters, &zero).unwrap();
        assert_eq!(floats(&updated), floats(&parameters));
        let mut decaying = SGD::new(LearningRateSchedule::InverseTimeDecay {
            initial_learning_rate: Real(0.3),
            decay_rate: Real(0.01),
        });
        let updated = decaying.update_parameters(epoch, &parameters, &zero).unwrap();
        assert_eq!(floats(&updated), floats(&parameters));
    }
}

#[test]
fn momentum_steps_grow_towards_their_limit() {
    let rate = 0.1;
    let share = 0.9;
    let slope = 2.0;
    let mut optimizer = Momentum::new(LearningRateSchedule::Constant(Real(rate)), Real(share));
    let gradient = matrix(&[&[slope]]);
    let mut parameters = matrix(&[&[0.0]]);
    let limit = rate * slope / (1.0 - share);
    let mut last_step = 0.0;
    for _ in 0..400 {
        let updated = optimizer.update_parameters(0, &parameters, &gradient).unwrap();
        let step = floats(&parameters)[0][0] - floats(&updated)[0][0];
        if last_step < limit - 1e-9 {
            assert!(step > last_step);
        }
        assert!(step <= limit + 1e-9);
        last_step = step;
        parameters = updated;
    }
    assert!(close(last_step, limit, 1e-9));
}

#[test]
fn momentum_first_steps_are_exact() {
    let mut optimizer = Momentum::new(LearningRateSchedule::Constant(Real(0.5)), Real(0.5));
    let gradient = matrix(&[&[2.0, 4.0]]);
    let parameters = matrix(&[&[10.0, 10.0]]);
    // v = 0.5 * 0 + 0.5 * g
    let first = optimizer.update_parameters(0, &parameters, &gradient).unwrap();
    assert_eq!(floats(&first), vec![vec![9.0, 8.0]]);
    // v = 0.5 * v + 0.5 * g
    let second = optimizer.update_parameters(1, &first, &gradient).unwrap();
    assert_eq!(floats(&second), vec![vec![7.5, 5.0]]);
    let other_shape = matrix(&[&[2.0]]);
    assert_eq!(optimizer.update_parameters(2, &other_shape, &other_shape).err(), Some(Error::ShapeMismatch));
    let third = optimizer.update_parameters(2, &second, &gradient).unwrap();
    assert_eq!(floats(&third), vec![vec![5.75, 1.5]]);
    let mut default: Momentum<Real> = Momentum::default();
    let step = default.update_parameters(0, &parameters, &gradient).unwrap();
    assert_eq!(floats(&step)[0][0], 10.0 - 0.001 * 2.0);
}

#[test]
fn adam_first_step_is_exact() {
    let (rate, beta1, beta2, epsilon) = (0.1, 0.9, 0.999, 1e-8);
    let mut optimizer =
        Adam::new(LearningRateSchedule::Constant(Real(rate)), Real(beta1), Real(beta2), Real(epsilon));
    let parameters = matrix(&[&[1.0]]);
    let gradient = matrix(&[&[0.5]]);
    let g = 0.5;
    let m = 0.0 * beta1 + g * (1.0 - beta1);
    let v = 0.0 * beta2 + (g * g) * (1.0 - beta2);
    let m_hat = m / (1.0 - beta1);
    let v_hat = v / (1.0 - beta2);
    let expected = 1.0 - (m_hat / (v_hat.sqrt() + epsilon)) * rate;
    let updated = optimizer.update_parameters(0, &parameters, &gradient).unwrap();
    assert_eq!(floats(&updated)[0][0], expected);
    assert!(close(expected, 0.9, 1e-6));
    let m2 = m * beta1 + g * (1.0 - beta1);
    let v2 = v * beta2 + (g * g) * (1.0 - beta2);
    let m_hat2 = m2 / (1.0 - beta1 * beta1);
    let v_hat2 = v2 / (1.0 - beta2 * beta2);
    let expected2 = expected - (m_hat2 / (v_hat2.sqrt() + epsilon)) * rate;
    let again = optimizer.update_parameters(1, &updated, &gradient).unwrap();
    assert_eq!(floats(&again)[0][0], expected2);
    let other_shape = matrix(&[&[2.0, 1.0]]);
    assert_eq!(optimizer.update_parameters(2, &other_shape, &other_shape).err(), Some(Error::ShapeMismatch));
    assert_eq!(optimizer.update_parameters(2, &parameters, &other_shape).err(), Some(Error::ShapeMismatch));
}

#[test]
fn default_optimizers_take_small_steps() {
    let parameters = matrix(&[&[1.0]]);
    let gradient = matrix(&[&[1.0]]);
    let mut plain: Optimizers<Real> = sgd();
    assert_eq!(floats(&plain.update_parameters(0, &parameters, &gradient).unwrap())[0][0], 1.0 - 0.001);
    let mut heavy: Optimizers<Real> = momentum();
    assert_eq!(floats(&heavy.update_parameters(0, &parameters, &gradient).unwrap())[0][0], 1.0 - 0.001);
    let mut adaptive: Optimizers<Real> = adam();
    let stepped = floats(&adaptive.update_parameters(0, &parameters, &gradient).unwrap())[0][0];
    assert!(close(stepped, 1.0 - 0.001, 1e-9));
    assert!(plain.fits(5, 5));
    assert!(heavy.fits(1, 1));
    assert!(!heavy.fits(2, 1));
    assert!(adaptive.fits(1, 1));
    assert!(!adaptive.fits(1, 2));
    let copy = heavy.clone();
    assert!(copy.fits(1, 1) && !copy.fits(2, 2));
}

#[test]
fn mean_squared_error_and_its_slope() {
    let loss = Losses::MSE.to_loss();
    let expected = matrix(&[&[1.0, 2.0], &[3.0, 4.0]]);
    let predicted = matrix(&[&[2.0, 2.0], &[1.0, 8.0]]);
    // differences 1, 0, -2, 4
    assert_eq!(loss.loss(&expected, &predicted).unwrap(), Real(21.0 / 4.0));
    let slope = loss.loss_prime(&expected, &predicted).unwrap();
    assert_eq!(floats(&slope), vec![vec![0.5, 0.0], vec![-1.0, 2.0]]);
    let other = matrix(&[&[1.0, 2.0]]);
    assert_eq!(loss.loss(&expected, &other).err(), Some(Error::ShapeMismatch));
    assert_eq!(loss.loss_prime(&expected, &other).err(), Some(Error::ShapeMismatch));
    let rows_true = columns(&[&[1.0, 2.0]]);
    let rows_pred = columns(&[&[2.0, 4.0]]);
    assert_eq!(Loss::new(Losses::MSE).loss_vec(&rows_true, &rows_pred).unwrap(), Real(2.5));
    assert_eq!(loss.loss_vec(&rows_true, &columns(&[&[2.0]])).err(), Some(Error::ShapeMismatch));
}

#[test]
fn dense_layer_keeps_the_shape_invariant() {
    for samples in 1..6usize {
        let weights: Matrix<Real> = Matrix::from_fn(3, 2, |r: usize, c: usize| Real((r + 2 * c) as f64));
        let biases: Matrix<Real> = Matrix::constant(3, 1, Real(0.5));
        let mut layer = DenseLayer::from_parameters(weights, biases, const_sgd(0.1), const_sgd(0.1)).unwrap();
        assert_eq!(layer.dims(), (2, 3));
        let input: Matrix<Real> = Matrix::from_fn(2, samples, |r: usize, c: usize| Real((r * c) as f64));
        let output = layer.forward(input).unwrap();
        assert_eq!(output.dim(), (3, samples));
        let gradient: Matrix<Real> = Matrix::constant(3, samples, Real(1.0));
        let input_gradient = layer.backward(0, gradient).unwrap();
        assert_eq!(input_gradient.dim(), (2, samples));
    }
}

#[test]
fn dense_layer_computes_weights_times_input_plus_biases() {
    let mut layer = DenseLayer::from_parameters(
        matrix(&[&[1.0, 3.0], &[2.0, 4.0]]),
        matrix(&[&[10.0, 20.0]]),
        const_sgd(1.0),
        const_sgd(1.0),
    )
    .unwrap();
    // weights [[1, 2], [3, 4]], input columns (1, 1) and (0, 2)
    let output = layer.forward(matrix(&[&[1.0, 1.0], &[0.0, 2.0]])).unwrap();
    assert_eq!(floats(&output), vec![vec![13.0, 27.0], vec![14.0, 28.0]]);
    let input_gradient = layer.backward(0, matrix(&[&[1.0, 0.0], &[0.0, 1.0]])).unwrap();
    // transpose(weights) . gradient
    assert_eq!(floats(&input_gradient), vec![vec![1.0, 2.0], vec![3.0, 4.0]]);
    // weights gradient = gradient . transpose(input) = [[1, 1], [0, 2]]; biases gradient = (1, 1)
    let parameters = layer.get_learnable_parameters();
    assert_eq!(parameters, columns(&[&[0.0, 3.0], &[1.0, 2.0], &[9.0, 19.0]]));
}

#[test]
fn dense_layer_reports_misuse() {
    let mut layer = DenseLayer::from_parameters(
        matrix(&[&[1.0, 3.0], &[2.0, 4.0]]),
        matrix(&[&[10.0, 20.0]]),
        const_sgd(1.0),
        const_sgd(1.0),
    )
    .unwrap();
    assert_eq!(layer.backward(0, matrix(&[&[1.0, 0.0]])).err(), Some(Error::UninitializedState));
    assert_eq!(layer.forward(matrix(&[&[1.0, 1.0, 1.0]])).err(), Some(Error::ShapeMismatch));
    layer.forward(matrix(&[&[1.0, 1.0]])).unwrap();
    assert_eq!(layer.backward(0, matrix(&[&[1.0, 0.0, 0.0]])).err(), Some(Error::ShapeMismatch));
    assert_eq!(layer.backward(0, matrix(&[&[1.0, 0.0], &[1.0, 0.0]])).err(), Some(Error::ShapeMismatch));
    assert!(DenseLayer::from_parameters(
        matrix(&[&[1.0, 3.0]]),
        matrix(&[&[10.0]]),
        const_sgd(1.0),
        const_sgd(1.0)
    )
    .is_err());
    assert_eq!(layer.set_learnable_parameters(&columns(&[&[0.0, 3.0]])).err(), Some(Error::ParameterCountMismatch));
    assert_eq!(
        layer.set_learnable_parameters(&columns(&[&[0.0, 3.0], &[1.0], &[9.0, 19.0]])).err(),
        Some(Error::ParameterCountMismatch)
    );
    assert!(!layer.accepts_parameters(&columns(&[&[0.0, 3.0], &[1.0, 2.0], &[9.0]])));
    layer.set_learnable_parameters(&columns(&[&[5.0, 6.0], &[7.0, 8.0], &[9.0, 10.0]])).unwrap();
    assert_eq!(layer.get_learnable_parameters(), columns(&[&[5.0, 6.0], &[7.0, 8.0], &[9.0, 10.0]]));
}

#[test]
fn activation_layer_applies_its_function_and_slope() {
    let mut relu: ActivationLayer<Real> = ActivationLayer::new(Activation::ReLU);
    assert_eq!(relu.backward(0, matrix(&[&[1.0]])).err(), Some(Error::UninitializedState));
    let output = relu.forward(matrix(&[&[-1.0, 2.0], &[3.0, -4.0]]));
    assert_eq!(floats(&output), vec![vec![0.0, 2.0], vec![3.0, 0.0]]);
    let back = relu.backward(0, matrix(&[&[5.0, 6.0], &[7.0, 8.0]])).unwrap();
    assert_eq!(floats(&back), vec![vec![0.0, 6.0], vec![7.0, 0.0]]);
    assert_eq!(relu.backward(0, matrix(&[&[5.0, 6.0]])).err(), Some(Error::ShapeMismatch));
    let mut linear: ActivationLayer<Real> = ActivationLayer::new(Activation::Linear);
    let same = linear.forward(matrix(&[&[-1.0, 2.0]]));
    assert_eq!(floats(&same), vec![vec![-1.0, 2.0]]);
    let passed = linear.backward(0, matrix(&[&[5.0, 6.0]])).unwrap();
    assert_eq!(floats(&passed), vec![vec![5.0, 6.0]]);
    assert_eq!(Activation::Sigmoid.function(), UnaryOp::Sigmoid);
    assert_eq!(Activation::Tanh.slope(), UnaryOp::TanhSlope);
}

fn small_network(seed: u64, rate: f64) -> Network<Real> {
    let mut state = seed;
    let mut next = move || {
        state = state.wrapping_mul(6364136223846793005).wrapping_add(1442695040888963407);
        ((state >> 33) as f64) / ((1u64 << 31) as f64) - 0.5
    };
    let first: Vec<Vec<f64>> = (0..2).map(|_| (0..3).map(|_| next()).collect()).collect();
    let first_biases: Vec<f64> = (0..3).map(|_| next()).collect();
    let second: Vec<Vec<f64>> = (0..3).map(|_| (0..1).map(|_| next()).collect()).collect();
    let second_biases: Vec<f64> = (0..1).map(|_| next()).collect();
    let first_refs: Vec<&[f64]> = first.iter().map(|c| c.as_slice()).collect();
    let second_refs: Vec<&[f64]> = second.iter().map(|c| c.as_slice()).collect();
    Network::new(vec![
        dense(&first_refs, &first_biases, rate),
        NetworkLayer::Activation(ActivationLayer::new(Activation::Tanh)),
        dense(&second_refs, &second_biases, rate),
    ])
}

fn loss_of(params: &NetworkParams<Real>, x: &Vec<Vec<Real>>, y: &Vec<Vec<Real>>) -> f64 {
    let mut network = small_network(1, 1.0);
    network.load_params(params).unwrap();
    let input = Matrix::from_column_leading_vector2(x).unwrap();
    let expected = Matrix::from_column_leading_vector2(y).unwrap();
    let predicted = network.forward(input).unwrap();
    Losses::MSE.to_loss().loss(&expected, &predicted).unwrap().0
}

#[test]
fn backward_gradient_matches_finite_differences() {
    let x = columns(&[&[0.3, -0.7], &[1.1, 0.4], &[-0.2, 0.9]]);
    let y = columns(&[&[0.5], &[-1.0], &[0.25]]);
    for seed in [3u64, 17, 92] {
        // With gradient descent at a learning rate of one, a step changes each parameter
        // by exactly its gradient.
        let mut network = small_network(seed, 1.0);
        let before = network.get_params();
        network.train(0, &x, &y, &Losses::MSE.to_loss(), 3).unwrap();
        let after = network.get_params();
        let h = 1e-6;
        for layer in 0..before.0.len() {
            for vector in 0..before.0[layer].len() {
                for entry in 0..before.0[layer][vector].len() {
                    let analytic = before.0[layer][vector][entry].0 - after.0[layer][vector][entry].0;
                    let mut up = before.clone();
                    up.0[layer][vector][entry] = Real(before.0[layer][vector][entry].0 + h);
                    let mut down = before.clone();
                    down.0[layer][vector][entry] = Real(before.0[layer][vector][entry].0 - h);
                    let numeric = (loss_of(&up, &x, &y) - loss_of(&down, &x, &y)) / (2.0 * h);
                    assert!(close(analytic, numeric, 1e-4), "{} against {}", analytic, numeric);
                }
            }
        }
    }
}

#[test]
fn parameters_round_trip_reproduces_predictions() {
    let mut trained = small_network(5, 0.05);
    let x = columns(&[&[0.3, -0.7], &[1.1, 0.4], &[-0.2, 0.9]]);
    let y = columns(&[&[0.5], &[-1.0], &[0.25]]);
    for epoch in 0..5 {
        trained.train(epoch, &x, &y, &Losses::MSE.to_loss(), 2).unwrap();
    }
    let params = trained.get_params();
    assert_eq!(params.0.len(), 2);
    assert_eq!(params.0[0].len(), 3);
    assert_eq!(params.0[1].len(), 4);
    let mut fresh = small_network(77, 0.05);
    let sample = reals(&[0.25, -1.5]);
    assert_ne!(fresh.predict(&sample).unwrap(), trained.predict(&sample).unwrap());
    assert!(fresh.accepts_params(&params));
    fresh.load_params(&params).unwrap();
    assert_eq!(fresh.predict(&sample).unwrap(), trained.predict(&sample).unwrap());
    assert_eq!(fresh.get_params().0, params.0);
}

#[test]
fn load_params_refuses_what_does_not_fit() {
    let mut network = small_network(5, 0.05);
    let params = network.get_params();
    let mut fewer = params.clone();
    fewer.0.pop();
    assert!(!network.accepts_params(&fewer));
    assert_eq!(network.load_params(&fewer).err(), Some(Error::ParameterCountMismatch));
    let mut more = params.clone();
    more.0.push(columns(&[&[1.0]]));
    assert_eq!(network.load_params(&more).err(), Some(Error::ParameterCountMismatch));
    let mut reshaped = params.clone();
    reshaped.0[1][0].push(Real(1.0));
    assert_eq!(network.load_params(&reshaped).err(), Some(Error::ParameterCountMismatch));
    // The first entry fits its layer, and still nothing was loaded.
    let mut half = params.clone();
    half.0[0][0][0] = Real(42.0);
    half.0[1].pop();
    assert_eq!(network.load_params(&half).err(), Some(Error::ParameterCountMismatch));
    assert_eq!(network.get_params().0, params.0);
    half.0[1].push(params.0[1][3].clone());
    network.load_params(&half).unwrap();
    assert_eq!(network.get_params().0[0][0][0], Real(42.0));
}

#[test]
fn train_weights_each_batch_by_its_samples() {
    let x: Vec<Vec<Real>> = (0..7).map(|i| reals(&[i as f64 * 0.3 - 1.0, 0.5 - i as f64 * 0.1])).collect();
    let y: Vec<Vec<Real>> = (0..7).map(|i| reals(&[(i as f64 * 0.7).sin()])).collect();
    let loss = Losses::MSE.to_loss();
    let mut trained = small_network(11, 0.1);
    let returned = trained.train(0, &x, &y, &loss, 3).unwrap().0;

    let mut stepped = small_network(11, 0.1);
    let mut losses = vec![];
    let mut sizes = vec![];
    for (start, end) in [(0usize, 3usize), (3, 6), (6, 7)] {
        let input = Matrix::from_column_range(&x, start, end).unwrap();
        let expected = Matrix::from_column_range(&y, start, end).unwrap();
        assert_eq!(input.dim(), (2, end - start));
        let predicted = stepped.forward(input).unwrap();
        losses.push(loss.loss(&expected, &predicted).unwrap().0);
        let gradient = loss.loss_prime(&expected, &predicted).unwrap();
        stepped.backward(0, gradient).unwrap();
        sizes.push((end - start) as f64);
    }
    let weighted = ((0.0 + losses[0] * sizes[0]) + losses[1] * sizes[1] + losses[2] * sizes[2]) / 7.0;
    let unweighted = (losses[0] + losses[1] + losses[2]) / 3.0;
    assert_eq!(returned, weighted);
    assert!(!close(returned, unweighted, 1e-6));
    assert_eq!(trained.get_params().0, stepped.get_params().0);
}

#[test]
fn train_learns_the_sum_of_two_inputs() {
    let mut network = Network::new(vec![
        dense(&[&[0.1], &[-0.2]], &[0.05], 0.1),
        NetworkLayer::Activation(ActivationLayer::new(Activation::Linear)),
    ]);
    let x = columns(&[&[0.0, 0.0], &[1.0, 1.0]]);
    let y = columns(&[&[0.0], &[2.0]]);
    let loss = Losses::MSE.to_loss();
    let mut last = f64::MAX;
    for epoch in 0..100 {
        last = network.train(epoch, &x, &y, &loss, 2).unwrap().0;
    }
    assert!(last < 1e-3);
    let prediction = network.predict(&reals(&[2.0, 2.0])).unwrap();
    assert_eq!(prediction.len(), 1);
    assert!(close(prediction[0].0, 4.0, 0.1), "predicted {}", prediction[0].0);
}

#[test]
fn train_reports_what_it_cannot_train_on() {
    let loss = Losses::MSE.to_loss();
    let mut network = small_network(11, 0.1);
    let x = columns(&[&[0.0, 0.0], &[1.0, 1.0]]);
    let y = columns(&[&[0.0], &[2.0]]);
    assert_eq!(network.train(0, &x, &columns(&[&[0.0]]), &loss, 2).err(), Some(Error::ShapeMismatch));
    assert_eq!(
        network.train(0, &columns(&[&[0.0, 0.0], &[1.0]]), &y, &loss, 2).err(),
        Some(Error::ShapeMismatch)
    );
    assert_eq!(
        network.train(0, &columns(&[&[0.0], &[1.0]]), &y, &loss, 2).err(),
        Some(Error::ShapeMismatch)
    );
    assert_eq!(
        network.train(0, &x, &columns(&[&[0.0, 1.0], &[2.0, 1.0]]), &loss, 2).err(),
        Some(Error::ShapeMismatch)
    );
    let diverging = columns(&[&[f64::NAN, 0.0], &[1.0, 1.0]]);
    assert_eq!(network.train(0, &diverging, &y, &loss, 1).err(), Some(Error::NumericalDivergence));
    let mut other = small_network(11, 0.1);
    assert!(other.train(0, &x, &y, &loss, 1).is_ok());
    assert!(other.train(0, &x, &y, &loss, 5).is_ok());
}

#[test]
fn backward_before_forward_is_reported() {
    let mut network = small_network(11, 0.1);
    assert_eq!(network.backward(0, matrix(&[&[1.0]])).err(), Some(Error::UninitializedState));
    let empty: Network<Real> = Network::new(vec![]);
    let mut empty = empty;
    assert_eq!(floats(&empty.forward(matrix(&[&[1.0, 2.0]])).unwrap()), vec![vec![1.0, 2.0]]);
    assert_eq!(floats(&empty.backward(0, matrix(&[&[3.0]])).unwrap()), vec![vec![3.0]]);
    assert_eq!(empty.get_params().0.len(), 0);
}

#[test]
fn predictions_and_their_losses() {
    let mut network = Network::new(vec![dense(&[&[1.0], &[2.0]], &[0.5], 0.1)]);
    assert_eq!(network.predict(&reals(&[1.0, 1.0])).unwrap(), reals(&[3.5]));
    assert_eq!(network.predict(&reals(&[1.0])).err(), Some(Error::ShapeMismatch));
    let inputs = columns(&[&[1.0, 1.0], &[0.0, 0.0], &[2.0, -1.0]]);
    assert_eq!(network.predict_many(&inputs).unwrap(), columns(&[&[3.5], &[0.5], &[0.5]]));
    assert_eq!(network.predict_many(&columns(&[&[1.0, 1.0], &[0.0]])).err(), Some(Error::ShapeMismatch));
    let loss = Losses::MSE.to_loss();
    let (prediction, value) = network.predict_evaluate(reals(&[1.0, 1.0]), reals(&[1.5]), &loss).unwrap();
    assert_eq!(prediction, reals(&[3.5]));
    assert_eq!(value, Real(4.0));
    assert_eq!(
        network.predict_evaluate(reals(&[1.0, 1.0]), reals(&[1.5, 2.0]), &loss).err(),
        Some(Error::ShapeMismatch)
    );
    let ys = columns(&[&[1.5], &[0.5], &[-1.5]]);
    let (predictions, mean_loss, deviation) = network.predict_evaluate_many(&inputs, &ys, &loss).unwrap();
    assert_eq!(predictions, columns(&[&[3.5], &[0.5], &[0.5]]));
    // losses 4, 0, 4
    assert_eq!(mean_loss, Real(8.0 / 3.0));
    let mean: f64 = 8.0 / 3.0;
    let spread = ((4.0 - mean) * (4.0 - mean) + (0.0 - mean) * (0.0 - mean) + (4.0 - mean) * (4.0 - mean)) / 3.0;
    assert_eq!(deviation, Real(spread.sqrt()));
    assert_eq!(
        network.predict_evaluate_many(&inputs, &columns(&[&[1.5]]), &loss).err(),
        Some(Error::ShapeMismatch)
    );
}
