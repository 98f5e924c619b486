use jiro_nn::initializers::Initializers;
use jiro_nn::layer::dense_layer::DenseLayer;
use jiro_nn::linalg::Matrix;
use jiro_nn::optimizer::{momentum, sgd};
use jiro_nn::random::{normal_from, random_normal, random_uniform, uniform_from, unit_from, UNIT_STEPS};
use jiro_nn::scalar::Scalar;
use jiro_nn::vision::conv_layer::direct_conv_layer::DirectConvLayer;
use jiro_nn::vision::conv_optimizer::{conv_momentum, conv_sgd};
use jiro_nn::vision::image::Image;

#[derive(Clone, Copy, Debug, PartialEq)]
struct Real(f64);

impl Scalar for Real {
    fn zero() -> Self {
        Real(0.0)
    }

    fn one() -> Self {
        Real(1.0)
    }

    fn from_count(n: usize) -> Self {
        Real(n as f64)
    }

    fn to_count(self) -> usize {
        self.0 as usize
    }

    fn add(self, rhs: Self) -> Self {
        Real(self.0 + rhs.0)
    }

    fn sub(self, rhs: Self) -> Self {
        Real(self.0 - rhs.0)
    }

    fn mul(self, rhs: Self) -> Self {
        Real(self.0 * rhs.0)
    }

    fn div(self, rhs: Self) -> Self {
        Real(self.0 / rhs.0)
    }

    fn sqrt(self) -> Self {
        Real(self.0.sqrt())
    }

    fn exp(self) -> Self {
        Real(self.0.exp())
    }

    fn lt(self, rhs: Self) -> bool {
        self.0 < rhs.0
    }

    fn is_finite(self) -> bool {
        self.0.is_finite()
    }

    fn equals(self, rhs: Self) -> bool {
        self.0 == rhs.0
    }

    fn from_text(text: &str) -> Option<Self> {
        text.parse::<f64>().ok().map(Real)
    }
}

fn entries(matrix: &Matrix<Real>) -> Vec<f64> {
    matrix.get_data_col_leading().into_iter().flatten().map(|v| v.0).collect()
}

fn image_entries(image: &Image<Real>) -> Vec<f64> {
    entries(&image.flatten())
}

#[test]
fn unit_from_takes_the_upper_bits() {
    assert_eq!(UNIT_STEPS, 1 << 24);
    assert_eq!(unit_from::<Real>(0), Real(0.0));
    assert_eq!(unit_from::<Real>(255), Real(0.0));
    assert_eq!(unit_from::<Real>(256), Real(1.0 / 16777216.0));
    assert_eq!(unit_from::<Real>(1 << 31), Real(0.5));
    assert_eq!(unit_from::<Real>(u32::MAX), Real(16777215.0 / 16777216.0));
}

#[test]
fn uniform_from_scales_the_unit_interval() {
    assert_eq!(uniform_from(Real(-1.0), Real(3.0), 0), Real(-1.0));
    assert_eq!(uniform_from(Real(-1.0), Real(3.0), 1 << 31), Real(1.0));
    assert_eq!(uniform_from(Real(-1.0), Real(3.0), 3 << 30), Real(2.0));
    assert_eq!(uniform_from(Real(2.0), Real(2.0), 12345678), Real(2.0));
}

#[test]
fn normal_from_centers_twelve_draws() {
    let halves = vec![1u32 << 31; 12];
    assert_eq!(normal_from(Real(5.0), Real(2.0), &halves), Real(5.0));
    let zeros = vec![0u32; 12];
    assert_eq!(normal_from(Real(5.0), Real(2.0), &zeros), Real(-7.0));
    let mut mixed = vec![1u32 << 31; 12];
    mixed[3] = 3 << 30;
    mixed[7] = 3 << 30;
    assert_eq!(normal_from(Real(1.0), Real(4.0), &mixed), Real(3.0));
}

#[test]
fn random_uniform_stays_in_its_range() {
    let mut rng = rand::thread_rng();
    let mut low = false;
    let mut high = false;
    for _ in 0..2000 {
        let value: Real = random_uniform(Real(-2.0), Real(6.0), &mut rng);
        assert!(-2.0 <= value.0 && value.0 < 6.0);
        low = low || value.0 < 2.0;
        high = high || value.0 >= 2.0;
    }
    assert!(low && high);
}

#[test]
fn random_normal_gathers_around_its_mean() {
    let mut rng = rand::thread_rng();
    let n = 4000;
    let mut sum = 0.0;
    let mut squares = 0.0;
    for _ in 0..n {
        let value: Real = random_normal(Real(3.0), Real(0.5), &mut rng);
        assert!(0.0 <= value.0 && value.0 <= 6.0);
        sum += value.0;
        squares += (value.0 - 3.0) * (value.0 - 3.0);
    }
    let mean = sum / n as f64;
    let deviation: f64 = (squares / n as f64).sqrt();
    assert!((mean - 3.0).abs() < 0.1);
    assert!((deviation - 0.5).abs() < 0.1);
}

#[test]
fn initializer_ranges() {
    assert_eq!(Initializers::Zeros.get_range::<Real>(3, 4), None);
    assert_eq!(Initializers::Uniform.get_range::<Real>(3, 4), Some((Real(0.0), Real(1.0))));
    assert_eq!(Initializers::UniformSigned.get_range::<Real>(3, 4), Some((Real(-1.0), Real(1.0))));
    let limit: f64 = (6.0f64 / 24.0).sqrt();
    assert_eq!(Initializers::GlorotUniform.get_range::<Real>(16, 8), Some((Real(-limit), Real(limit))));
    assert_eq!(limit, 0.5);
}

#[test]
fn zeros_initializer_gives_zero_tensors() {
    let matrix: Matrix<Real> = Initializers::Zeros.gen_matrix(3, 2);
    assert_eq!(matrix.dim(), (3, 2));
    assert!(entries(&matrix).iter().all(|v| *v == 0.0));
    let vector: Matrix<Real> = Initializers::Zeros.gen_vector(4);
    assert_eq!(vector.dim(), (4, 1));
    assert!(entries(&vector).iter().all(|v| *v == 0.0));
    let image: Image<Real> = Initializers::Zeros.gen_image(2, 3, 4, 5);
    assert_eq!(image.image_dims(), (2, 3, 4));
    assert_eq!(image.samples(), 5);
    assert!(image_entries(&image).iter().all(|v| *v == 0.0));
}

#[test]
fn drawing_initializers_stay_in_their_ranges() {
    let uniform: Matrix<Real> = Initializers::Uniform.gen_matrix(20, 30);
    assert_eq!(uniform.dim(), (20, 30));
    let values = entries(&uniform);
    assert_eq!(values.len(), 600);
    assert!(values.iter().all(|v| 0.0 <= *v && *v < 1.0));
    assert!(values.iter().any(|v| *v != values[0]));

    let signed: Matrix<Real> = Initializers::UniformSigned.gen_vector(500);
    assert_eq!(signed.dim(), (500, 1));
    let values = entries(&signed);
    assert!(values.iter().all(|v| -1.0 <= *v && *v < 1.0));
    assert!(values.iter().any(|v| *v < 0.0));
    assert!(values.iter().any(|v| *v > 0.0));

    // 16 inputs (columns) and 8 outputs (rows): the limit is sqrt(6 / 24).
    let glorot: Matrix<Real> = Initializers::GlorotUniform.gen_matrix(8, 16);
    let values = entries(&glorot);
    assert!(values.iter().all(|v| -0.5 <= *v && *v < 0.5));
    assert!(values.iter().any(|v| *v < 0.0));
    assert!(values.iter().any(|v| *v > 0.0));

    // 3 channels and 3 samples: the limit is one.
    let image: Image<Real> = Initializers::GlorotUniform.gen_image(4, 5, 3, 3);
    assert_eq!(image.image_dims(), (4, 5, 3));
    assert_eq!(image.samples(), 3);
    let values = image_entries(&image);
    assert_eq!(values.len(), 180);
    assert!(values.iter().all(|v| -1.0 <= *v && *v < 1.0));
    assert!(values.iter().any(|v| v.abs() > 0.5));
}

#[test]
fn random_matrices_and_images_have_their_shape_and_spread() {
    let uniform: Matrix<Real> = Matrix::random_uniform(10, 40, Real(2.0), Real(3.0));
    assert_eq!(uniform.dim(), (10, 40));
    assert!(entries(&uniform).iter().all(|v| 2.0 <= *v && *v < 3.0));

    let normal: Matrix<Real> = Matrix::random_normal(50, 40, Real(-1.0), Real(2.0));
    assert_eq!(normal.dim(), (50, 40));
    let values = entries(&normal);
    let mean = values.iter().sum::<f64>() / values.len() as f64;
    assert!((mean + 1.0).abs() < 0.25);
    assert!(values.iter().all(|v| -13.0 <= *v && *v <= 11.0));

    let image: Image<Real> = Image::random_uniform(3, 4, 2, 5, Real(-4.0), Real(-3.0));
    assert_eq!(image.image_dims(), (3, 4, 2));
    assert_eq!(image.samples(), 5);
    assert!(image_entries(&image).iter().all(|v| -4.0 <= *v && *v < -3.0));

    let image: Image<Real> = Image::random_normal(6, 6, 3, 20, Real(10.0), Real(1.0));
    assert_eq!(image.image_dims(), (6, 6, 3));
    assert_eq!(image.samples(), 20);
    let values = image_entries(&image);
    let mean = values.iter().sum::<f64>() / values.len() as f64;
    assert!((mean - 10.0).abs() < 0.25);

    let empty: Matrix<Real> = Matrix::random_uniform(0, 0, Real(0.0), Real(1.0));
    assert_eq!(empty.dim(), (0, 0));
}

#[test]
fn dense_layer_new_fills_its_parameters() {
    let layer: DenseLayer<Real> =
        DenseLayer::new(3, 2, sgd(), momentum(), Initializers::GlorotUniform, Initializers::Zeros).unwrap();
    assert_eq!(layer.dims(), (3, 2));
    let parameters = layer.get_learnable_parameters();
    // Three columns of weights of two entries each, then the biases.
    assert_eq!(parameters.len(), 4);
    let limit: f64 = (6.0f64 / 5.0).sqrt();
    for column in &parameters[..3] {
        assert_eq!(column.len(), 2);
        assert!(column.iter().all(|v| -limit <= v.0 && v.0 < limit));
    }
    assert_eq!(parameters[3], vec![Real(0.0), Real(0.0)]);
}

#[test]
fn dense_layer_new_forwards_a_batch() {
    let mut layer: DenseLayer<Real> =
        DenseLayer::new(4, 3, sgd(), sgd(), Initializers::Uniform, Initializers::Uniform).unwrap();
    let input = Matrix::constant(4, 5, Real(1.0));
    let output = layer.forward(input).unwrap();
    assert_eq!(output.dim(), (3, 5));
    let values = entries(&output);
    assert!(values.iter().all(|v| 0.0 <= *v && *v < 5.0));
    let gradient = layer.backward(0, Matrix::constant(3, 5, Real(0.1))).unwrap();
    assert_eq!(gradient.dim(), (4, 5));
}

#[test]
fn conv_layer_new_fills_its_kernels() {
    let layer: DirectConvLayer<Real> = DirectConvLayer::new(
        6,
        5,
        2,
        3,
        2,
        4,
        conv_sgd(),
        conv_momentum(),
        Initializers::UniformSigned,
        Initializers::Zeros,
    )
    .unwrap();
    let kernels = layer.kernels();
    assert_eq!(kernels.image_dims(), (3, 2, 2));
    assert_eq!(kernels.samples(), 4);
    assert!(image_entries(&kernels).iter().all(|v| -1.0 <= *v && *v < 1.0));
    assert!(image_entries(&kernels).iter().any(|v| *v != 0.0));
    let biases = layer.biases();
    assert_eq!(biases.image_dims(), (4, 4, 4));
    assert_eq!(biases.samples(), 1);
    assert!(image_entries(&biases).iter().all(|v| *v == 0.0));
}

#[test]
fn conv_layer_new_refuses_kernels_that_do_not_fit() {
    let too_tall: Result<DirectConvLayer<Real>, _> = DirectConvLayer::new(
        3,
        3,
        1,
        4,
        2,
        1,
        conv_sgd(),
        conv_sgd(),
        Initializers::Uniform,
        Initializers::Zeros,
    );
    assert!(too_tall.is_err());
    let no_entry: Result<DirectConvLayer<Real>, _> = DirectConvLayer::new(
        3,
        3,
        1,
        0,
        2,
        1,
        conv_sgd(),
        conv_sgd(),
        Initializers::Uniform,
        Initializers::Zeros,
    );
    assert!(no_entry.is_err());
}
