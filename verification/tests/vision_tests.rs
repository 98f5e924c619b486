use jiro_nn::error::Error;
use jiro_nn::layer::activation_layer::Activation;
use jiro_nn::learning_rate::LearningRateSchedule;
use jiro_nn::linalg::Matrix;
use jiro_nn::scalar::Scalar;
use jiro_nn::vision::conv_activation::linear;
use jiro_nn::vision::conv_activation::ConvActivationLayer;
use jiro_nn::vision::conv_layer::avg_pooling_layer::AvgPoolingLayer;
use jiro_nn::vision::conv_layer::direct_conv_layer::DirectConvLayer;
use jiro_nn::vision::conv_layer::max_pooling_layer::MaxPoolingLayer;
use jiro_nn::vision::conv_optimizer::momentum::ConvMomentum;
use jiro_nn::vision::conv_optimizer::sgd::ConvSGD;
use jiro_nn::vision::conv_optimizer::{conv_momentum, conv_sgd, ConvOptimizers};
use jiro_nn::vision::image::Image;
use jiro_nn::vision::pooling::{avg_pool, avg_unpool, max_pool, max_unpool};

#[derive(Clone, Copy, Debug, PartialEq)]
struct Real(f64);

impl Scalar for Real {
    fn zero() -> Self {
        Real(0.0)
    }

    fn one() -> Self {
        Real(1.0)
    }

    fn from_count(n: usize) -> Self {
        Real(n as f64)
    }

    fn to_count(self) -> usize {
        self.0 as usize
    }

    fn add(self, rhs: Self) -> Self {
        Real(self.0 + rhs.0)
    }

    fn sub(self, rhs: Self) -> Self {
        Real(self.0 - rhs.0)
    }

    fn mul(self, rhs: Self) -> Self {
        Real(self.0 * rhs.0)
    }

    fn div(self, rhs: Self) -> Self {
        Real(self.0 / rhs.0)
    }

    fn sqrt(self) -> Self {
        Real(self.0.sqrt())
    }

    fn exp(self) -> Self {
        Real(self.0.exp())
    }

    fn lt(self, rhs: Self) -> bool {
        self.0 < rhs.0
    }

    fn is_finite(self) -> bool {
        self.0.is_finite()
    }

    fn equals(self, rhs: Self) -> bool {
        self.0 == rhs.0
    }

    fn from_text(text: &str) -> Option<Self> {
        text.parse::<f64>().ok().map(Real)
    }
}

/// A plane given row by row, as it is read.
fn plane(rows: &[&[f64]]) -> Matrix<Real> {
    let rows: Vec<Vec<Real>> = rows.iter().map(|row| row.iter().map(|v| Real(*v)).collect()).collect();
    Matrix::from_row_leading_vector2(&rows).unwrap()
}

/// The rows of a plane.
fn rows(plane: &Matrix<Real>) -> Vec<Vec<f64>> {
    plane.get_data_row_leading().iter().map(|row| row.iter().map(|v| v.0).collect()).collect()
}

fn image(nrow: usize, ncol: usize, nchan: usize, samples: Vec<Vec<Matrix<Real>>>) -> Image<Real> {
    Image::from_planes(nrow, ncol, nchan, samples).unwrap()
}

fn planes(image: &Image<Real>) -> Vec<Vec<Vec<Vec<f64>>>> {
    image.get_planes().iter().map(|sample| sample.iter().map(rows).collect()).collect()
}

fn sgd(rate: f64) -> ConvOptimizers<Real> {
    ConvOptimizers::SGD(ConvSGD::new(LearningRateSchedule::Constant(Real(rate))))
}

#[test]
fn cross_correlation_slides_the_kernel_unflipped() {
    let signal = plane(&[&[1.0, 2.0, 3.0], &[4.0, 5.0, 6.0], &[7.0, 8.0, 9.0]]);
    let kernel = plane(&[&[1.0, 0.0], &[0.0, 10.0]]);
    let correlated = signal.cross_correlate(&kernel).unwrap();
    assert_eq!(correlated.dim(), (2, 2));
    assert_eq!(rows(&correlated), vec![vec![51.0, 62.0], vec![84.0, 95.0]]);
    let wide = plane(&[&[1.0, 1.0, 1.0, 1.0]]);
    assert_eq!(signal.cross_correlate(&wide).err(), Some(Error::ShapeMismatch));
    let empty: Matrix<Real> = Matrix::zeros(0, 1);
    assert_eq!(signal.cross_correlate(&empty).err(), Some(Error::ShapeMismatch));
    let same = signal.cross_correlate(&signal).unwrap();
    assert_eq!(rows(&same), vec![vec![285.0]]);
}

#[test]
fn full_convolution_pads_and_flips() {
    let signal = plane(&[&[1.0, 2.0], &[3.0, 4.0]]);
    let kernel = plane(&[&[1.0, 10.0], &[100.0, 1000.0]]);
    let convolved = signal.convolve_full(&kernel).unwrap();
    assert_eq!(convolved.dim(), (3, 3));
    assert_eq!(
        rows(&convolved),
        vec![vec![1.0, 12.0, 20.0], vec![103.0, 1234.0, 2040.0], vec![300.0, 3400.0, 4000.0]]
    );
    assert_eq!(rows(&kernel.flipped()), vec![vec![1000.0, 100.0], vec![10.0, 1.0]]);
    let empty: Matrix<Real> = Matrix::zeros(1, 0);
    assert_eq!(signal.convolve_full(&empty).err(), Some(Error::ShapeMismatch));
}

#[test]
fn planes_are_summed_entry_by_entry() {
    let a = plane(&[&[1.0, 2.0]]);
    let b = plane(&[&[10.0, 20.0]]);
    let c = plane(&[&[100.0, 200.0]]);
    let total = Matrix::sum_of(1, 2, &vec![a, b, c]).unwrap();
    assert_eq!(rows(&total), vec![vec![111.0, 222.0]]);
    let none: Matrix<Real> = Matrix::sum_of(2, 1, &vec![]).unwrap();
    assert_eq!(rows(&none), vec![vec![0.0], vec![0.0]]);
    let other = plane(&[&[1.0], &[2.0]]);
    assert_eq!(Matrix::sum_of(1, 2, &vec![other]).err(), Some(Error::ShapeMismatch));
}

#[test]
fn average_pooling_takes_the_mean_of_each_window() {
    let input = plane(&[
        &[1.0, 2.0, 3.0, 4.0, 9.0],
        &[5.0, 6.0, 7.0, 8.0, 9.0],
        &[1.0, 1.0, 2.0, 2.0, 9.0],
        &[1.0, 1.0, 2.0, 2.0, 9.0],
    ]);
    let pooled = avg_pool(&input, 2).unwrap();
    assert_eq!(pooled.dim(), (2, 2));
    assert_eq!(rows(&pooled), vec![vec![3.5, 5.5], vec![1.0, 2.0]]);
    assert_eq!(avg_pool(&input, 0).err(), Some(Error::ShapeMismatch));
    assert_eq!(rows(&avg_pool(&input, 1).unwrap()), rows(&input));
    assert_eq!(avg_pool(&input, 5).unwrap().dim(), (0, 1));
}

#[test]
fn average_pooling_spreads_a_unit_gradient_in_quarters() {
    for (hot_row, hot_col) in [(0usize, 0usize), (0, 1), (1, 0), (1, 1)] {
        let gradient: Matrix<Real> =
            Matrix::from_fn(2, 2, |r: usize, c: usize| if r == hot_row && c == hot_col { Real(1.0) } else { Real(0.0) });
        let spread = avg_unpool(&gradient, 2, 4, 4).unwrap();
        assert_eq!(spread.dim(), (4, 4));
        let values = rows(&spread);
        for r in 0..4 {
            for c in 0..4 {
                let inside = r / 2 == hot_row && c / 2 == hot_col;
                assert_eq!(values[r][c], if inside { 0.25 } else { 0.0 });
            }
        }
    }
    // Rows and columns in no window get nothing.
    let gradient: Matrix<Real> = Matrix::constant(1, 1, Real(8.0));
    let spread = avg_unpool(&gradient, 2, 3, 3).unwrap();
    assert_eq!(rows(&spread), vec![vec![2.0, 2.0, 0.0], vec![2.0, 2.0, 0.0], vec![0.0, 0.0, 0.0]]);
    assert_eq!(avg_unpool(&gradient, 0, 3, 3).err(), Some(Error::ShapeMismatch));
}

#[test]
fn max_pooling_routes_the_gradient_to_the_largest_entry() {
    let input = plane(&[
        &[1.0, 2.0, 3.0, 4.0],
        &[5.0, 6.0, 8.0, 7.0],
        &[9.0, 1.0, 2.0, 2.0],
        &[1.0, 1.0, 2.0, 2.0],
    ]);
    let (pooled, places) = max_pool(&input, 2).unwrap();
    assert_eq!(rows(&pooled), vec![vec![6.0, 8.0], vec![9.0, 2.0]]);
    // Kept column by column: the place is (row, column) in the input. Of equal entries the
    // first one counts, columns left to right and each column top to bottom.
    assert_eq!(places, vec![vec![(1, 1), (2, 0)], vec![(1, 2), (2, 2)]]);
    let gradient = plane(&[&[10.0, 20.0], &[30.0, 40.0]]);
    let routed = max_unpool(&gradient, &places, 2, 4, 4).unwrap();
    assert_eq!(
        rows(&routed),
        vec![
            vec![0.0, 0.0, 0.0, 0.0],
            vec![0.0, 10.0, 20.0, 0.0],
            vec![30.0, 0.0, 40.0, 0.0],
            vec![0.0, 0.0, 0.0, 0.0]
        ]
    );
    let unit = plane(&[&[0.0, 1.0], &[0.0, 0.0]]);
    let single = rows(&max_unpool(&unit, &places, 2, 4, 4).unwrap());
    let total: f64 = single.iter().flatten().sum();
    assert_eq!(total, 1.0);
    assert_eq!(single[1][2], 1.0);
    assert_eq!(max_pool(&input, 0).err(), Some(Error::ShapeMismatch));
    assert_eq!(max_unpool(&gradient, &places, 0, 4, 4).err(), Some(Error::ShapeMismatch));
    assert_eq!(max_unpool(&gradient, &vec![], 2, 4, 4).err(), Some(Error::ShapeMismatch));
}

#[test]
fn images_are_built_and_read_entry_by_entry() {
    let built: Image<Real> = Image::from_fn(2, 3, 2, 2, |c: usize, r: usize, ch: usize, s: usize| {
        Real((1000 * s + 100 * ch + 10 * r + c) as f64)
    });
    assert_eq!(built.image_dims(), (2, 3, 2));
    assert_eq!(built.channels(), 2);
    assert_eq!(built.samples(), 2);
    assert_eq!(built.get(1, 2, 1, 1), Some(Real(1112.0)));
    assert_eq!(built.get(0, 1, 0, 1), Some(Real(1001.0)));
    assert_eq!(built.get(2, 0, 0, 0), None);
    assert_eq!(built.get(0, 3, 0, 0), None);
    assert_eq!(built.get(0, 0, 2, 0), None);
    assert_eq!(built.get(0, 0, 0, 2), None);
    assert_eq!(planes(&built)[1][0], vec![vec![1000.0, 1001.0, 1002.0], vec![1010.0, 1011.0, 1012.0]]);
    let constant = Image::constant(1, 2, 1, 2, Real(3.0));
    assert_eq!(planes(&constant), vec![vec![vec![vec![3.0, 3.0]]], vec![vec![vec![3.0, 3.0]]]]);
    let zeros: Image<Real> = Image::zeros(1, 1, 2, 1);
    assert_eq!(planes(&zeros), vec![vec![vec![vec![0.0]], vec![vec![0.0]]]]);
    assert_eq!(planes(&built.clone()), planes(&built));
    let ragged = Image::from_planes(1, 1, 2, vec![vec![plane(&[&[1.0]])]]);
    assert_eq!(ragged.err(), Some(Error::ShapeMismatch));
    let misshapen = Image::from_planes(1, 1, 1, vec![vec![plane(&[&[1.0, 2.0]])]]);
    assert_eq!(misshapen.err(), Some(Error::ShapeMismatch));
}

#[test]
fn images_combine_with_sample_broadcast() {
    let two = image(1, 2, 1, vec![vec![plane(&[&[1.0, 2.0]])], vec![plane(&[&[3.0, 4.0]])]]);
    let one = image(1, 2, 1, vec![vec![plane(&[&[10.0, 20.0]])]]);
    assert_eq!(
        planes(&two.component_add(&one).unwrap()),
        vec![vec![vec![vec![11.0, 22.0]]], vec![vec![vec![13.0, 24.0]]]]
    );
    assert_eq!(
        planes(&one.component_sub(&two).unwrap()),
        vec![vec![vec![vec![9.0, 18.0]]], vec![vec![vec![7.0, 16.0]]]]
    );
    assert_eq!(planes(&two.component_mul(&two).unwrap())[1], vec![vec![vec![9.0, 16.0]]]);
    assert_eq!(planes(&two.component_div(&one).unwrap())[0], vec![vec![vec![0.1, 0.1]]]);
    assert_eq!(planes(&two.maxof(&one).unwrap())[0], vec![vec![vec![10.0, 20.0]]]);
    assert_eq!(planes(&two.minof(&one).unwrap())[1], vec![vec![vec![3.0, 4.0]]]);
    let three = image(1, 2, 1, vec![vec![plane(&[&[1.0, 2.0]])], vec![plane(&[&[1.0, 2.0]])], vec![plane(&[&[1.0, 2.0]])]]);
    assert_eq!(two.component_add(&three).err(), Some(Error::ShapeMismatch));
    let other: Image<Real> = Image::zeros(2, 1, 1, 1);
    assert_eq!(two.component_add(&other).err(), Some(Error::ShapeMismatch));
    assert_eq!(planes(&two.scalar_add(Real(1.0)))[0], vec![vec![vec![2.0, 3.0]]]);
    assert_eq!(planes(&two.scalar_sub(Real(1.0)))[0], vec![vec![vec![0.0, 1.0]]]);
    assert_eq!(planes(&two.scalar_mul(Real(2.0)))[1], vec![vec![vec![6.0, 8.0]]]);
    assert_eq!(planes(&two.scalar_div(Real(2.0)))[1], vec![vec![vec![1.5, 2.0]]]);
    assert_eq!(planes(&two.square())[1], vec![vec![vec![9.0, 16.0]]]);
    assert_eq!(planes(&two.square().sqrt())[1], vec![vec![vec![3.0, 4.0]]]);
    assert_eq!(planes(&Image::<Real>::zeros(1, 1, 1, 1).exp()), vec![vec![vec![vec![1.0]]]]);
    assert_eq!(planes(&two.sum_samples()), vec![vec![vec![vec![4.0, 6.0]]]]);
    let exchanged = two.exchanged();
    assert_eq!(exchanged.image_dims(), (1, 2, 2));
    assert_eq!(exchanged.samples(), 1);
    assert_eq!(planes(&exchanged), vec![vec![vec![vec![1.0, 2.0]], vec![vec![3.0, 4.0]]]]);
}

#[test]
fn image_correlation_sums_over_the_channels() {
    // One sample of two channels, two kernels of two channels.
    let input = image(
        2,
        2,
        2,
        vec![vec![plane(&[&[1.0, 2.0], &[3.0, 4.0]]), plane(&[&[10.0, 20.0], &[30.0, 40.0]])]],
    );
    let kernels = image(
        1,
        1,
        2,
        vec![vec![plane(&[&[1.0]]), plane(&[&[1.0]])], vec![plane(&[&[2.0]]), plane(&[&[0.0]])]],
    );
    let correlated = input.cross_correlate(&kernels).unwrap();
    assert_eq!(correlated.image_dims(), (2, 2, 2));
    assert_eq!(correlated.samples(), 1);
    assert_eq!(
        planes(&correlated),
        vec![vec![vec![vec![11.0, 22.0], vec![33.0, 44.0]], vec![vec![2.0, 4.0], vec![6.0, 8.0]]]]
    );
    let one_channel: Image<Real> = Image::zeros(1, 1, 1, 1);
    assert_eq!(input.cross_correlate(&one_channel).err(), Some(Error::ShapeMismatch));
    assert_eq!(input.convolve_full(&one_channel).err(), Some(Error::ShapeMismatch));
    let large: Image<Real> = Image::zeros(3, 1, 2, 1);
    assert_eq!(input.cross_correlate(&large).err(), Some(Error::ShapeMismatch));
    let spread = input.convolve_full(&large).unwrap();
    assert_eq!(spread.image_dims(), (4, 2, 1));
    let convolved = input.convolve_full(&kernels).unwrap();
    assert_eq!(planes(&convolved), planes(&correlated));
}

#[test]
fn image_pooling_works_plane_by_plane() {
    let input = image(
        2,
        2,
        2,
        vec![vec![plane(&[&[1.0, 2.0], &[3.0, 4.0]]), plane(&[&[8.0, 6.0], &[4.0, 2.0]])]],
    );
    let mean = input.avg_pool(2).unwrap();
    assert_eq!(planes(&mean), vec![vec![vec![vec![2.5]], vec![vec![5.0]]]]);
    let (largest, places) = input.max_pool(2).unwrap();
    assert_eq!(planes(&largest), vec![vec![vec![vec![4.0]], vec![vec![8.0]]]]);
    assert_eq!(places, vec![vec![vec![vec![(1, 1)]], vec![vec![(0, 0)]]]]);
    let gradient = image(1, 1, 2, vec![vec![plane(&[&[1.0]]), plane(&[&[2.0]])]]);
    assert_eq!(
        planes(&gradient.avg_unpool(2, 2, 2).unwrap()),
        vec![vec![vec![vec![0.25, 0.25], vec![0.25, 0.25]], vec![vec![0.5, 0.5], vec![0.5, 0.5]]]]
    );
    assert_eq!(
        planes(&gradient.max_unpool(&places, 2, 2, 2).unwrap()),
        vec![vec![vec![vec![0.0, 0.0], vec![0.0, 1.0]], vec![vec![2.0, 0.0], vec![0.0, 0.0]]]]
    );
    assert_eq!(input.avg_pool(0).err(), Some(Error::ShapeMismatch));
    assert_eq!(input.max_pool(0).err(), Some(Error::ShapeMismatch));
    assert_eq!(gradient.max_unpool(&vec![], 2, 2, 2).err(), Some(Error::ShapeMismatch));
}

#[test]
fn pooling_layers_remember_what_the_backward_pass_needs() {
    let input = image(2, 2, 1, vec![vec![plane(&[&[1.0, 2.0], &[3.0, 4.0]])], vec![plane(&[&[4.0, 3.0], &[2.0, 1.0]])]]);
    let gradient = image(1, 1, 1, vec![vec![plane(&[&[1.0]])], vec![plane(&[&[1.0]])]]);

    let mut average = AvgPoolingLayer::new(2);
    assert_eq!(average.backward(0, gradient.clone()).err(), Some(Error::UninitializedState));
    let pooled = average.forward(input.clone()).unwrap();
    assert_eq!(planes(&pooled), vec![vec![vec![vec![2.5]]], vec![vec![vec![2.5]]]]);
    assert_eq!(average.input_dims, Some((2, 2, 1, 2)));
    let back = average.backward(0, gradient.clone()).unwrap();
    assert_eq!(planes(&back)[0], vec![vec![vec![0.25, 0.25], vec![0.25, 0.25]]]);
    assert_eq!(average.backward(0, input.clone()).err(), Some(Error::ShapeMismatch));
    assert_eq!(AvgPoolingLayer::new(0).forward(input.clone()).err(), Some(Error::ShapeMismatch));

    let mut largest = MaxPoolingLayer::new(2);
    assert_eq!(largest.backward(0, gradient.clone()).err(), Some(Error::UninitializedState));
    let pooled = largest.forward(input.clone()).unwrap();
    assert_eq!(planes(&pooled), vec![vec![vec![vec![4.0]]], vec![vec![vec![4.0]]]]);
    let back = largest.backward(0, gradient.clone()).unwrap();
    assert_eq!(
        planes(&back),
        vec![vec![vec![vec![0.0, 0.0], vec![0.0, 1.0]]], vec![vec![vec![1.0, 0.0], vec![0.0, 0.0]]]]
    );
    assert_eq!(largest.backward(0, input.clone()).err(), Some(Error::ShapeMismatch));
    assert_eq!(MaxPoolingLayer::new(0).forward(input).err(), Some(Error::ShapeMismatch));
}

#[test]
fn image_activation_layers_apply_function_and_slope() {
    let input = image(1, 2, 1, vec![vec![plane(&[&[-1.0, 2.0]])]]);
    let mut identity: ConvActivationLayer<Real> = linear::new();
    assert_eq!(identity.backward(0, input.clone()).err(), Some(Error::UninitializedState));
    assert_eq!(planes(&identity.forward(input.clone())), planes(&input));
    let gradient = image(1, 2, 1, vec![vec![plane(&[&[5.0, 6.0]])]]);
    assert_eq!(planes(&identity.backward(0, gradient.clone()).unwrap()), planes(&gradient));
    let mut relu: ConvActivationLayer<Real> = ConvActivationLayer::new(Activation::ReLU);
    assert_eq!(planes(&relu.forward(input.clone())), vec![vec![vec![vec![0.0, 2.0]]]]);
    assert_eq!(planes(&relu.backward(0, gradient).unwrap()), vec![vec![vec![vec![0.0, 6.0]]]]);
    let other: Image<Real> = Image::zeros(2, 1, 1, 1);
    assert_eq!(relu.backward(0, other).err(), Some(Error::ShapeMismatch));
}

#[test]
fn image_optimizers_step_against_the_gradient() {
    let parameters = image(1, 2, 1, vec![vec![plane(&[&[10.0, 10.0]])]]);
    let gradient = image(1, 2, 1, vec![vec![plane(&[&[2.0, 4.0]])]]);
    let mut plain = ConvSGD::new(LearningRateSchedule::Constant(Real(0.5)));
    assert_eq!(planes(&plain.update_parameters(0, &parameters, &gradient).unwrap()), vec![vec![vec![vec![9.0, 8.0]]]]);
    let mut heavy = ConvMomentum::new(LearningRateSchedule::Constant(Real(0.5)), Real(0.5));
    let first = heavy.update_parameters(0, &parameters, &gradient).unwrap();
    assert_eq!(planes(&first), vec![vec![vec![vec![9.0, 8.0]]]]);
    let second = heavy.update_parameters(1, &first, &gradient).unwrap();
    assert_eq!(planes(&second), vec![vec![vec![vec![7.5, 5.0]]]]);
    assert!(heavy.fits(&parameters));
    let other: Image<Real> = Image::zeros(1, 1, 1, 1);
    assert!(!heavy.fits(&other));
    assert_eq!(heavy.update_parameters(2, &other, &other).err(), Some(Error::ShapeMismatch));
    assert_eq!(plain.update_parameters(2, &parameters, &other).err(), Some(Error::ShapeMismatch));
    let mut default_plain: ConvOptimizers<Real> = conv_sgd();
    let stepped = default_plain.update_parameters(0, &parameters, &gradient).unwrap();
    assert_eq!(planes(&stepped)[0][0][0][0], 10.0 - 0.001 * 2.0);
    let mut default_heavy: ConvOptimizers<Real> = conv_momentum();
    let stepped = default_heavy.update_parameters(0, &parameters, &gradient).unwrap();
    assert_eq!(planes(&stepped)[0][0][0][1], 10.0 - 0.001 * 4.0);
    assert!(default_heavy.fits(&parameters) && !default_heavy.fits(&other));
    let mut default_momentum: ConvMomentum<Real> = ConvMomentum::default();
    let stepped = default_momentum.update_parameters(0, &parameters, &gradient).unwrap();
    assert_eq!(planes(&stepped)[0][0][0][0], 10.0 - 0.001 * 2.0);
}

fn conv_layer(rate: f64) -> DirectConvLayer<Real> {
    // Two kernels of 2 x 2 over two channels; inputs of 3 x 3, outputs of 2 x 2.
    let kernels: Image<Real> = Image::from_fn(2, 2, 2, 2, |c: usize, r: usize, ch: usize, f: usize| {
        Real(0.1 * (1 + r + 2 * c) as f64 - 0.15 * ch as f64 + 0.05 * f as f64)
    });
    let biases: Image<Real> =
        Image::from_fn(2, 2, 2, 1, |c: usize, r: usize, ch: usize, _s: usize| Real(0.01 * (r + c + ch) as f64));
    DirectConvLayer::from_parameters(kernels, biases, sgd(rate), sgd(rate)).unwrap()
}

fn conv_input() -> Image<Real> {
    Image::from_fn(3, 3, 2, 2, |c: usize, r: usize, ch: usize, s: usize| {
        Real(((r * 3 + c) as f64 * 0.1 - 0.3) * (1.0 + ch as f64) + 0.2 * s as f64)
    })
}

fn half_squares(layer: &mut DirectConvLayer<Real>, input: &Image<Real>) -> f64 {
    let output = layer.forward(input.clone()).unwrap();
    planes(&output).iter().flatten().flatten().flatten().map(|v| v * v / 2.0).sum()
}

#[test]
fn conv_layer_keeps_its_shapes() {
    let mut layer = conv_layer(0.1);
    let output = layer.forward(conv_input()).unwrap();
    assert_eq!(output.image_dims(), (2, 2, 2));
    assert_eq!(output.samples(), 2);
    let back = layer.backward(0, output).unwrap();
    assert_eq!(back.image_dims(), (3, 3, 2));
    assert_eq!(back.samples(), 2);
    assert_eq!(layer.kernels().image_dims(), (2, 2, 2));
    assert_eq!(layer.biases().samples(), 1);
}

#[test]
fn conv_layer_reports_misuse() {
    let mut layer = conv_layer(0.1);
    assert_eq!(layer.backward(0, conv_input()).err(), Some(Error::UninitializedState));
    assert_eq!(layer.forward(Image::zeros(4, 3, 2, 1)).err(), Some(Error::ShapeMismatch));
    assert_eq!(layer.forward(Image::zeros(3, 3, 1, 1)).err(), Some(Error::ShapeMismatch));
    layer.forward(conv_input()).unwrap();
    assert_eq!(layer.backward(0, Image::zeros(2, 2, 2, 1)).err(), Some(Error::ShapeMismatch));
    assert_eq!(layer.backward(0, Image::zeros(3, 3, 2, 2)).err(), Some(Error::ShapeMismatch));
    let kernels: Image<Real> = Image::zeros(2, 2, 1, 3);
    let biases: Image<Real> = Image::zeros(2, 2, 2, 1);
    assert!(DirectConvLayer::from_parameters(kernels, biases, sgd(0.1), sgd(0.1)).is_err());
    let kernels: Image<Real> = Image::zeros(2, 2, 1, 2);
    let biases: Image<Real> = Image::zeros(2, 2, 2, 2);
    assert!(DirectConvLayer::from_parameters(kernels, biases, sgd(0.1), sgd(0.1)).is_err());
}

#[test]
fn conv_layer_gradients_match_finite_differences() {
    // The loss is half the sum of the squares of the output, so that its gradient with
    // respect to the output is the output. With gradient descent at a rate of one, a step
    // changes each parameter by exactly its gradient.
    let input = conv_input();
    let mut layer = conv_layer(1.0);
    let output = layer.forward(input.clone()).unwrap();
    let kernels_before = planes(&layer.kernels());
    let biases_before = planes(&layer.biases());
    let input_gradient = planes(&layer.backward(0, output).unwrap());
    let kernels_after = planes(&layer.kernels());
    let biases_after = planes(&layer.biases());
    let h = 1e-6;
    for f in 0..2 {
        for ch in 0..2 {
            for r in 0..2 {
                for c in 0..2 {
                    let analytic = kernels_before[f][ch][r][c] - kernels_after[f][ch][r][c];
                    let nudged = |delta: f64| {
                        let kernels: Image<Real> = Image::from_fn(2, 2, 2, 2, |cc: usize, rr: usize, chh: usize, ff: usize| {
                            let base = kernels_before[ff][chh][rr][cc];
                            Real(if (ff, chh, rr, cc) == (f, ch, r, c) { base + delta } else { base })
                        });
                        let biases: Image<Real> = Image::from_fn(2, 2, 2, 1, |cc: usize, rr: usize, chh: usize, ss: usize| {
                            Real(biases_before[ss][chh][rr][cc])
                        });
                        let mut copy = DirectConvLayer::from_parameters(kernels, biases, sgd(1.0), sgd(1.0)).unwrap();
                        half_squares(&mut copy, &input)
                    };
                    let numeric = (nudged(h) - nudged(-h)) / (2.0 * h);
                    assert!((analytic - numeric).abs() < 1e-4, "kernel {} against {}", analytic, numeric);
                }
            }
        }
    }
    for ch in 0..2 {
        for r in 0..2 {
            for c in 0..2 {
                let analytic = biases_before[0][ch][r][c] - biases_after[0][ch][r][c];
                let nudged = |delta: f64| {
                    let kernels: Image<Real> = Image::from_fn(2, 2, 2, 2, |cc: usize, rr: usize, chh: usize, ff: usize| {
                        Real(kernels_before[ff][chh][rr][cc])
                    });
                    let biases: Image<Real> = Image::from_fn(2, 2, 2, 1, |cc: usize, rr: usize, chh: usize, ss: usize| {
                        let base = biases_before[ss][chh][rr][cc];
                        Real(if (chh, rr, cc) == (ch, r, c) { base + delta } else { base })
                    });
                    let mut copy = DirectConvLayer::from_parameters(kernels, biases, sgd(1.0), sgd(1.0)).unwrap();
                    half_squares(&mut copy, &input)
                };
                let numeric = (nudged(h) - nudged(-h)) / (2.0 * h);
                assert!((analytic - numeric).abs() < 1e-4, "bias {} against {}", analytic, numeric);
            }
        }
    }
    let input_values = planes(&input);
    for s in 0..2 {
        for ch in 0..2 {
            for r in 0..3 {
                for c in 0..3 {
                    let nudged = |delta: f64| {
                        let moved: Image<Real> = Image::from_fn(3, 3, 2, 2, |cc: usize, rr: usize, chh: usize, ss: usize| {
                            let base = input_values[ss][chh][rr][cc];
                            Real(if (ss, chh, rr, cc) == (s, ch, r, c) { base + delta } else { base })
                        });
                        let mut copy = conv_layer(1.0);
                        half_squares(&mut copy, &moved)
                    };
                    let numeric = (nudged(h) - nudged(-h)) / (2.0 * h);
                    let analytic = input_gradient[s][ch][r][c];
                    assert!((analytic - numeric).abs() < 1e-4, "input {} against {}", analytic, numeric);
                }
            }
        }
    }
}

fn counted(rows: usize, columns: usize) -> Matrix<Real> {
    Matrix::from_fn(rows, columns, |r: usize, c: usize| Real((100 * c + r) as f64))
}

#[test]
fn images_are_laid_out_channel_by_channel_and_column_by_column() {
    // Two samples of two channels of 2 x 2: eight entries in each column.
    let samples = counted(8, 2);
    let read = Image::from_samples(&samples, 2).unwrap();
    assert_eq!(read.image_dims(), (2, 2, 2));
    assert_eq!(read.samples(), 2);
    // Entry r of column c of channel ch is entry ch * 4 + c * 2 + r of the sample.
    assert_eq!(
        planes(&read)[1],
        vec![vec![vec![100.0, 102.0], vec![101.0, 103.0]], vec![vec![104.0, 106.0], vec![105.0, 107.0]]]
    );
    assert_eq!(read.get(1, 0, 1, 0), Some(Real(5.0)));
    let back = read.flatten();
    assert_eq!(back.dim(), (8, 2));
    assert_eq!(back.get_data_col_leading(), samples.get_data_col_leading());
    let oblong = Image::from_matrix(&counted(6, 1), 3, 2, 1).unwrap();
    assert_eq!(planes(&oblong), vec![vec![vec![vec![0.0, 3.0], vec![1.0, 4.0], vec![2.0, 5.0]]]]);
    assert_eq!(oblong.flatten().get_data_col_leading(), counted(6, 1).get_data_col_leading());
    let from_lists = Image::from_vectors(&counted(6, 2).get_data_col_leading(), 1, 3, 2).unwrap();
    assert_eq!(planes(&from_lists)[1], vec![vec![vec![100.0, 101.0, 102.0]], vec![vec![103.0, 104.0, 105.0]]]);
}

#[test]
fn matrices_that_hold_no_images_are_refused() {
    assert_eq!(Image::from_samples(&counted(8, 2), 0).err(), Some(Error::ShapeMismatch));
    assert_eq!(Image::from_samples(&counted(8, 2), 3).err(), Some(Error::ShapeMismatch));
    assert_eq!(Image::from_samples(&counted(8, 2), 1).err(), Some(Error::ShapeMismatch));
    assert_eq!(Image::from_samples(&counted(9, 1), 1).unwrap().image_dims(), (3, 3, 1));
    assert_eq!(Image::from_samples(&counted(0, 3), 2).unwrap().image_dims(), (0, 0, 2));
    assert_eq!(Image::from_matrix(&counted(6, 1), 2, 2, 1).err(), Some(Error::ShapeMismatch));
    assert_eq!(Image::from_matrix(&counted(6, 1), usize::MAX, 2, 1).err(), Some(Error::ShapeMismatch));
    assert_eq!(Image::from_matrix(&counted(0, 2), 5, 5, 0).unwrap().samples(), 2);
    assert_eq!(Image::from_matrix(&counted(1, 2), 5, 5, 0).err(), Some(Error::ShapeMismatch));
    let ragged = vec![vec![Real(1.0); 4], vec![Real(1.0); 3]];
    assert_eq!(Image::from_vectors(&ragged, 2, 2, 1).err(), Some(Error::ShapeMismatch));
    assert_eq!(jiro_nn::vision::image::side_of(49), Some(7));
    assert_eq!(jiro_nn::vision::image::side_of(50), None);
    assert_eq!(jiro_nn::vision::image::side_of(0), Some(0));
    assert_eq!(jiro_nn::vision::image::side_of(usize::MAX), None);
}
