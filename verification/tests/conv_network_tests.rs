use jiro_nn::error::Error;
use jiro_nn::layer::activation_layer::{Activation, ActivationLayer};
use jiro_nn::layer::dense_layer::DenseLayer;
use jiro_nn::learning_rate::LearningRateSchedule;
use jiro_nn::linalg::Matrix;
use jiro_nn::loss::Losses;
use jiro_nn::network::{Network, NetworkLayer};
use jiro_nn::optimizer::sgd::SGD;
use jiro_nn::optimizer::Optimizers;
use jiro_nn::scalar::Scalar;
use jiro_nn::vision::conv_activation::ConvActivationLayer;
use jiro_nn::vision::conv_layer::avg_pooling_layer::AvgPoolingLayer;
use jiro_nn::vision::conv_layer::direct_conv_layer::DirectConvLayer;
use jiro_nn::vision::conv_layer::max_pooling_layer::MaxPoolingLayer;
use jiro_nn::vision::conv_network::{ConvNetwork, ConvNetworkLayer};
use jiro_nn::vision::conv_optimizer::sgd::ConvSGD;
use jiro_nn::vision::conv_optimizer::ConvOptimizers;
use jiro_nn::vision::image::Image;

#[derive(Clone, Copy, Debug, PartialEq)]
struct Real(f64);

impl Scalar for Real {
    fn zero() -> Self {
        Real(0.0)
    }

    fn one() -> Self {
        Real(1.0)
    }

    fn from_count(n: usize) -> Self {
        Real(n as f64)
    }

    fn to_count(self) -> usize {
        self.0 as usize
    }

    fn add(self, rhs: Self) -> Self {
        Real(self.0 + rhs.0)
    }

    fn sub(self, rhs: Self) -> Self {
        Real(self.0 - rhs.0)
    }

    fn mul(self, rhs: Self) -> Self {
        Real(self.0 * rhs.0)
    }

    fn div(self, rhs: Self) -> Self {
        Real(self.0 / rhs.0)
    }

    fn sqrt(self) -> Self {
        Real(self.0.sqrt())
    }

    fn exp(self) -> Self {
        Real(self.0.exp())
    }

    fn lt(self, rhs: Self) -> bool {
        self.0 < rhs.0
    }

    fn is_finite(self) -> bool {
        self.0.is_finite()
    }

    fn equals(self, rhs: Self) -> bool {
        self.0 == rhs.0
    }

    fn from_text(text: &str) -> Option<Self> {
        text.parse::<f64>().ok().map(Real)
    }
}

fn conv_sgd(rate: f64) -> ConvOptimizers<Real> {
    ConvOptimizers::SGD(ConvSGD::new(LearningRateSchedule::Constant(Real(rate))))
}

fn sgd(rate: f64) -> Optimizers<Real> {
    Optimizers::SGD(SGD::with_const_lr(Real(rate)))
}

/// Images of 4 x 4 in one channel; two kernels of 3 x 3; then a pooling of 2 x 2: two
/// numbers for each sample.
fn conv_part(seed: usize, rate: f64, largest: bool) -> ConvNetwork<Real> {
    let kernels: Image<Real> = Image::from_fn(3, 3, 1, 2, |c: usize, r: usize, _ch: usize, f: usize| {
        Real((((seed + 3 * r + 5 * c + 7 * f) % 11) as f64 - 5.0) * 0.05)
    });
    let biases: Image<Real> =
        Image::from_fn(2, 2, 2, 1, |c: usize, r: usize, ch: usize, _s: usize| Real(0.01 * (seed + r + c + ch) as f64));
    let direct = DirectConvLayer::from_parameters(kernels, biases, conv_sgd(rate), conv_sgd(rate)).unwrap();
    let pooling = if largest {
        ConvNetworkLayer::MaxPooling(MaxPoolingLayer::new(2))
    } else {
        ConvNetworkLayer::AvgPooling(AvgPoolingLayer::new(2))
    };
    ConvNetwork::new(
        vec![
            ConvNetworkLayer::Direct(direct),
            ConvNetworkLayer::Activation(ConvActivationLayer::new(Activation::Tanh)),
            pooling,
        ],
        1,
    )
}

fn network(seed: usize, rate: f64, largest: bool) -> Network<Real> {
    let weights: Matrix<Real> =
        Matrix::from_fn(1, 2, |_r: usize, c: usize| Real(0.3 - 0.2 * ((seed + c) % 3) as f64));
    let biases: Matrix<Real> = Matrix::constant(1, 1, Real(0.1 * (seed % 2) as f64));
    Network::new(vec![
        NetworkLayer::Conv(conv_part(seed, rate, largest)),
        NetworkLayer::Dense(DenseLayer::from_parameters(weights, biases, sgd(rate), sgd(rate)).unwrap()),
        NetworkLayer::Activation(ActivationLayer::new(Activation::Linear)),
    ])
}

/// Images that are bright on the left or on the right, and which side it is.
fn sides() -> (Vec<Vec<Real>>, Vec<Vec<Real>>) {
    let mut x = vec![];
    let mut y = vec![];
    for i in 0..8 {
        let right = i % 2 == 1;
        let image: Vec<Real> = (0..16)
            .map(|p| {
                let column = p / 4;
                let bright = if right { column >= 2 } else { column < 2 };
                Real(if bright { 1.0 } else { 0.0 } + 0.01 * ((i + p) % 5) as f64)
            })
            .collect();
        x.push(image);
        y.push(vec![Real(if right { 1.0 } else { -1.0 })]);
    }
    (x, y)
}

#[test]
fn an_image_network_is_a_layer_on_matrices() {
    let mut part = conv_part(1, 0.1, false);
    assert_eq!(part.channels(), 1);
    let input: Matrix<Real> = Matrix::from_fn(16, 3, |r: usize, c: usize| Real((r + c) as f64 * 0.1));
    assert_eq!(part.backward(0, Matrix::zeros(2, 3)).err(), Some(Error::UninitializedState));
    let output = part.forward(input).unwrap();
    assert_eq!(output.dim(), (2, 3));
    let back = part.backward(0, Matrix::constant(2, 3, Real(0.5))).unwrap();
    assert_eq!(back.dim(), (16, 3));
    assert_eq!(part.backward(0, Matrix::zeros(3, 3)).err(), Some(Error::ShapeMismatch));
    assert_eq!(part.backward(0, Matrix::zeros(2, 2)).err(), Some(Error::ShapeMismatch));
    assert_eq!(part.forward(Matrix::zeros(15, 3)).err(), Some(Error::ShapeMismatch));
    assert_eq!(part.forward(Matrix::zeros(9, 3)).err(), Some(Error::ShapeMismatch));
    let image_output = part.forward_image(Image::zeros(4, 4, 1, 5)).unwrap();
    assert_eq!(image_output.image_dims(), (1, 1, 2));
    assert_eq!(image_output.samples(), 5);
    let image_back = part.backward_image(0, Image::zeros(1, 1, 2, 5)).unwrap();
    assert_eq!(image_back.image_dims(), (4, 4, 1));
}

#[test]
fn a_network_with_an_image_part_learns() {
    for largest in [false, true] {
        let (x, y) = sides();
        let mut trained = network(2, 0.05, largest);
        let loss = Losses::MSE.to_loss();
        let first = trained.train(0, &x, &y, &loss, 4).unwrap().0;
        let mut last = first;
        for epoch in 1..200 {
            last = trained.train(epoch, &x, &y, &loss, 4).unwrap().0;
        }
        assert!(last < first * 0.1, "from {} to {}", first, last);
        let left = trained.predict(&x[0]).unwrap()[0].0;
        let right = trained.predict(&x[1]).unwrap()[0].0;
        assert!(left < 0.0 && right > 0.0, "{} and {}", left, right);
    }
}

#[test]
fn parameters_of_an_image_part_round_trip() {
    let (x, y) = sides();
    let mut trained = network(2, 0.05, false);
    for epoch in 0..5 {
        trained.train(epoch, &x, &y, &Losses::MSE.to_loss(), 8).unwrap();
    }
    let params = trained.get_params();
    // One entry for the image part: two kernels and the biases; one for the dense layer.
    assert_eq!(params.0.len(), 2);
    assert_eq!(params.0[0].len(), 3);
    assert_eq!(params.0[0][0].len(), 9);
    assert_eq!(params.0[0][2].len(), 8);
    assert_eq!(params.0[1].len(), 3);
    let mut fresh = network(9, 0.05, false);
    assert_ne!(fresh.predict(&x[3]).unwrap(), trained.predict(&x[3]).unwrap());
    fresh.load_params(&params).unwrap();
    for sample in &x {
        assert_eq!(fresh.predict(sample).unwrap(), trained.predict(sample).unwrap());
    }
    assert_eq!(fresh.get_params().0, params.0);

    let mut short = params.clone();
    short.0[0][1].pop();
    assert_eq!(fresh.load_params(&short).err(), Some(Error::ParameterCountMismatch));
    let mut fewer = params.clone();
    fewer.0[0].remove(0);
    assert_eq!(fresh.load_params(&fewer).err(), Some(Error::ParameterCountMismatch));
    assert_eq!(fresh.get_params().0, params.0);

    let mut part = conv_part(4, 0.1, true);
    let own = part.get_learnable_parameters();
    assert_eq!(own.len(), 3);
    assert!(part.accepts_parameters(&own));
    assert!(!part.accepts_parameters(&own[..2].to_vec()));
    part.set_learnable_parameters(&params.0[0]).unwrap();
    assert_eq!(part.get_learnable_parameters(), params.0[0]);
}
