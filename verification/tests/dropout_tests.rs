use jiro_nn::layer::activation_layer::{Activation, ActivationLayer};
use jiro_nn::layer::dense_layer::DenseLayer;
use jiro_nn::layer::dropout_layer::{draw, next_seed, DropoutLayer};
use jiro_nn::linalg::Matrix;
use jiro_nn::loss::Losses;
use jiro_nn::network::{Learnable, Network, NetworkLayer};
use jiro_nn::optimizer::sgd::SGD;
use jiro_nn::optimizer::Optimizers;
use jiro_nn::scalar::Scalar;

#[derive(Clone, Copy, Debug, PartialEq)]
struct Real(f64);

impl Scalar for Real {
    fn zero() -> Self {
        Real(0.0)
    }

    fn one() -> Self {
        Real(1.0)
    }

    fn from_count(n: usize) -> Self {
        Real(n as f64)
    }

    fn to_count(self) -> usize {
        self.0 as usize
    }

    fn add(self, rhs: Self) -> Self {
        Real(self.0 + rhs.0)
    }

    fn sub(self, rhs: Self) -> Self {
        Real(self.0 - rhs.0)
    }

    fn mul(self, rhs: Self) -> Self {
        Real(self.0 * rhs.0)
    }

    fn div(self, rhs: Self) -> Self {
        Real(self.0 / rhs.0)
    }

    fn sqrt(self) -> Self {
        Real(self.0.sqrt())
    }

    fn exp(self) -> Self {
        Real(self.0.exp())
    }

    fn lt(self, rhs: Self) -> bool {
        self.0 < rhs.0
    }

    fn is_finite(self) -> bool {
        self.0.is_finite()
    }

    fn equals(self, rhs: Self) -> bool {
        self.0 == rhs.0
    }

    fn from_text(text: &str) -> Option<Self> {
        text.parse::<f64>().ok().map(Real)
    }
}

fn reals(values: &[f64]) -> Vec<Real> {
    values.iter().map(|v| Real(*v)).collect()
}

fn entries(matrix: &Matrix<Real>) -> Vec<f64> {
    matrix.get_data_col_leading().into_iter().flatten().map(|v| v.0).collect()
}

fn dense(weights: &[&[f64]], biases: &[f64]) -> NetworkLayer<Real> {
    let columns: Vec<Vec<Real>> = weights.iter().map(|column| reals(column)).collect();
    let optimizer = || Optimizers::SGD(SGD::with_const_lr(Real(0.05)));
    NetworkLayer::Dense(
        DenseLayer::from_parameters(
            Matrix::from_column_leading_vector2(&columns).unwrap(),
            Matrix::from_column_vector(&reals(biases)),
            optimizer(),
            optimizer(),
        )
        .unwrap(),
    )
}

/// Two inputs, three hidden numbers, one output; with a layer that drops in the middle
/// where a rate is given.
fn network(dropout: Option<(f64, u64)>) -> Network<Real> {
    let mut layers = vec![dense(&[&[0.3, -0.2, 0.5], &[0.1, 0.4, -0.3]], &[0.0, 0.1, -0.1])];
    if let Some((rate, seed)) = dropout {
        layers.push(NetworkLayer::Dropout(DropoutLayer::new(Real(rate), seed)));
    }
    layers.push(dense(&[&[0.2], &[-0.4], &[0.6]], &[0.05]));
    layers.push(NetworkLayer::Activation(ActivationLayer::new(Activation::Linear)));
    Network::new(layers)
}

fn samples() -> (Vec<Vec<Real>>, Vec<Vec<Real>>) {
    let x: Vec<Vec<Real>> = (0..12).map(|i| reals(&[(i % 4) as f64 * 0.5, (i / 4) as f64 * 0.5])).collect();
    let y: Vec<Vec<Real>> = x.iter().map(|sample| vec![Real(sample[0].0 + sample[1].0)]).collect();
    (x, y)
}

#[test]
fn draws_mix_the_seed_with_the_place() {
    assert_eq!(draw(0, 0, 0), 0);
    assert_eq!(draw(1, 2, 3), 3425038502);
    assert_eq!(draw(42, 0, 1), 1864576724);
    assert_eq!(draw(u64::MAX, u64::MAX, u64::MAX), 3364842334);
    assert_ne!(draw(1, 2, 3), draw(1, 3, 2));
    assert_eq!(next_seed(0), 1442695040888963407);
    assert_eq!(next_seed(1), 7806831264735756412);
    assert_eq!(next_seed(u64::MAX), 13525302890751722018);
}

#[test]
fn a_disabled_layer_lets_everything_pass() {
    let mut layer = DropoutLayer::new(Real(0.5), 7);
    assert!(layer.enabled);
    layer.disable();
    assert!(!layer.enabled);
    let input = Matrix::from_column_leading_vector2(&vec![reals(&[1.0, -2.0]), reals(&[3.0, 4.0])]).unwrap();
    assert_eq!(entries(&layer.forward(input.clone())), vec![1.0, -2.0, 3.0, 4.0]);
    assert_eq!(entries(&layer.backward(0, input)), vec![1.0, -2.0, 3.0, 4.0]);
    layer.enable();
    assert!(layer.enabled);
    assert_eq!(layer.seed, 7);
}

#[test]
fn an_enabled_layer_drops_entries_or_scales_them() {
    let layer = DropoutLayer::new(Real(0.5), 7);
    let ones = Matrix::constant(100, 100, Real(1.0));
    let output = layer.forward(ones.clone());
    assert_eq!(output.dim(), (100, 100));
    let values = entries(&output);
    assert!(values.iter().all(|v| *v == 0.0 || *v == 2.0));
    assert_eq!(values.iter().filter(|v| **v == 0.0).count(), 5017);
    // Each entry goes by its own draw.
    for (r, c) in [(0usize, 0usize), (3, 5), (99, 99), (17, 0)] {
        let unit = (draw(7, r as u64, c as u64) >> 8) as f64 / 16777216.0;
        let expected = if unit < 0.5 { 0.0 } else { 2.0 };
        assert_eq!(output.index(r, c).unwrap().0, expected);
        assert_eq!(layer.factor(r, c).0, expected);
    }
    // The gradient passes where the entry passed.
    let gradient = Matrix::constant(100, 100, Real(3.0));
    let back = entries(&layer.backward(4, gradient));
    assert!(values.iter().zip(back.iter()).all(|(out, grad)| *grad == 3.0 * *out));
    // The same seed drops the same entries; another seed drops others.
    assert_eq!(entries(&DropoutLayer::new(Real(0.5), 7).forward(ones.clone())), values);
    assert_ne!(entries(&DropoutLayer::new(Real(0.5), 8).forward(ones.clone())), values);
    let mut renewed = DropoutLayer::new(Real(0.5), 7);
    renewed.reseed();
    assert_eq!(renewed.seed, next_seed(7));
    assert_ne!(entries(&renewed.forward(ones)), values);
}

#[test]
fn the_rate_gives_the_share_that_is_dropped() {
    let ones = Matrix::constant(50, 40, Real(1.0));
    let none = DropoutLayer::new(Real(0.0), 3).forward(ones.clone());
    assert!(entries(&none).iter().all(|v| *v == 1.0));
    let few = entries(&DropoutLayer::new(Real(0.2), 3).forward(ones.clone()));
    let dropped = few.iter().filter(|v| **v == 0.0).count();
    assert!(300 < dropped && dropped < 500);
    assert!(few.iter().all(|v| *v == 0.0 || *v == 1.0 / (1.0 - 0.2)));
    let mean = few.iter().sum::<f64>() / few.len() as f64;
    assert!((mean - 1.0).abs() < 0.05);
    let random: DropoutLayer<Real> = DropoutLayer::random(Real(0.25));
    assert!(random.enabled);
    assert_eq!(random.rate, Real(0.25));
    let other: DropoutLayer<Real> = DropoutLayer::random(Real(0.25));
    assert_ne!(random.seed, other.seed);
}

#[test]
fn predictions_are_made_without_dropping() {
    let mut dropping = network(Some((0.5, 11)));
    let mut plain = network(None);
    let sample = reals(&[0.7, -0.3]);
    // As the layers are, entries are dropped on the way forward.
    let input = Matrix::from_column_vector(&sample);
    let raw = dropping.forward(input.clone()).unwrap();
    let full = plain.forward(input.clone()).unwrap();
    assert_ne!(entries(&raw), entries(&full));
    // A prediction disables the dropping, for good.
    assert_eq!(dropping.predict(&sample).unwrap(), plain.predict(&sample).unwrap());
    assert_eq!(entries(&dropping.forward(input.clone()).unwrap()), entries(&full));
    dropping.enable_dropout();
    assert_eq!(entries(&dropping.forward(input.clone()).unwrap()), entries(&raw));
    dropping.reseed_dropout();
    dropping.disable_dropout();
    assert_eq!(entries(&dropping.forward(input).unwrap()), entries(&full));
    let (x, y) = samples();
    let loss = Losses::MSE.to_loss();
    dropping.enable_dropout();
    assert_eq!(dropping.predict_many(&x).unwrap(), plain.predict_many(&x).unwrap());
    dropping.enable_dropout();
    let evaluated = dropping.predict_evaluate_many(&x, &y, &loss).unwrap();
    assert_eq!(evaluated, plain.predict_evaluate_many(&x, &y, &loss).unwrap());
    dropping.enable_dropout();
    assert_eq!(
        dropping.predict_evaluate(x[3].clone(), y[3].clone(), &loss).unwrap(),
        plain.predict_evaluate(x[3].clone(), y[3].clone(), &loss).unwrap()
    );
    // The layers that drop hold no parameters.
    assert_eq!(dropping.get_params().0, plain.get_params().0);
    assert_eq!(dropping.get_params().0.len(), 2);
}

#[test]
fn training_drops_with_a_seed_for_each_batch() {
    let (x, y) = samples();
    let loss = Losses::MSE.to_loss();
    // A rate of zero drops nothing: training goes as without the layer.
    let mut none = network(Some((0.0, 5)));
    let mut plain = network(None);
    for epoch in 0..5 {
        let with = none.train(epoch, &x, &y, &loss, 4).unwrap();
        let without = plain.train(epoch, &x, &y, &loss, 4).unwrap();
        assert_eq!(with, without);
    }
    assert_eq!(none.get_params().0, plain.get_params().0);

    // Dropping changes what is learned; the same seed gives the same run, another seed
    // another run.
    let mut first = network(Some((0.5, 5)));
    let mut second = network(Some((0.5, 5)));
    let mut third = network(Some((0.5, 6)));
    first.disable_dropout();
    for epoch in 0..5 {
        let a = first.train(epoch, &x, &y, &loss, 4).unwrap();
        let b = second.train(epoch, &x, &y, &loss, 4).unwrap();
        third.train(epoch, &x, &y, &loss, 4).unwrap();
        assert_eq!(a, b);
    }
    assert_eq!(first.get_params().0, second.get_params().0);
    assert_ne!(first.get_params().0, third.get_params().0);
    assert_ne!(first.get_params().0, plain.get_params().0);

    // One epoch by hand: before each batch the seed is renewed.
    let mut trained = network(Some((0.5, 9)));
    let mut by_hand = network(Some((0.5, 9)));
    let mean = trained.train(0, &x, &y, &loss, 8).unwrap();
    let mut total = 0.0;
    for (start, end) in [(0usize, 8usize), (8, 12)] {
        by_hand.reseed_dropout();
        let batch_x = Matrix::from_column_leading_vector2(&x[start..end].to_vec()).unwrap();
        let batch_y = Matrix::from_column_leading_vector2(&y[start..end].to_vec()).unwrap();
        let prediction = by_hand.forward(batch_x).unwrap();
        total += loss.loss(&batch_y, &prediction).unwrap().0 * (end - start) as f64;
        by_hand.backward(0, loss.loss_prime(&batch_y, &prediction).unwrap()).unwrap();
    }
    assert_eq!(mean.0, total / 12.0);
    assert_eq!(trained.get_params().0, by_hand.get_params().0);
}

#[test]
fn a_network_that_drops_still_learns() {
    let (x, y) = samples();
    let loss = Losses::MSE.to_loss();
    let mut dropping = network(Some((0.1, 21)));
    let first = dropping.train(0, &x, &y, &loss, 4).unwrap();
    let mut last = first;
    for epoch in 1..300 {
        last = dropping.train(epoch, &x, &y, &loss, 4).unwrap();
    }
    assert!(last.0 < first.0);
    let prediction = dropping.predict(&reals(&[1.0, 1.0])).unwrap();
    assert!((prediction[0].0 - 2.0).abs() < 0.3);
}

#[test]
fn a_layer_tells_what_it_can_do() {
    let dropping: NetworkLayer<Real> = NetworkLayer::Dropout(DropoutLayer::new(Real(0.3), 4));
    assert!(!dropping.is_learnable());
    assert!(dropping.get_learnable_parameters().is_none());
    let layer = dropping.as_dropout_layer().unwrap();
    assert_eq!((layer.rate, layer.seed, layer.enabled), (Real(0.3), 4, true));
    let learning = dense(&[&[0.5]], &[0.0]);
    assert!(learning.is_learnable());
    assert!(learning.as_dropout_layer().is_none());
    assert!(learning.get_learnable_parameters().is_some());
    assert!(matches!(learning.as_learnable_layer(), Some(Learnable::Dense(_))));
    assert!(dropping.as_learnable_layer().is_none());
    let mut switched = dropping;
    switched.set_dropout(false);
    assert!(!switched.as_dropout_layer().unwrap().enabled);
    switched.reseed();
    assert_eq!(switched.as_dropout_layer().unwrap().seed, next_seed(4));
    let mut untouched = dense(&[&[0.5]], &[0.0]);
    untouched.set_dropout(true);
    untouched.reseed();
    assert_eq!(untouched.get_learnable_parameters(), dense(&[&[0.5]], &[0.0]).get_learnable_parameters());
}
