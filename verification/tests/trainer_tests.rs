use jiro_nn::benchmarking::{EpochEvaluation, ModelEvaluation, TrainingEvaluation};
use jiro_nn::error::Error;
use jiro_nn::layer::activation_layer::{Activation, ActivationLayer};
use jiro_nn::layer::dense_layer::DenseLayer;
use jiro_nn::linalg::Matrix;
use jiro_nn::loss::Losses;
use jiro_nn::model::Model;
use jiro_nn::network::{Network, NetworkLayer};
use jiro_nn::optimizer::sgd::SGD;
use jiro_nn::optimizer::Optimizers;
use jiro_nn::random::random_order;
use jiro_nn::scalar::Scalar;
use jiro_nn::trainers::split::SplitTraining;
use jiro_nn::vec_utils::{r2_score, r2_score_vector2};
use std::cell::RefCell;

#[derive(Clone, Copy, Debug, PartialEq)]
struct Real(f64);

impl Scalar for Real {
    fn zero() -> Self {
        Real(0.0)
    }

    fn one() -> Self {
        Real(1.0)
    }

    fn from_count(n: usize) -> Self {
        Real(n as f64)
    }

    fn to_count(self) -> usize {
        self.0 as usize
    }

    fn add(self, rhs: Self) -> Self {
        Real(self.0 + rhs.0)
    }

    fn sub(self, rhs: Self) -> Self {
        Real(self.0 - rhs.0)
    }

    fn mul(self, rhs: Self) -> Self {
        Real(self.0 * rhs.0)
    }

    fn div(self, rhs: Self) -> Self {
        Real(self.0 / rhs.0)
    }

    fn sqrt(self) -> Self {
        Real(self.0.sqrt())
    }

    fn exp(self) -> Self {
        Real(self.0.exp())
    }

    fn lt(self, rhs: Self) -> bool {
        self.0 < rhs.0
    }

    fn is_finite(self) -> bool {
        self.0.is_finite()
    }

    fn equals(self, rhs: Self) -> bool {
        self.0 == rhs.0
    }

    fn from_text(text: &str) -> Option<Self> {
        text.parse::<f64>().ok().map(Real)
    }
}

fn reals(values: &[f64]) -> Vec<Real> {
    values.iter().map(|v| Real(*v)).collect()
}

fn linear_network(rate: f64) -> Network<Real> {
    let weights = Matrix::from_column_leading_vector2(&vec![reals(&[0.1]), reals(&[-0.2])]).unwrap();
    let biases = Matrix::from_column_vector(&reals(&[0.05]));
    let optimizer = || Optimizers::SGD(SGD::with_const_lr(Real(rate)));
    Network::new(vec![
        NetworkLayer::Dense(DenseLayer::from_parameters(weights, biases, optimizer(), optimizer()).unwrap()),
        NetworkLayer::Activation(ActivationLayer::new(Activation::Linear)),
    ])
}

/// Ten samples of two inputs, with their sum as the expected output.
fn sums() -> (Vec<Vec<Real>>, Vec<Vec<Real>>) {
    let x: Vec<Vec<Real>> = (0..10).map(|i| reals(&[(i % 4) as f64 * 0.5, (i / 4) as f64 * 0.5])).collect();
    let y: Vec<Vec<Real>> = x.iter().map(|sample| vec![Real(sample[0].0 + sample[1].0)]).collect();
    (x, y)
}

type Reporter = fn(usize, EpochEvaluation<Real>);

#[test]
fn records_are_only_ever_added() {
    let mut run: TrainingEvaluation<Real> = TrainingEvaluation::new_empty();
    assert_eq!(run.len(), 0);
    assert!(run.get_final_epoch().is_none());
    let first = EpochEvaluation::new(Real(1.0), Real(2.0), Real(3.0), Real(4.0));
    let second = EpochEvaluation::new(Real(0.5), Real(1.5), Real(2.5), Real(3.5));
    run.add_epoch(first);
    run.add_epoch(second);
    assert_eq!(run.len(), 2);
    assert_eq!(run.get_epoch(0).unwrap().train_loss, Real(1.0));
    assert_eq!(run.get_epoch(1).unwrap().r2, Real(3.5));
    assert!(run.get_epoch(2).is_none());
    let last = run.get_final_epoch().unwrap();
    assert_eq!((last.train_loss, last.test_loss_avg, last.test_loss_std), (Real(0.5), Real(1.5), Real(2.5)));
    let mut model: ModelEvaluation<Real> = ModelEvaluation::new_empty();
    assert_eq!(model.len(), 0);
    assert!(model.get_final_epoch_of(0).is_none());
    model.add_fold(run);
    model.add_fold(TrainingEvaluation::new_empty());
    assert_eq!(model.len(), 2);
    assert_eq!(model.get_final_epoch_of(0).unwrap().test_loss_avg, Real(1.5));
    assert!(model.get_final_epoch_of(1).is_none());
    assert_eq!(first.clone().r2, Real(4.0));
}

#[test]
fn coefficient_of_determination() {
    let y = reals(&[1.0, 2.0, 3.0, 4.0]);
    assert_eq!(r2_score(&y, &y).unwrap(), Real(1.0));
    let mean = reals(&[2.5, 2.5, 2.5, 2.5]);
    assert_eq!(r2_score(&y, &mean).unwrap(), Real(0.0));
    let off = reals(&[1.0, 2.0, 3.0, 5.0]);
    assert_eq!(r2_score(&y, &off).unwrap(), Real(1.0 - 1.0 / 5.0));
    assert_eq!(r2_score(&y, &reals(&[1.0])).err(), Some(Error::ShapeMismatch));
    // One vector for each sample, two outputs: the mean of the coefficients of the outputs.
    let samples = vec![reals(&[1.0, 10.0]), reals(&[2.0, 20.0]), reals(&[3.0, 30.0]), reals(&[4.0, 40.0])];
    let predicted = vec![reals(&[1.0, 25.0]), reals(&[2.0, 25.0]), reals(&[3.0, 25.0]), reals(&[5.0, 25.0])];
    assert_eq!(r2_score_vector2(&samples, &predicted).unwrap(), Real((0.8 + 0.0) / 2.0));
    assert_eq!(r2_score_vector2(&samples, &vec![reals(&[1.0, 2.0])]).err(), Some(Error::ShapeMismatch));
    assert_eq!(
        r2_score_vector2(&vec![reals(&[1.0, 2.0]), reals(&[1.0])], &vec![reals(&[1.0, 2.0]), reals(&[1.0])]).err(),
        Some(Error::ShapeMismatch)
    );
}

#[test]
fn a_random_order_names_each_place_once() {
    for n in [0usize, 1, 2, 17, 200] {
        let mut order = random_order(n);
        assert_eq!(order.len(), n);
        order.sort();
        assert_eq!(order, (0..n).collect::<Vec<usize>>());
    }
    let different = (0..20).any(|_| random_order(50) != (0..50).collect::<Vec<usize>>());
    assert!(different);
}

#[test]
fn model_trains_one_epoch_in_batches() {
    let (x, y) = sums();
    let whole = Model { epochs: 1, batch_size: None, loss: Losses::MSE };
    let halves = Model { epochs: 1, batch_size: Some(5), loss: Losses::MSE };
    let zero = Model { epochs: 1, batch_size: Some(0), loss: Losses::MSE };
    let mut a = linear_network(0.1);
    let mut b = linear_network(0.1);
    let loss_a = whole.train_epoch(0, &mut a, &x, &y).unwrap();
    let loss_b = b.train(0, &x, &y, &Losses::MSE.to_loss(), 10).unwrap();
    assert_eq!(loss_a, loss_b);
    let mut c = linear_network(0.1);
    let mut d = linear_network(0.1);
    assert_eq!(
        halves.train_epoch(0, &mut c, &x, &y).unwrap(),
        d.train(0, &x, &y, &Losses::MSE.to_loss(), 5).unwrap()
    );
    let mut e = linear_network(0.1);
    let mut f = linear_network(0.1);
    assert_eq!(
        zero.train_epoch(0, &mut e, &x, &y).unwrap(),
        f.train(0, &x, &y, &Losses::MSE.to_loss(), 1).unwrap()
    );
}

#[test]
fn split_training_trains_on_the_first_part_and_validates_on_the_rest() {
    let (x, y) = sums();
    let model = Model { epochs: 60, batch_size: Some(4), loss: Losses::MSE };
    let order: Vec<usize> = vec![9, 0, 8, 1, 7, 2, 6, 3, 5, 4];
    let mut network = linear_network(0.1);
    let mut trainer = SplitTraining::new(Real(0.7));
    let seen: RefCell<Vec<(usize, EpochEvaluation<Real>)>> = RefCell::new(vec![]);
    let reporter = |epoch: usize, evaluation: EpochEvaluation<Real>| seen.borrow_mut().push((epoch, evaluation));
    let (predictions, evaluation) =
        trainer.run_in_order(&model, &mut network, &x, &y, &order, &Some(reporter)).unwrap();

    // Seven samples are trained on, three validated on: samples 3, 5 and 4.
    assert_eq!(predictions.len(), 3);
    for (prediction, sample) in predictions.iter().zip([3usize, 5, 4]) {
        assert!((prediction[0].0 - y[sample][0].0).abs() < 0.05);
    }
    assert_eq!(evaluation.len(), 1);
    let last = evaluation.get_final_epoch_of(0).unwrap();
    assert!(last.train_loss.0 < 1e-3);
    assert!(last.test_loss_avg.0 < 1e-3);
    assert!(last.test_loss_std.0 >= 0.0);
    assert!(last.r2.0 > 0.9);

    // The reporter heard of each epoch once, in order; only the last one validated.
    let seen = seen.into_inner();
    assert_eq!(seen.len(), 60);
    for (place, (epoch, record)) in seen.iter().enumerate() {
        assert_eq!(*epoch, place);
        if place < 59 {
            assert_eq!((record.test_loss_avg, record.test_loss_std, record.r2), (Real(-1.0), Real(-1.0), Real(-1.0)));
        }
    }
    assert_eq!(seen[59].1.train_loss, last.train_loss);
    assert_eq!(seen[59].1.r2, last.r2);
    assert!(seen[0].1.train_loss.0 > seen[59].1.train_loss.0);

    // The trainer keeps the parameters of the trained network.
    let kept = trainer.take_model();
    assert_eq!(kept.0, network.get_params().0);
    assert!(trainer.model.is_none());

    // The same run by hand.
    let mut by_hand = linear_network(0.1);
    let train_x: Vec<Vec<Real>> = order[..7].iter().map(|i| x[*i].clone()).collect();
    let train_y: Vec<Vec<Real>> = order[..7].iter().map(|i| y[*i].clone()).collect();
    let mut train_loss = Real(0.0);
    for epoch in 0..60 {
        train_loss = by_hand.train(epoch, &train_x, &train_y, &Losses::MSE.to_loss(), 4).unwrap();
    }
    assert_eq!(train_loss, last.train_loss);
    assert_eq!(by_hand.get_params().0, kept.0);
}

#[test]
fn split_training_can_validate_and_score_every_epoch() {
    let (x, y) = sums();
    let model = Model { epochs: 3, batch_size: None, loss: Losses::MSE };
    let order: Vec<usize> = (0..10).collect();
    let no_reporter: Option<Reporter> = None;

    let mut trainer = SplitTraining::new(Real(0.5));
    trainer.all_epochs_validation();
    let mut network = linear_network(0.1);
    let (_, evaluation) = trainer.run_in_order(&model, &mut network, &x, &y, &order, &no_reporter).unwrap();
    assert!(evaluation.get_final_epoch_of(0).unwrap().test_loss_avg.0 >= 0.0);

    let seen: RefCell<Vec<EpochEvaluation<Real>>> = RefCell::new(vec![]);
    let reporter = |_epoch: usize, evaluation: EpochEvaluation<Real>| seen.borrow_mut().push(evaluation);
    let mut trainer = SplitTraining::new(Real(0.5));
    trainer.all_epochs_validation();
    let mut network = linear_network(0.1);
    trainer.run_in_order(&model, &mut network, &x, &y, &order, &Some(&reporter)).unwrap();
    assert!(seen.borrow().iter().all(|record| record.test_loss_avg.0 >= 0.0 && record.test_loss_std.0 >= 0.0));
    assert_eq!(seen.borrow()[0].r2, Real(-1.0));
    assert_ne!(seen.borrow()[2].r2, Real(-1.0));

    seen.borrow_mut().clear();
    let mut trainer = SplitTraining::new(Real(0.5));
    trainer.all_epochs_validation();
    trainer.all_epochs_r2();
    assert!(trainer.all_epochs_validation && trainer.all_epochs_r2);
    let mut network = linear_network(0.1);
    trainer.run_in_order(&model, &mut network, &x, &y, &order, &Some(&reporter)).unwrap();
    assert_eq!(seen.borrow().len(), 3);
    assert!(seen.borrow().iter().all(|record| record.r2 != Real(-1.0)));
}

#[test]
fn split_training_splits_by_its_ratio() {
    let (x, y) = sums();
    let model = Model { epochs: 1, batch_size: None, loss: Losses::MSE };
    let order: Vec<usize> = (0..10).collect();
    let no_reporter: Option<Reporter> = None;
    for (ratio, validated) in [(0.0, 10usize), (0.25, 8), (0.5, 5), (0.99, 1), (1.0, 0), (7.0, 0)] {
        let mut trainer = SplitTraining::new(Real(ratio));
        let mut network = linear_network(0.01);
        let outcome = trainer.run_in_order(&model, &mut network, &x, &y, &order, &no_reporter);
        if ratio == 0.0 {
            // Nothing is trained on: the mean loss over no samples is no number.
            assert_eq!(outcome.err(), Some(Error::NumericalDivergence));
        } else {
            assert_eq!(outcome.unwrap().0.len(), validated);
        }
    }
}

#[test]
fn split_training_reports_what_it_cannot_run_on() {
    let (x, y) = sums();
    let model = Model { epochs: 2, batch_size: None, loss: Losses::MSE };
    let no_reporter: Option<Reporter> = None;
    let mut trainer = SplitTraining::new(Real(0.5));
    let mut network = linear_network(0.1);
    let short: Vec<Vec<Real>> = y[..9].to_vec();
    let order: Vec<usize> = (0..10).collect();
    assert_eq!(
        trainer.run_in_order(&model, &mut network, &x, &short, &order, &no_reporter).err(),
        Some(Error::ShapeMismatch)
    );
    assert_eq!(
        trainer.run_in_order(&model, &mut network, &x, &y, &vec![0, 10], &no_reporter).err(),
        Some(Error::ShapeMismatch)
    );
    let wide: Vec<Vec<Real>> = x.iter().map(|s| vec![s[0], s[1], s[0]]).collect();
    assert_eq!(
        trainer.run_in_order(&model, &mut network, &wide, &y, &order, &no_reporter).err(),
        Some(Error::ShapeMismatch)
    );
    assert!(trainer.model.is_none());
    // No epochs: nothing is trained, nothing predicted, and the record is empty.
    let idle = Model { epochs: 0, batch_size: None, loss: Losses::MSE };
    let before = network.get_params().0;
    let (predictions, evaluation) = trainer.run_in_order(&idle, &mut network, &x, &y, &order, &no_reporter).unwrap();
    assert!(predictions.is_empty());
    assert_eq!(evaluation.len(), 1);
    assert!(evaluation.get_final_epoch_of(0).is_none());
    assert_eq!(trainer.take_model().0, before);
}

#[test]
fn split_training_in_a_random_order_uses_every_sample_once() {
    let (x, y) = sums();
    let model = Model { epochs: 400, batch_size: Some(3), loss: Losses::MSE };
    let no_reporter: Option<Reporter> = None;
    let mut trainer = SplitTraining::new(Real(0.8));
    let mut network = linear_network(0.1);
    let (predictions, evaluation) = trainer.run(&model, &mut network, &x, &y, &no_reporter).unwrap();
    assert_eq!(predictions.len(), 2);
    let last = evaluation.get_final_epoch_of(0).unwrap();
    assert!(last.train_loss.0 < 1e-2);
    assert!(last.test_loss_avg.0 < 1e-2);
    assert_eq!(trainer.take_model().0, network.get_params().0);
}
