use jiro_nn::benchmarking::{EpochEvaluation, ModelEvaluation, TrainingEvaluation};
use jiro_nn::error::Error;
use jiro_nn::layer::activation_layer::{Activation, ActivationLayer};
use jiro_nn::layer::dense_layer::DenseLayer;
use jiro_nn::linalg::Matrix;
use jiro_nn::loss::Losses;
use jiro_nn::model::Model;
use jiro_nn::network::params::NetworkParams;
use jiro_nn::network::{Network, NetworkLayer};
use jiro_nn::optimizer::sgd::SGD;
use jiro_nn::optimizer::Optimizers;
use jiro_nn::scalar::Scalar;
use jiro_nn::trainers::epochs::EpochPlan;
use jiro_nn::trainers::kfolds::KFolds;
use jiro_nn::trainers::sampling::{names_samples, pick};
use std::cell::RefCell;

#[derive(Clone, Copy, Debug, PartialEq)]
struct Real(f64);

impl Scalar for Real {
    fn zero() -> Self {
        Real(0.0)
    }

    fn one() -> Self {
        Real(1.0)
    }

    fn from_count(n: usize) -> Self {
        Real(n as f64)
    }

    fn to_count(self) -> usize {
        self.0 as usize
    }

    fn add(self, rhs: Self) -> Self {
        Real(self.0 + rhs.0)
    }

    fn sub(self, rhs: Self) -> Self {
        Real(self.0 - rhs.0)
    }

    fn mul(self, rhs: Self) -> Self {
        Real(self.0 * rhs.0)
    }

    fn div(self, rhs: Self) -> Self {
        Real(self.0 / rhs.0)
    }

    fn sqrt(self) -> Self {
        Real(self.0.sqrt())
    }

    fn exp(self) -> Self {
        Real(self.0.exp())
    }

    fn lt(self, rhs: Self) -> bool {
        self.0 < rhs.0
    }

    fn is_finite(self) -> bool {
        self.0.is_finite()
    }

    fn equals(self, rhs: Self) -> bool {
        self.0 == rhs.0
    }

    fn from_text(text: &str) -> Option<Self> {
        text.parse::<f64>().ok().map(Real)
    }
}

type Reporter = fn(usize, EpochEvaluation<Real>);

fn reals(values: &[f64]) -> Vec<Real> {
    values.iter().map(|v| Real(*v)).collect()
}

fn network_from(weights: &[f64], bias: f64, rate: f64) -> Network<Real> {
    let columns: Vec<Vec<Real>> = weights.iter().map(|w| vec![Real(*w)]).collect();
    let weights = Matrix::from_column_leading_vector2(&columns).unwrap();
    let biases = Matrix::from_column_vector(&reals(&[bias]));
    let optimizer = || Optimizers::SGD(SGD::with_const_lr(Real(rate)));
    Network::new(vec![
        NetworkLayer::Dense(DenseLayer::from_parameters(weights, biases, optimizer(), optimizer()).unwrap()),
        NetworkLayer::Activation(ActivationLayer::new(Activation::Linear)),
    ])
}

fn linear_network(rate: f64) -> Network<Real> {
    network_from(&[0.1, -0.2], 0.05, rate)
}

/// Ten samples of two inputs, with their sum as the expected output.
fn sums() -> (Vec<Vec<Real>>, Vec<Vec<Real>>) {
    let x: Vec<Vec<Real>> = (0..10).map(|i| reals(&[(i % 4) as f64 * 0.5, (i / 4) as f64 * 0.5])).collect();
    let y: Vec<Vec<Real>> = x.iter().map(|sample| vec![Real(sample[0].0 + sample[1].0)]).collect();
    (x, y)
}

fn run_with_final_loss(loss: f64) -> TrainingEvaluation<Real> {
    let mut run = TrainingEvaluation::new_empty();
    run.add_epoch(EpochEvaluation::new(Real(9.0), Real(0.0), Real(0.0), Real(0.0)));
    run.add_epoch(EpochEvaluation::new(Real(1.0), Real(loss), Real(0.0), Real(0.0)));
    run
}

#[test]
fn samples_are_picked_by_their_places() {
    let data = vec![reals(&[0.0]), reals(&[1.0]), reals(&[2.0]), reals(&[3.0])];
    let order = vec![3usize, 1, 1, 0];
    assert_eq!(pick(&data, &order, 0, 4), vec![reals(&[3.0]), reals(&[1.0]), reals(&[1.0]), reals(&[0.0])]);
    assert_eq!(pick(&data, &order, 1, 3), vec![reals(&[1.0]), reals(&[1.0])]);
    assert_eq!(pick(&data, &order, 2, 2), Vec::<Vec<Real>>::new());
    assert!(names_samples(&order, 4));
    assert!(!names_samples(&order, 3));
    assert!(names_samples(&vec![], 0));
}

#[test]
fn places_are_dealt_out_to_the_folds_in_turn() {
    let order = vec![5usize, 3, 8, 1, 9, 2, 7];
    assert_eq!(KFolds::<Real>::fold_part(&order, 3, 0, true), vec![5, 1, 7]);
    assert_eq!(KFolds::<Real>::fold_part(&order, 3, 1, true), vec![3, 9]);
    assert_eq!(KFolds::<Real>::fold_part(&order, 3, 2, true), vec![8, 2]);
    assert_eq!(KFolds::<Real>::fold_part(&order, 3, 0, false), vec![3, 8, 9, 2]);
    assert_eq!(KFolds::<Real>::fold_part(&order, 3, 1, false), vec![5, 8, 1, 2, 7]);
    assert_eq!(KFolds::<Real>::fold_part(&order, 3, 2, false), vec![5, 3, 1, 9, 7]);
    // A fold beyond the last one validates on nothing.
    assert_eq!(KFolds::<Real>::fold_part(&order, 3, 3, true), Vec::<usize>::new());
    assert_eq!(KFolds::<Real>::fold_part(&order, 3, 3, false), order);
    // With one fold, everything is validated on and nothing trained on.
    assert_eq!(KFolds::<Real>::fold_part(&order, 1, 0, true), order);
    assert_eq!(KFolds::<Real>::fold_part(&order, 1, 0, false), Vec::<usize>::new());
    // Every place is validated on by one fold.
    let mut all: Vec<usize> = (0..3).flat_map(|fold| KFolds::<Real>::fold_part(&order, 3, fold, true)).collect();
    all.sort();
    let mut sorted = order.clone();
    sorted.sort();
    assert_eq!(all, sorted);
}

#[test]
fn the_best_fold_has_the_lowest_final_validation_loss() {
    let mut evaluation: ModelEvaluation<Real> = ModelEvaluation::new_empty();
    assert_eq!(evaluation.best_fold(), 0);
    for loss in [0.5, 0.2, 0.2, 0.9] {
        evaluation.add_fold(run_with_final_loss(loss));
    }
    assert_eq!(evaluation.best_fold(), 1);
    evaluation.add_fold(run_with_final_loss(0.1));
    assert_eq!(evaluation.best_fold(), 4);
    // A fold without epochs never takes the lead.
    evaluation.add_fold(TrainingEvaluation::new_empty());
    assert_eq!(evaluation.best_fold(), 4);
    let mut idle: ModelEvaluation<Real> = ModelEvaluation::new_empty();
    idle.add_fold(TrainingEvaluation::new_empty());
    idle.add_fold(run_with_final_loss(0.3));
    assert_eq!(idle.best_fold(), 0);
}

#[test]
fn parameter_sets_are_averaged_place_by_place() {
    let a = NetworkParams(vec![vec![reals(&[1.0, 2.0]), reals(&[3.0])], vec![reals(&[10.0])]]);
    let b = NetworkParams(vec![vec![reals(&[3.0, 4.0]), reals(&[5.0])], vec![reals(&[20.0])]]);
    let c = NetworkParams(vec![vec![reals(&[5.0, 0.0]), reals(&[-2.0])], vec![reals(&[60.0])]]);
    assert!(a.has_shape_of(&b));
    let mean = NetworkParams::average(&vec![a.clone(), b.clone(), c.clone()]).unwrap();
    assert_eq!(mean.0, vec![vec![reals(&[3.0, 2.0]), reals(&[2.0])], vec![reals(&[30.0])]]);
    let alone = NetworkParams::average(&vec![b.clone()]).unwrap();
    assert_eq!(alone.0, b.0);

    let none: Vec<NetworkParams<Real>> = vec![];
    assert_eq!(NetworkParams::average(&none).err(), Some(Error::ParameterCountMismatch));
    let shorter = NetworkParams(vec![vec![reals(&[1.0, 2.0]), reals(&[3.0])]]);
    let wider = NetworkParams(vec![vec![reals(&[1.0, 2.0, 3.0]), reals(&[3.0])], vec![reals(&[10.0])]]);
    let taller = NetworkParams(vec![vec![reals(&[1.0, 2.0]), reals(&[3.0]), reals(&[3.0])], vec![reals(&[10.0])]]);
    for other in [shorter, wider, taller] {
        assert!(!a.has_shape_of(&other));
        assert!(!other.has_shape_of(&a));
        assert_eq!(NetworkParams::average(&vec![a.clone(), other]).err(), Some(Error::ParameterCountMismatch));
    }
}

#[test]
fn a_new_trainer_keeps_nothing_until_asked() {
    let mut trainer: KFolds<Real> = KFolds::new(4);
    assert_eq!(trainer.k, 4);
    assert!(!trainer.return_best && !trainer.return_avg);
    assert!(trainer.best.is_none() && trainer.avg.is_none());
    assert_eq!(trainer.plan(), EpochPlan { all_epochs_validation: false, all_epochs_r2: false });
    trainer.all_epochs_validation();
    trainer.all_epochs_r2();
    trainer.compute_best_model();
    trainer.compute_avg_model();
    assert!(trainer.return_best && trainer.return_avg);
    assert_eq!(trainer.plan(), EpochPlan { all_epochs_validation: true, all_epochs_r2: true });
    assert_eq!(trainer.k, 4);
}

#[test]
fn each_fold_trains_on_the_other_folds_and_validates_on_its_own() {
    let (x, y) = sums();
    let model = Model { epochs: 200, batch_size: Some(3), loss: Losses::MSE };
    let order: Vec<usize> = vec![9, 0, 8, 1, 7, 2, 6, 3, 5, 4];
    let mut networks = vec![linear_network(0.1), linear_network(0.1), linear_network(0.1)];
    let mut trainer = KFolds::new(3);
    trainer.compute_best_model();
    trainer.compute_avg_model();
    let seen: RefCell<Vec<usize>> = RefCell::new(vec![]);
    let reporter = |epoch: usize, _evaluation: EpochEvaluation<Real>| seen.borrow_mut().push(epoch);
    let (predictions, evaluation) =
        trainer.run_in_order(&model, &mut networks, &x, &y, &order, &Some(reporter)).unwrap();

    // Fold 0 validates on the places 0, 3, 6, 9 of the order, fold 1 on 1, 4, 7, fold 2 on 2, 5, 8.
    let validated: [&[usize]; 3] = [&[9, 1, 6, 4], &[0, 7, 3], &[8, 2, 5]];
    assert_eq!(predictions.len(), 3);
    assert_eq!(evaluation.len(), 3);
    for fold in 0..3 {
        assert_eq!(predictions[fold].len(), validated[fold].len());
        for (prediction, sample) in predictions[fold].iter().zip(validated[fold]) {
            assert_eq!(prediction, &networks[fold].predict(&x[*sample]).unwrap());
            assert!((prediction[0].0 - y[*sample][0].0).abs() < 0.1);
        }
        let last = evaluation.get_final_epoch_of(fold).unwrap();
        assert!(last.train_loss.0 < 1e-2);
        assert!(last.test_loss_avg.0 >= 0.0 && last.test_loss_avg.0 < 1e-2);
    }

    // The reporter heard of the epochs of each fold, fold after fold.
    let expected: Vec<usize> = (0..3).flat_map(|_| 0..200).collect();
    assert_eq!(seen.into_inner(), expected);

    // Each fold by hand: trained on what the other folds validate on, in the order's order.
    for fold in 0..3 {
        let places: Vec<usize> =
            order.iter().enumerate().filter(|(place, _)| place % 3 != fold).map(|(_, sample)| *sample).collect();
        let train_x: Vec<Vec<Real>> = places.iter().map(|i| x[*i].clone()).collect();
        let train_y: Vec<Vec<Real>> = places.iter().map(|i| y[*i].clone()).collect();
        let mut by_hand = linear_network(0.1);
        let mut train_loss = Real(0.0);
        for epoch in 0..200 {
            train_loss = by_hand.train(epoch, &train_x, &train_y, &Losses::MSE.to_loss(), 3).unwrap();
        }
        assert_eq!(train_loss, evaluation.get_final_epoch_of(fold).unwrap().train_loss);
        assert_eq!(by_hand.get_params().0, networks[fold].get_params().0);
    }

    // The best fold is the one with the lowest final validation loss; the average is the
    // plain mean of the folds' parameters.
    let losses: Vec<f64> = (0..3).map(|fold| evaluation.get_final_epoch_of(fold).unwrap().test_loss_avg.0).collect();
    let best = evaluation.best_fold();
    assert!(losses.iter().all(|loss| losses[best] <= *loss));
    assert_eq!(trainer.take_best_model().0, networks[best].get_params().0);
    assert!(trainer.best.is_none());
    let sets: Vec<NetworkParams<Real>> = networks.iter().map(|network| network.get_params()).collect();
    let average = trainer.take_avg_model();
    assert!(trainer.avg.is_none());
    assert_eq!(average.0, NetworkParams::average(&sets).unwrap().0);
    for (l, entry) in average.0.iter().enumerate() {
        for (r, vector) in entry.iter().enumerate() {
            for (e, value) in vector.iter().enumerate() {
                let sum = sets[0].0[l][r][e].0 + sets[1].0[l][r][e].0 + sets[2].0[l][r][e].0;
                assert_eq!(value.0, sum / 3.0);
            }
        }
    }
}

#[test]
fn a_trainer_keeps_only_what_it_is_asked_for() {
    let (x, y) = sums();
    let model = Model { epochs: 2, batch_size: None, loss: Losses::MSE };
    let order: Vec<usize> = (0..10).collect();
    let no_reporter: Option<Reporter> = None;
    let mut networks = vec![linear_network(0.1), linear_network(0.1)];
    let mut trainer = KFolds::new(2);
    trainer.run_in_order(&model, &mut networks, &x, &y, &order, &no_reporter).unwrap();
    assert!(trainer.best.is_none() && trainer.avg.is_none());
    trainer.compute_best_model();
    trainer.run_in_order(&model, &mut networks, &x, &y, &order, &no_reporter).unwrap();
    assert!(trainer.best.is_some() && trainer.avg.is_none());
}

#[test]
fn a_run_of_folds_refuses_what_does_not_fit() {
    let (x, y) = sums();
    let model = Model { epochs: 2, batch_size: None, loss: Losses::MSE };
    let order: Vec<usize> = (0..10).collect();
    let no_reporter: Option<Reporter> = None;

    // No fold.
    let mut trainer: KFolds<Real> = KFolds::new(0);
    let mut none: Vec<Network<Real>> = vec![];
    assert_eq!(
        trainer.run_in_order(&model, &mut none, &x, &y, &order, &no_reporter).err(),
        Some(Error::ShapeMismatch)
    );
    // Not one network for each fold.
    let mut trainer: KFolds<Real> = KFolds::new(3);
    let mut two = vec![linear_network(0.1), linear_network(0.1)];
    let before = two[0].get_params().0;
    assert_eq!(
        trainer.run_in_order(&model, &mut two, &x, &y, &order, &no_reporter).err(),
        Some(Error::ShapeMismatch)
    );
    assert_eq!(two[0].get_params().0, before);
    // Sides of different lengths, or an order that names a sample that is not there.
    let mut trainer: KFolds<Real> = KFolds::new(2);
    let short: Vec<Vec<Real>> = y[..9].to_vec();
    assert_eq!(
        trainer.run_in_order(&model, &mut two, &x, &short, &order, &no_reporter).err(),
        Some(Error::ShapeMismatch)
    );
    assert_eq!(
        trainer.run_in_order(&model, &mut two, &x, &y, &vec![0, 10], &no_reporter).err(),
        Some(Error::ShapeMismatch)
    );
    // Samples that the networks do not take.
    let wide: Vec<Vec<Real>> = x.iter().map(|_| reals(&[1.0, 2.0, 3.0])).collect();
    assert_eq!(
        trainer.run_in_order(&model, &mut two, &wide, &y, &order, &no_reporter).err(),
        Some(Error::ShapeMismatch)
    );
    // Networks of different shapes have no mean; what the trainer kept stays.
    let mut mixed = vec![linear_network(0.1), network_from(&[0.1], 0.0, 0.1)];
    trainer.compute_avg_model();
    trainer.compute_best_model();
    let both = trainer.run_in_order(&model, &mut two, &x, &y, &order, &no_reporter);
    assert!(both.is_ok());
    let kept = trainer.best.clone().unwrap().0;
    let outcome = trainer.run_in_order(&model, &mut mixed, &x, &y, &order, &no_reporter);
    assert_eq!(outcome.err(), Some(Error::ShapeMismatch));
    assert_eq!(trainer.best.clone().unwrap().0, kept);
    // Training that diverges is reported.
    let mut wild = vec![linear_network(1e200), linear_network(1e200)];
    let long = Model { epochs: 50, batch_size: None, loss: Losses::MSE };
    let big: Vec<Vec<Real>> = x.iter().map(|sample| vec![Real(sample[0].0 * 1e100), Real(sample[1].0 * 1e100)]).collect();
    assert_eq!(
        trainer.run_in_order(&long, &mut wild, &big, &y, &order, &no_reporter).err(),
        Some(Error::NumericalDivergence)
    );
}

#[test]
fn folds_of_different_shapes_have_no_mean() {
    // Two networks that both take one input, one of them through two layers that learn.
    let single = || network_from(&[0.3], 0.0, 0.05);
    let double = || {
        let optimizer = || Optimizers::SGD(SGD::with_const_lr(Real(0.05)));
        let layer = |w: f64| {
            NetworkLayer::Dense(
                DenseLayer::from_parameters(
                    Matrix::from_column_leading_vector2(&vec![vec![Real(w)]]).unwrap(),
                    Matrix::from_column_vector(&reals(&[0.0])),
                    optimizer(),
                    optimizer(),
                )
                .unwrap(),
            )
        };
        Network::new(vec![layer(0.5), layer(0.7)])
    };
    let x: Vec<Vec<Real>> = (0..6).map(|i| reals(&[i as f64 * 0.2])).collect();
    let y: Vec<Vec<Real>> = x.iter().map(|sample| vec![Real(2.0 * sample[0].0)]).collect();
    let model = Model { epochs: 3, batch_size: None, loss: Losses::MSE };
    let order: Vec<usize> = (0..6).collect();
    let no_reporter: Option<Reporter> = None;

    let mut trainer: KFolds<Real> = KFolds::new(2);
    trainer.compute_avg_model();
    let mut networks = vec![single(), double()];
    assert_eq!(
        trainer.run_in_order(&model, &mut networks, &x, &y, &order, &no_reporter).err(),
        Some(Error::ParameterCountMismatch)
    );
    assert!(trainer.avg.is_none());
    // Without the mean, the same run goes through.
    let mut trainer: KFolds<Real> = KFolds::new(2);
    trainer.compute_best_model();
    let mut networks = vec![single(), double()];
    let (predictions, evaluation) =
        trainer.run_in_order(&model, &mut networks, &x, &y, &order, &no_reporter).unwrap();
    assert_eq!(predictions.len(), 2);
    assert_eq!(evaluation.len(), 2);
    assert!(trainer.best.is_some());
}

#[test]
fn a_random_run_of_folds_learns_the_sum() {
    let (x, y) = sums();
    let model = Model { epochs: 400, batch_size: Some(4), loss: Losses::MSE };
    let no_reporter: Option<Reporter> = None;
    let mut networks: Vec<Network<Real>> = (0..5).map(|_| linear_network(0.1)).collect();
    let mut trainer = KFolds::new(5);
    trainer.compute_avg_model();
    let (predictions, evaluation) = trainer.run(&model, &mut networks, &x, &y, &no_reporter).unwrap();
    assert_eq!(evaluation.len(), 5);
    // Ten samples over five folds: two for each.
    assert!(predictions.iter().all(|fold| fold.len() == 2));
    for fold in 0..5 {
        assert!(evaluation.get_final_epoch_of(fold).unwrap().test_loss_avg.0 < 1e-2);
    }
    let mut averaged = linear_network(0.1);
    averaged.load_params(&trainer.take_avg_model()).unwrap();
    let prediction = averaged.predict(&reals(&[2.0, 2.0])).unwrap();
    assert!((prediction[0].0 - 4.0).abs() < 0.1);
}
