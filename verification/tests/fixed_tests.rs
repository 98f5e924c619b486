use jiro_nn::fixed::{clamp, quotient_of, read_step, read_text, root_of, Fixed, Reading, TERMS, UNITS};
use jiro_nn::layer::activation_layer::{Activation, ActivationLayer};
use jiro_nn::layer::dense_layer::DenseLayer;
use jiro_nn::linalg::Matrix;
use jiro_nn::loss::Losses;
use jiro_nn::learning_rate::LearningRateSchedule;
use jiro_nn::network::{Network, NetworkLayer};
use jiro_nn::optimizer::momentum::Momentum;
use jiro_nn::optimizer::sgd::SGD;
use jiro_nn::optimizer::Optimizers;
use jiro_nn::scalar::Scalar;

fn fixed(units: i64) -> Fixed {
    Fixed::from_units(units)
}

fn fixeds(units: &[i64]) -> Vec<Fixed> {
    units.iter().map(|units| fixed(*units)).collect()
}

#[test]
fn whole_numbers_are_clamped_and_cut_off_towards_zero() {
    assert_eq!(UNITS, 1_000_000);
    assert_eq!(TERMS, 12);
    assert_eq!(clamp(5), 5);
    assert_eq!(clamp(i64::MAX as i128 + 1), i64::MAX);
    assert_eq!(clamp(i64::MIN as i128 - 1), i64::MIN);
    assert_eq!(clamp(i128::MAX), i64::MAX);
    assert_eq!(quotient_of(7, 2), 3);
    assert_eq!(quotient_of(-7, 2), -3);
    assert_eq!(quotient_of(0, 9), 0);
    assert_eq!(quotient_of(-1, 2), 0);
    assert_eq!(root_of(0), 0);
    assert_eq!(root_of(1), 1);
    assert_eq!(root_of(15), 3);
    assert_eq!(root_of(16), 4);
    assert_eq!(root_of(17), 4);
    assert_eq!(root_of(1_000_000_000_000), 1_000_000);
    assert_eq!(root_of((1u128 << 84) - 1), (1u128 << 42) - 1);
}

#[test]
fn fixed_numbers_count_millionths() {
    assert_eq!(Fixed::zero(), fixed(0));
    assert_eq!(Fixed::one(), fixed(1_000_000));
    assert_eq!(Fixed::from_count(3), fixed(3_000_000));
    assert_eq!(Fixed::from_count(usize::MAX), fixed(i64::MAX));
    assert_eq!(fixed(3_999_999).to_count(), 3);
    assert_eq!(fixed(999_999).to_count(), 0);
    assert_eq!(fixed(-5_000_000).to_count(), 0);
    assert_eq!(fixed(i64::MAX).to_count(), 9_223_372_036_854);
    assert_eq!(fixed(1_500_000).add(fixed(2_250_000)), fixed(3_750_000));
    assert_eq!(fixed(1_500_000).sub(fixed(2_250_000)), fixed(-750_000));
    assert_eq!(fixed(i64::MAX).add(fixed(1)), fixed(i64::MAX));
    assert_eq!(fixed(i64::MIN).sub(fixed(1)), fixed(i64::MIN));
    assert_eq!(fixed(i64::MIN).sub(fixed(i64::MAX)), fixed(i64::MIN));
    assert!(fixed(-1).lt(fixed(0)));
    assert!(!fixed(0).lt(fixed(0)));
    assert!(fixed(7).equals(fixed(7)));
    assert!(!fixed(7).equals(fixed(-7)));
    assert!(fixed(0).is_finite());
    assert!(fixed(i64::MAX - 1).is_finite());
    assert!(!fixed(i64::MAX).is_finite());
    assert!(!fixed(i64::MIN).is_finite());
}

#[test]
fn products_and_ratios_are_cut_off_towards_zero() {
    assert_eq!(fixed(1_500_000).mul(fixed(-2_500_000)), fixed(-3_750_000));
    assert_eq!(fixed(1).mul(fixed(1)), fixed(0));
    assert_eq!(fixed(-1).mul(fixed(999_999)), fixed(0));
    assert_eq!(fixed(i64::MAX).mul(fixed(2_000_000)), fixed(i64::MAX));
    assert_eq!(fixed(i64::MIN).mul(fixed(i64::MIN)), fixed(i64::MAX));
    assert_eq!(fixed(i64::MIN).mul(fixed(i64::MAX)), fixed(i64::MIN));
    assert_eq!(fixed(0).mul(fixed(i64::MIN)), fixed(0));
    assert_eq!(fixed(1_000_000).div(fixed(3_000_000)), fixed(333_333));
    assert_eq!(fixed(-1_000_000).div(fixed(3_000_000)), fixed(-333_333));
    assert_eq!(fixed(7_000_000).div(fixed(-2_000_000)), fixed(-3_500_000));
    assert_eq!(fixed(-7_000_000).div(fixed(-2_000_000)), fixed(3_500_000));
    assert_eq!(fixed(i64::MAX).div(fixed(1)), fixed(i64::MAX));
    assert_eq!(fixed(5).div(fixed(0)), fixed(i64::MAX));
    assert_eq!(fixed(-5).div(fixed(0)), fixed(i64::MIN));
    assert_eq!(fixed(0).div(fixed(0)), fixed(0));
}

#[test]
fn roots_and_exponentials_are_whole_numbers_of_millionths() {
    assert_eq!(fixed(0).sqrt(), fixed(0));
    assert_eq!(fixed(-5).sqrt(), fixed(0));
    assert_eq!(fixed(1).sqrt(), fixed(1_000));
    assert_eq!(fixed(250_000).sqrt(), fixed(500_000));
    assert_eq!(fixed(2_000_000).sqrt(), fixed(1_414_213));
    assert_eq!(fixed(4_000_000).sqrt(), fixed(2_000_000));
    assert_eq!(fixed(i64::MAX).sqrt(), fixed(3_037_000_499_976));

    assert_eq!(fixed(0).exp(), fixed(1_000_000));
    assert_eq!(fixed(1).exp(), fixed(1_000_001));
    assert_eq!(fixed(500_000).exp(), fixed(1_648_719));
    assert_eq!(fixed(1_000_000).exp(), fixed(2_718_277));
    assert_eq!(fixed(2_000_000).exp(), fixed(7_389_029));
    assert_eq!(fixed(3_500_000).exp(), fixed(33_115_213));
    assert_eq!(fixed(10_000_000).exp(), fixed(22_025_706_489));
    assert_eq!(fixed(-1_000_000).exp(), fixed(367_880));
    assert_eq!(fixed(-5_000_000).exp(), fixed(6_738));
    assert_eq!(fixed(-30_000_000).exp(), fixed(0));
    assert_eq!(fixed(50_000_000).exp(), fixed(i64::MAX));
    assert_eq!(fixed(i64::MIN).exp(), fixed(0));
    // Close to the exponential, where it lies in the range.
    for units in [-8_000_000i64, -2_500_000, -1, 0, 300_000, 1_000_000, 6_250_000, 12_000_000] {
        let exact = (units as f64 / 1e6).exp();
        let found = fixed(units).exp().units as f64 / 1e6;
        assert!((found - exact).abs() <= 1e-4 * exact + 2e-6);
    }
}

#[test]
fn texts_of_decimal_numbers_are_read() {
    assert_eq!(read_text("0"), Some(fixed(0)));
    assert_eq!(read_text("12"), Some(fixed(12_000_000)));
    assert_eq!(read_text("-12.5"), Some(fixed(-12_500_000)));
    assert_eq!(read_text("+0.000001"), Some(fixed(1)));
    assert_eq!(read_text("3.14159265"), Some(fixed(3_141_592)));
    assert_eq!(read_text(".5"), Some(fixed(500_000)));
    assert_eq!(read_text("5."), Some(fixed(5_000_000)));
    assert_eq!(read_text("-0"), Some(fixed(0)));
    assert_eq!(read_text("007"), Some(fixed(7_000_000)));
    assert_eq!(read_text("99999999999999999999"), Some(fixed(i64::MAX)));
    assert_eq!(read_text("-99999999999999999999"), Some(fixed(-i64::MAX)));
    for text in ["", "-", "+", ".", "-.", "1.2.3", "1e5", "one", " 1", "1 ", "--1", "1-", "0x10", "１"] {
        assert_eq!(read_text(text), None);
    }
    assert_eq!(Fixed::from_text("2.5"), read_text("2.5"));
    assert_eq!(Fixed::from_text("x"), None);

    let start = Reading { units: 0, place: UNITS, digits: false, point: false };
    let one = read_step(start, '1').unwrap();
    assert_eq!((one.units, one.place, one.digits, one.point), (1_000_000, 1_000_000, true, false));
    let point = read_step(one, '.').unwrap();
    assert_eq!((point.units, point.place, point.digits, point.point), (1_000_000, 1_000_000, true, true));
    let tenth = read_step(point, '7').unwrap();
    assert_eq!((tenth.units, tenth.place), (1_700_000, 100_000));
    assert!(read_step(tenth, '.').is_none());
    assert!(read_step(tenth, 'a').is_none());
}

#[test]
fn matrices_of_fixed_numbers_multiply() {
    let a = Matrix::from_column_leading_vector2(&vec![fixeds(&[1_000_000, 2_000_000]), fixeds(&[3_000_000, 4_000_000])])
        .unwrap();
    let b = Matrix::from_column_leading_vector2(&vec![fixeds(&[500_000, -500_000])]).unwrap();
    let product = a.dot(&b).unwrap();
    assert_eq!(product.get_data_col_leading(), vec![fixeds(&[-1_000_000, -1_000_000])]);
    assert_eq!(a.sum(), fixed(10_000_000));
    assert_eq!(a.mean(), fixed(2_500_000));
    assert_eq!(a.transpose().get_data_col_leading(), vec![fixeds(&[1_000_000, 3_000_000]), fixeds(&[2_000_000, 4_000_000])]);
}

#[test]
fn a_step_against_no_gradient_changes_nothing() {
    let parameters = Matrix::from_column_leading_vector2(&vec![
        fixeds(&[1_234_567, -7, i64::MAX]),
        fixeds(&[i64::MIN, 0, 999_999_999_999]),
    ])
    .unwrap();
    let zeros = Matrix::zeros(3, 2);
    for rate in [0, 1, 100_000, -3_000_000, i64::MAX, i64::MIN] {
        let mut optimizer = SGD::with_const_lr(fixed(rate));
        for epoch in [0usize, 1, 17, usize::MAX] {
            let stepped = optimizer.update_parameters(epoch, &parameters, &zeros).unwrap();
            assert_eq!(stepped.get_data_col_leading(), parameters.get_data_col_leading());
        }
    }
}

#[test]
fn a_network_of_fixed_numbers_learns_the_sum() {
    let weights = Matrix::from_column_leading_vector2(&vec![fixeds(&[0]), fixeds(&[0])]).unwrap();
    let biases = Matrix::from_column_vector(&fixeds(&[0]));
    let optimizer = || Optimizers::SGD(SGD::with_const_lr(fixed(100_000)));
    let mut network = Network::new(vec![
        NetworkLayer::Dense(DenseLayer::from_parameters(weights, biases, optimizer(), optimizer()).unwrap()),
        NetworkLayer::Activation(ActivationLayer::new(Activation::Linear)),
    ]);
    let x = vec![fixeds(&[0, 0]), fixeds(&[1_000_000, 1_000_000])];
    let y = vec![fixeds(&[0]), fixeds(&[2_000_000])];
    let loss = Losses::MSE.to_loss();
    let first = network.train(0, &x, &y, &loss, 2).unwrap();
    assert_eq!(first, fixed(2_000_000));
    let mut last = first;
    for epoch in 1..100 {
        last = network.train(epoch, &x, &y, &loss, 2).unwrap();
    }
    assert!(last.lt(first));
    let prediction = network.predict(&fixeds(&[2_000_000, 2_000_000])).unwrap();
    assert!((prediction[0].units - 4_000_000).abs() < 100_000);
    // The same run gives the same numbers, to the last digit.
    let weights = Matrix::from_column_leading_vector2(&vec![fixeds(&[0]), fixeds(&[0])]).unwrap();
    let biases = Matrix::from_column_vector(&fixeds(&[0]));
    let mut again = Network::new(vec![
        NetworkLayer::Dense(DenseLayer::from_parameters(weights, biases, optimizer(), optimizer()).unwrap()),
        NetworkLayer::Activation(ActivationLayer::new(Activation::Linear)),
    ]);
    for epoch in 0..100 {
        again.train(epoch, &x, &y, &loss, 2).unwrap();
    }
    assert_eq!(again.get_params().0, network.get_params().0);
}

#[test]
fn the_velocity_of_momentum_grows_towards_its_bound() {
    // A learning rate of a tenth, a momentum of nine tenths, a gradient of one: the
    // velocity grows from a tenth towards one.
    let mut optimizer = Momentum::new(LearningRateSchedule::Constant(fixed(100_000)), fixed(900_000));
    let gradient = Matrix::from_column_leading_vector2(&vec![fixeds(&[1_000_000, 0, 2_500_000])]).unwrap();
    let mut parameters = Matrix::from_column_leading_vector2(&vec![fixeds(&[0, 7, -3_000_000])]).unwrap();
    let mut before = [0i64; 3];
    for epoch in 0..400 {
        let stepped = optimizer.update_parameters(epoch, &parameters, &gradient).unwrap();
        let old = parameters.get_data_col_leading()[0].clone();
        let new = stepped.get_data_col_leading()[0].clone();
        let velocity = [old[0].units - new[0].units, old[1].units - new[1].units, old[2].units - new[2].units];
        // Never below the step, never below the velocity before, never past the bound.
        assert!(velocity[0] >= 100_000 && velocity[0] >= before[0] && velocity[0] <= 1_000_000);
        assert_eq!(velocity[1], 0);
        assert!(velocity[2] >= 250_000 && velocity[2] >= before[2] && velocity[2] <= 2_500_000);
        if epoch == 0 {
            assert_eq!(velocity, [100_000, 0, 250_000]);
        }
        if epoch == 1 {
            assert_eq!(velocity, [190_000, 0, 475_000]);
        }
        before = velocity;
        parameters = stepped;
    }
    // Close to the bound in the end, as far as cutting off lets it come.
    assert!(before[0] > 999_980 && before[2] > 2_499_980);
}
