//! Stochastic gradient descent.

use crate::error::Error;
use crate::learning_rate::{default_learning_rate, LearningRateSchedule};
use crate::linalg::{BinaryOp, Matrix, MatrixView};
use crate::scalar::Scalar;
use vstd::prelude::*;

verus! {

/// Stochastic gradient descent: each step moves the parameters against the gradient, by
/// the learning rate.
#[derive(Debug, Copy)]
pub struct SGD<S: Scalar> {
    learning_rate: LearningRateSchedule<S>,
}

impl<S: Scalar> View for SGD<S> {
    type V = LearningRateSchedule<S>;

    closed spec fn view(&self) -> LearningRateSchedule<S> {
        self.learning_rate
    }
}

impl<S: Scalar> Clone for SGD<S> {
    fn clone(&self) -> (out: Self)
        ensures
            out == *self,
    {
        *self
    }
}

impl<S: Scalar> SGD<S> {
    /// The parameters after a step in epoch `epoch`: `parameters - rate * gradient`, entry
    /// by entry.
    pub open spec fn step(
        schedule: LearningRateSchedule<S>,
        epoch: usize,
        parameters: MatrixView<S>,
        gradient: MatrixView<S>,
    ) -> MatrixView<S> {
        parameters.zip(BinaryOp::Sub, gradient.with_scalar(BinaryOp::Mul, schedule.rate(epoch)))
    }

    /// Gradient descent with the default learning rate.
    pub fn default() -> (sgd: Self)
        ensures
            sgd@ == LearningRateSchedule::<S>::default_spec(),
    {
        SGD { learning_rate: default_learning_rate() }
    }

    /// Gradient descent with the same learning rate in every epoch.
    pub fn with_const_lr(learning_rate: S) -> (sgd: Self)
        ensures
            sgd@ == LearningRateSchedule::Constant(learning_rate),
    {
        SGD { learning_rate: LearningRateSchedule::Constant(learning_rate) }
    }

    /// Gradient descent with the given schedule.
    pub fn new(learning_rate: LearningRateSchedule<S>) -> (sgd: Self)
        ensures
            sgd@ == learning_rate,
    {
        SGD { learning_rate }
    }

    /// The parameters after one step against `parameters_gradient`, which must have the
    /// shape of `parameters`.
    pub fn update_parameters(
        &mut self,
        epoch: usize,
        parameters: &Matrix<S>,
        parameters_gradient: &Matrix<S>,
    ) -> (out: Result<Matrix<S>, Error>)
        ensures
            final(self)@ == old(self)@,
            out is Ok <==> parameters@.nrow == parameters_gradient@.nrow && parameters@.ncol()
                == parameters_gradient@.ncol(),
            out matches Ok(updated) ==> updated@ == SGD::step(
                old(self)@,
                epoch,
                parameters@,
                parameters_gradient@,
            ),
            out matches Err(error) ==> error == Error::ShapeMismatch,
    {
        let shape = parameters.dim();
        let gradient_shape = parameters_gradient.dim();
        if shape.0 != gradient_shape.0 || shape.1 != gradient_shape.1 {
            return Err(Error::ShapeMismatch);
        }
        let rate = self.learning_rate.get_learning_rate(epoch);
        parameters.component_sub(&parameters_gradient.scalar_mul(rate))
    }
}

/// A step against a gradient of zeros leaves the parameters as they are, in every epoch in
/// which zero times the learning rate is zero, provided that subtracting zero changes none
/// of the parameters.
pub proof fn lemma_sgd_zero_gradient<S: Scalar>(
    schedule: LearningRateSchedule<S>,
    parameters: MatrixView<S>,
)
    requires
        parameters.wf(),
        forall|r: int, c: int|
            0 <= r < parameters.nrow && 0 <= c < parameters.ncol() ==> (#[trigger] parameters.at(
                r,
                c,
            )).sub_spec(S::zero_spec()) == parameters.at(r, c),
    ensures
        forall|epoch: usize|
            S::zero_spec().mul_spec(schedule.rate(epoch)) == S::zero_spec() ==> #[trigger] SGD::step(
                schedule,
                epoch,
                parameters,
                MatrixView::constant(parameters.nrow, parameters.ncol(), S::zero_spec()),
            ) == parameters,
{
    let zeros = MatrixView::constant(parameters.nrow, parameters.ncol(), S::zero_spec());
    assert forall|epoch: usize|
        S::zero_spec().mul_spec(schedule.rate(epoch)) == S::zero_spec() implies #[trigger] SGD::step(
        schedule,
        epoch,
        parameters,
        zeros,
    ) == parameters by {
        let scaled = zeros.with_scalar(BinaryOp::Mul, schedule.rate(epoch));
        let stepped = SGD::step(schedule, epoch, parameters, zeros);
        assert(stepped.columns.len() == parameters.columns.len());
        assert forall|c: int| 0 <= c < parameters.columns.len() implies stepped.columns[c]
            == parameters.columns[c] by {
            assert(parameters.columns[c].len() == parameters.nrow);
            assert(parameters.broadcast(c) == parameters.columns[c]);
            assert(scaled.broadcast(c) == scaled.columns[c]);
            assert forall|r: int| 0 <= r < parameters.nrow implies stepped.columns[c][r]
                == parameters.columns[c][r] by {
                assert(parameters.at(r, c).sub_spec(S::zero_spec()) == parameters.at(r, c));
            }
            assert(stepped.columns[c] =~= parameters.columns[c]);
        }
        assert(stepped.columns =~= parameters.columns);
    }
}

/// With fixed-point numbers, a step against a gradient of zeros leaves the parameters as
/// they are, in every epoch and under every schedule.
pub proof fn lemma_sgd_zero_gradient_fixed(
    schedule: LearningRateSchedule<crate::fixed::Fixed>,
    epoch: usize,
    parameters: MatrixView<crate::fixed::Fixed>,
)
    requires
        parameters.wf(),
    ensures
        SGD::step(
            schedule,
            epoch,
            parameters,
            MatrixView::constant(
                parameters.nrow,
                parameters.ncol(),
                crate::fixed::Fixed::nothing(),
            ),
        ) == parameters,
{
    let rate = schedule.rate(epoch);
    assert(crate::fixed::Fixed::nothing().product(rate) == crate::fixed::Fixed::nothing()) by {
        assert(0 * rate.units == 0) by (nonlinear_arith);
    }
    assert forall|r: int, c: int|
        0 <= r < parameters.nrow && 0 <= c < parameters.ncol() implies (#[trigger] parameters.at(
        r,
        c,
    )).difference(crate::fixed::Fixed::nothing()) == parameters.at(r, c) by {}
    lemma_sgd_zero_gradient(schedule, parameters);
}

} // verus!
