//! Stochastic gradient descent, on images.

use crate::error::Error;
use crate::learning_rate::{default_learning_rate, LearningRateSchedule};
use crate::linalg::BinaryOp;
use crate::scalar::Scalar;
use crate::vision::conv_optimizer::momentum::{same_shape, ConvMomentumView};
use crate::vision::image::{Image, ImageView};
use vstd::prelude::*;

verus! {

/// Stochastic gradient descent on an image.
#[derive(Debug, Copy)]
pub struct ConvSGD<S: Scalar> {
    learning_rate: LearningRateSchedule<S>,
}

impl<S: Scalar> Clone for ConvSGD<S> {
    fn clone(&self) -> (out: Self)
        ensures
            out == *self,
    {
        *self
    }
}

impl<S: Scalar> View for ConvSGD<S> {
    type V = LearningRateSchedule<S>;

    closed spec fn view(&self) -> LearningRateSchedule<S> {
        self.learning_rate
    }
}

impl<S: Scalar> ConvSGD<S> {
    /// The parameters after a step in epoch `epoch`: `parameters - rate * gradient`, entry
    /// by entry.
    pub open spec fn step(
        schedule: LearningRateSchedule<S>,
        epoch: usize,
        parameters: ImageView<S>,
        gradient: ImageView<S>,
    ) -> ImageView<S> {
        parameters.zip(BinaryOp::Sub, gradient.with_scalar(BinaryOp::Mul, schedule.rate(epoch)))
    }

    /// Gradient descent with the default learning rate.
    pub fn default() -> (out: Self)
        ensures
            out@ == LearningRateSchedule::<S>::default_spec(),
    {
        ConvSGD { learning_rate: default_learning_rate() }
    }

    /// Gradient descent with the given schedule.
    pub fn new(learning_rate: LearningRateSchedule<S>) -> (out: Self)
        ensures
            out@ == learning_rate,
    {
        ConvSGD { learning_rate }
    }

    /// The parameters after one step against `parameters_gradient`, which must have the
    /// shape of `parameters`.
    pub fn update_parameters(
        &mut self,
        epoch: usize,
        parameters: &Image<S>,
        parameters_gradient: &Image<S>,
    ) -> (out: Result<Image<S>, Error>)
        ensures
            final(self)@ == old(self)@,
            out is Ok <==> ConvMomentumView::same_shape(parameters@, parameters_gradient@),
            out matches Ok(updated) ==> updated@.wf() && updated@ == ConvSGD::step(
                old(self)@,
                epoch,
                parameters@,
                parameters_gradient@,
            ),
            out matches Err(error) ==> error == Error::ShapeMismatch,
    {
        if !same_shape(parameters, parameters_gradient) {
            return Err(Error::ShapeMismatch);
        }
        let rate = self.learning_rate.get_learning_rate(epoch);
        parameters.component_sub(&parameters_gradient.scalar_mul(rate))
    }
}

} // verus!
