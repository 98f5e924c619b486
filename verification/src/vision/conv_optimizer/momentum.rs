//! Gradient descent with momentum, on images.

use crate::error::Error;
use crate::learning_rate::{default_learning_rate, LearningRateSchedule};
use crate::linalg::BinaryOp;
use crate::scalar::Scalar;
use crate::vision::image::{Image, ImageView};
use vstd::prelude::*;

verus! {

/// Gradient descent with momentum on an image: each step moves the parameters by a
/// velocity that keeps a share of the velocity of the step before.
#[derive(Debug)]
pub struct ConvMomentum<S: Scalar> {
    momentum: S,
    learning_rate: LearningRateSchedule<S>,
    /// The velocity of the last step; none before the first one.
    v: Option<Image<S>>,
}

/// Mathematical model of a [`ConvMomentum`].
pub struct ConvMomentumView<S: Scalar> {
    pub momentum: S,
    pub learning_rate: LearningRateSchedule<S>,
    pub v: Option<ImageView<S>>,
}

impl<S: Scalar> ConvMomentumView<S> {
    /// The state before any step, with the momentum and learning rate used where none are
    /// given: nine tenths, and the default schedule.
    pub open spec fn default_spec() -> Self {
        ConvMomentumView {
            momentum: crate::scalar::ratio_spec::<S>(9, 10),
            learning_rate: LearningRateSchedule::<S>::default_spec(),
            v: None,
        }
    }

    /// Whether two images have the same dimensions.
    pub open spec fn same_shape(a: ImageView<S>, b: ImageView<S>) -> bool {
        a.nrow == b.nrow && a.ncol == b.ncol && a.nchan == b.nchan && a.nsamples() == b.nsamples()
    }

    /// The velocity that the next step starts from: that of the last step, or zeros in the
    /// shape of the gradient before the first one.
    pub open spec fn previous_velocity(self, gradient: ImageView<S>) -> ImageView<S> {
        match self.v {
            Some(v) => v,
            None => ImageView::constant(
                gradient.nrow,
                gradient.ncol,
                gradient.nchan,
                gradient.nsamples(),
                S::zero_spec(),
            ),
        }
    }

    /// The velocity of a step in epoch `epoch`: `momentum * v + rate * gradient`.
    pub open spec fn velocity(self, epoch: usize, gradient: ImageView<S>) -> ImageView<S> {
        self.previous_velocity(gradient).with_scalar(BinaryOp::Mul, self.momentum).zip(
            BinaryOp::Add,
            gradient.with_scalar(BinaryOp::Mul, self.learning_rate.rate(epoch)),
        )
    }

    /// The parameters after a step in epoch `epoch`: `parameters - velocity`.
    pub open spec fn step(
        self,
        epoch: usize,
        parameters: ImageView<S>,
        gradient: ImageView<S>,
    ) -> ImageView<S> {
        parameters.zip(BinaryOp::Sub, self.velocity(epoch, gradient))
    }

    /// The state after a step in epoch `epoch`.
    pub open spec fn after(self, epoch: usize, gradient: ImageView<S>) -> Self {
        ConvMomentumView { v: Some(self.velocity(epoch, gradient)), ..self }
    }

    /// Whether a step can be taken: the gradient has the shape of the parameters, and so
    /// has the velocity of the last step, if there was one.
    pub open spec fn accepts(self, parameters: ImageView<S>, gradient: ImageView<S>) -> bool {
        &&& Self::same_shape(parameters, gradient)
        &&& (self.v matches Some(v) ==> Self::same_shape(v, gradient))
    }
}

impl<S: Scalar> View for ConvMomentum<S> {
    type V = ConvMomentumView<S>;

    closed spec fn view(&self) -> ConvMomentumView<S> {
        ConvMomentumView {
            momentum: self.momentum,
            learning_rate: self.learning_rate,
            v: match self.v {
                Some(v) => Some(v@),
                None => None,
            },
        }
    }
}

/// Whether two images have the same dimensions.
pub fn same_shape<S: Scalar>(a: &Image<S>, b: &Image<S>) -> (same: bool)
    ensures
        same == ConvMomentumView::same_shape(a@, b@),
        a@.wf(),
        b@.wf(),
{
    let dims = a.image_dims();
    let other = b.image_dims();
    dims.0 == other.0 && dims.1 == other.1 && dims.2 == other.2 && a.samples() == b.samples()
}

impl<S: Scalar> ConvMomentum<S> {
    /// Momentum descent with the given schedule and momentum, before any step.
    pub fn new(learning_rate: LearningRateSchedule<S>, momentum: S) -> (out: Self)
        ensures
            out@ == (ConvMomentumView { momentum, learning_rate, v: None }),
    {
        ConvMomentum { v: None, momentum, learning_rate }
    }

    /// Momentum descent with the default momentum and learning rate, before any step.
    pub fn default() -> (out: Self)
        ensures
            out@ == ConvMomentumView::<S>::default_spec(),
    {
        ConvMomentum {
            v: None,
            momentum: crate::scalar::ratio(9, 10),
            learning_rate: default_learning_rate(),
        }
    }

    /// Whether the velocity of the last step, if there was one, has the shape of `like`.
    pub fn fits(&self, like: &Image<S>) -> (fits: bool)
        ensures
            fits == (self@.v matches Some(v) ==> ConvMomentumView::same_shape(v, like@)),
    {
        match &self.v {
            Some(v) => same_shape(v, like),
            None => true,
        }
    }

    /// Takes one step against `parameters_gradient` and returns the new parameters. The
    /// first step fixes the shape of the velocity to that of the gradient.
    pub fn update_parameters(
        &mut self,
        epoch: usize,
        parameters: &Image<S>,
        parameters_gradient: &Image<S>,
    ) -> (out: Result<Image<S>, Error>)
        ensures
            out is Ok <==> old(self)@.accepts(parameters@, parameters_gradient@),
            out matches Ok(updated) ==> {
                &&& updated@.wf()
                &&& updated@ == old(self)@.step(epoch, parameters@, parameters_gradient@)
                &&& final(self)@ == old(self)@.after(epoch, parameters_gradient@)
            },
            out matches Err(error) ==> error == Error::ShapeMismatch && final(self)@ == old(self)@,
    {
        if !same_shape(parameters, parameters_gradient) {
            return Err(Error::ShapeMismatch);
        }
        let rate = self.learning_rate.get_learning_rate(epoch);
        let previous = match &self.v {
            Some(v) => {
                if !same_shape(v, parameters_gradient) {
                    return Err(Error::ShapeMismatch);
                }
                v.scalar_mul(self.momentum)
            },
            None => {
                let dims = parameters_gradient.image_dims();
                Image::zeros(dims.0, dims.1, dims.2, parameters_gradient.samples()).scalar_mul(
                    self.momentum,
                )
            },
        };
        let scaled = parameters_gradient.scalar_mul(rate);
        match previous.component_add(&scaled) {
            Ok(velocity) => {
                let updated = parameters.component_sub(&velocity);
                match updated {
                    Ok(updated) => {
                        self.v = Some(velocity);
                        Ok(updated)
                    },
                    Err(error) => Err(error),
                }
            },
            Err(error) => Err(error),
        }
    }
}

} // verus!
