//! The rules by which a learnable image follows its gradient.

use crate::error::Error;
use crate::learning_rate::LearningRateSchedule;
use crate::scalar::Scalar;
use crate::vision::conv_optimizer::momentum::{ConvMomentum, ConvMomentumView};
use crate::vision::conv_optimizer::sgd::ConvSGD;
use crate::vision::image::{Image, ImageView};
use vstd::prelude::*;

pub mod momentum;
pub mod sgd;

verus! {

/// The optimizer of one learnable image.
#[derive(Debug)]
pub enum ConvOptimizers<S: Scalar> {
    SGD(ConvSGD<S>),
    Momentum(ConvMomentum<S>),
}

/// Mathematical model of a [`ConvOptimizers`].
pub enum ConvOptimizersView<S: Scalar> {
    SGD(LearningRateSchedule<S>),
    Momentum(ConvMomentumView<S>),
}

impl<S: Scalar> ConvOptimizersView<S> {
    /// Whether a step can be taken on parameters and a gradient of these shapes.
    pub open spec fn accepts(self, parameters: ImageView<S>, gradient: ImageView<S>) -> bool {
        match self {
            ConvOptimizersView::SGD(_) => ConvMomentumView::same_shape(parameters, gradient),
            ConvOptimizersView::Momentum(momentum) => momentum.accepts(parameters, gradient),
        }
    }

    /// The parameters after a step in epoch `epoch`.
    pub open spec fn step(
        self,
        epoch: usize,
        parameters: ImageView<S>,
        gradient: ImageView<S>,
    ) -> ImageView<S> {
        match self {
            ConvOptimizersView::SGD(schedule) => ConvSGD::step(
                schedule,
                epoch,
                parameters,
                gradient,
            ),
            ConvOptimizersView::Momentum(momentum) => momentum.step(epoch, parameters, gradient),
        }
    }

    /// The optimizer after a step in epoch `epoch`.
    pub open spec fn after(self, epoch: usize, gradient: ImageView<S>) -> Self {
        match self {
            ConvOptimizersView::SGD(_) => self,
            ConvOptimizersView::Momentum(momentum) => ConvOptimizersView::Momentum(
                momentum.after(epoch, gradient),
            ),
        }
    }

    /// Whether the optimizer fits an image of these dimensions: what it remembers of
    /// earlier steps, if anything, has them.
    pub open spec fn fits_shape(self, nrow: nat, ncol: nat, nchan: nat, nsamples: nat) -> bool {
        match self {
            ConvOptimizersView::SGD(_) => true,
            ConvOptimizersView::Momentum(momentum) => momentum.v matches Some(v) ==> v.nrow
                == nrow && v.ncol == ncol && v.nchan == nchan && v.nsamples() == nsamples,
        }
    }

    /// Whether the optimizer fits an image of the shape of `like`.
    pub open spec fn fits(self, like: ImageView<S>) -> bool {
        self.fits_shape(like.nrow, like.ncol, like.nchan, like.nsamples())
    }
}

impl<S: Scalar> View for ConvOptimizers<S> {
    type V = ConvOptimizersView<S>;

    open spec fn view(&self) -> ConvOptimizersView<S> {
        match self {
            ConvOptimizers::SGD(sgd) => ConvOptimizersView::SGD(sgd@),
            ConvOptimizers::Momentum(momentum) => ConvOptimizersView::Momentum(momentum@),
        }
    }
}

impl<S: Scalar> ConvOptimizers<S> {
    /// Whether the optimizer fits an image of the shape of `like`.
    pub fn fits(&self, like: &Image<S>) -> (fits: bool)
        ensures
            fits == self@.fits(like@),
    {
        match self {
            ConvOptimizers::SGD(_) => true,
            ConvOptimizers::Momentum(momentum) => momentum.fits(like),
        }
    }

    /// Takes one step against `parameters_gradient`, which must have the shape of
    /// `parameters` and of what the optimizer remembers, and returns the new parameters.
    pub fn update_parameters(
        &mut self,
        epoch: usize,
        parameters: &Image<S>,
        parameters_gradient: &Image<S>,
    ) -> (out: Result<Image<S>, Error>)
        ensures
            out is Ok <==> old(self)@.accepts(parameters@, parameters_gradient@),
            out matches Ok(updated) ==> {
                &&& updated@.wf()
                &&& updated@ == old(self)@.step(epoch, parameters@, parameters_gradient@)
                &&& final(self)@ == old(self)@.after(epoch, parameters_gradient@)
            },
            out matches Err(error) ==> error == Error::ShapeMismatch && final(self)@ == old(self)@,
    {
        match self {
            ConvOptimizers::SGD(sgd) => sgd.update_parameters(epoch, parameters, parameters_gradient),
            ConvOptimizers::Momentum(momentum) => {
                momentum.update_parameters(epoch, parameters, parameters_gradient)
            },
        }
    }
}

/// Gradient descent on images with the default learning rate.
pub fn conv_sgd<S: Scalar>() -> (out: ConvOptimizers<S>)
    ensures
        out@ == ConvOptimizersView::SGD(LearningRateSchedule::<S>::default_spec()),
{
    ConvOptimizers::SGD(ConvSGD::default())
}

/// Momentum descent on images with its default constants.
pub fn conv_momentum<S: Scalar>() -> (out: ConvOptimizers<S>)
    ensures
        out@ == ConvOptimizersView::Momentum(ConvMomentumView::<S>::default_spec()),
{
    ConvOptimizers::Momentum(ConvMomentum::default())
}

} // verus!
