//! The rules by which a learnable tensor follows its gradient.

use crate::error::Error;
use crate::linalg::{Matrix, MatrixView};
use crate::optimizer::adam::{Adam, AdamView};
use crate::optimizer::momentum::{Momentum, MomentumView};
use crate::optimizer::sgd::SGD;
use crate::learning_rate::LearningRateSchedule;
use crate::scalar::Scalar;
use vstd::prelude::*;

pub mod adam;
pub mod momentum;
pub mod momentum_fixed;
pub mod sgd;

verus! {

/// The optimizer of one learnable tensor.
#[derive(Debug)]
pub enum Optimizers<S: Scalar> {
    SGD(SGD<S>),
    Momentum(Momentum<S>),
    Adam(Adam<S>),
}

/// Mathematical model of an [`Optimizers`].
pub enum OptimizersView<S: Scalar> {
    SGD(LearningRateSchedule<S>),
    Momentum(MomentumView<S>),
    Adam(AdamView<S>),
}

impl<S: Scalar> OptimizersView<S> {
    /// Whether a step can be taken on parameters and a gradient of these shapes.
    pub open spec fn accepts(self, parameters: MatrixView<S>, gradient: MatrixView<S>) -> bool {
        match self {
            OptimizersView::SGD(_) => parameters.nrow == gradient.nrow && parameters.ncol()
                == gradient.ncol(),
            OptimizersView::Momentum(momentum) => momentum.accepts(parameters, gradient),
            OptimizersView::Adam(adam) => adam.accepts(parameters, gradient),
        }
    }

    /// The parameters after a step in epoch `epoch`.
    pub open spec fn step(
        self,
        epoch: usize,
        parameters: MatrixView<S>,
        gradient: MatrixView<S>,
    ) -> MatrixView<S> {
        match self {
            OptimizersView::SGD(schedule) => SGD::step(schedule, epoch, parameters, gradient),
            OptimizersView::Momentum(momentum) => momentum.step(epoch, parameters, gradient),
            OptimizersView::Adam(adam) => adam.step(epoch, parameters, gradient),
        }
    }

    /// The optimizer after a step in epoch `epoch`.
    pub open spec fn after(self, epoch: usize, gradient: MatrixView<S>) -> Self {
        match self {
            OptimizersView::SGD(schedule) => self,
            OptimizersView::Momentum(momentum) => OptimizersView::Momentum(
                momentum.after(epoch, gradient),
            ),
            OptimizersView::Adam(adam) => OptimizersView::Adam(adam.after(gradient)),
        }
    }

    /// Whether the optimizer fits a tensor of `nrow` rows and `ncol` columns: what it
    /// remembers of earlier steps, if anything, has that shape.
    pub open spec fn fits(self, nrow: nat, ncol: nat) -> bool {
        match self {
            OptimizersView::SGD(_) => true,
            OptimizersView::Momentum(momentum) => momentum.v matches Some(v) ==> v.nrow == nrow
                && v.ncol() == ncol,
            OptimizersView::Adam(adam) => {
                &&& (adam.m matches Some(m) ==> m.nrow == nrow && m.ncol() == ncol)
                &&& (adam.v matches Some(v) ==> v.nrow == nrow && v.ncol() == ncol)
            },
        }
    }
}

impl<S: Scalar> View for Optimizers<S> {
    type V = OptimizersView<S>;

    open spec fn view(&self) -> OptimizersView<S> {
        match self {
            Optimizers::SGD(sgd) => OptimizersView::SGD(sgd@),
            Optimizers::Momentum(momentum) => OptimizersView::Momentum(momentum@),
            Optimizers::Adam(adam) => OptimizersView::Adam(adam@),
        }
    }
}

impl<S: Scalar> Clone for Optimizers<S> {
    fn clone(&self) -> (out: Self)
        ensures
            out@ == self@,
    {
        match self {
            Optimizers::SGD(sgd) => Optimizers::SGD(*sgd),
            Optimizers::Momentum(momentum) => Optimizers::Momentum(momentum.clone()),
            Optimizers::Adam(adam) => Optimizers::Adam(adam.clone()),
        }
    }
}

impl<S: Scalar> Optimizers<S> {
    /// Whether the optimizer fits a tensor of `nrow` rows and `ncol` columns.
    pub fn fits(&self, nrow: usize, ncol: usize) -> (fits: bool)
        ensures
            fits == self@.fits(nrow as nat, ncol as nat),
    {
        match self {
            Optimizers::SGD(_) => true,
            Optimizers::Momentum(momentum) => momentum.fits(nrow, ncol),
            Optimizers::Adam(adam) => adam.fits(nrow, ncol),
        }
    }

    /// Takes one step against `parameters_gradient`, which must have the shape of
    /// `parameters` and of what the optimizer remembers, and returns the new parameters.
    pub fn update_parameters(
        &mut self,
        epoch: usize,
        parameters: &Matrix<S>,
        parameters_gradient: &Matrix<S>,
    ) -> (out: Result<Matrix<S>, Error>)
        ensures
            out is Ok <==> old(self)@.accepts(parameters@, parameters_gradient@),
            out matches Ok(updated) ==> {
                &&& updated@ == old(self)@.step(epoch, parameters@, parameters_gradient@)
                &&& final(self)@ == old(self)@.after(epoch, parameters_gradient@)
            },
            out matches Err(error) ==> error == Error::ShapeMismatch && final(self)@ == old(self)@,
    {
        match self {
            Optimizers::SGD(sgd) => sgd.update_parameters(epoch, parameters, parameters_gradient),
            Optimizers::Momentum(momentum) => {
                momentum.update_parameters(epoch, parameters, parameters_gradient)
            },
            Optimizers::Adam(adam) => {
                adam.update_parameters(epoch, parameters, parameters_gradient)
            },
        }
    }
}

/// Adam with its default constants.
pub fn adam<S: Scalar>() -> (out: Optimizers<S>)
    ensures
        out@ == OptimizersView::Adam(AdamView::<S>::default_spec()),
{
    Optimizers::Adam(Adam::default())
}

/// Gradient descent with the default learning rate.
pub fn sgd<S: Scalar>() -> (out: Optimizers<S>)
    ensures
        out@ == OptimizersView::SGD(LearningRateSchedule::<S>::default_spec()),
{
    Optimizers::SGD(SGD::default())
}

/// Momentum descent with its default constants.
pub fn momentum<S: Scalar>() -> (out: Optimizers<S>)
    ensures
        out@ == OptimizersView::Momentum(MomentumView::<S>::default_spec()),
{
    Optimizers::Momentum(Momentum::default())
}

} // verus!
