//! Gradient descent with momentum.

use crate::error::Error;
use crate::learning_rate::{default_learning_rate, LearningRateSchedule};
use crate::linalg::{BinaryOp, Matrix, MatrixView};
use crate::scalar::Scalar;
use vstd::prelude::*;

verus! {

/// Gradient descent with momentum: each step moves the parameters by a velocity that
/// keeps a share of the velocity of the step before.
#[derive(Debug)]
pub struct Momentum<S: Scalar> {
    momentum: S,
    learning_rate: LearningRateSchedule<S>,
    /// The velocity of the last step; none before the first one.
    v: Option<Matrix<S>>,
}

/// Mathematical model of a [`Momentum`].
pub struct MomentumView<S: Scalar> {
    pub momentum: S,
    pub learning_rate: LearningRateSchedule<S>,
    pub v: Option<MatrixView<S>>,
}

impl<S: Scalar> MomentumView<S> {
    /// The state before any step, with the momentum and learning rate used where none are
    /// given: nine tenths, and the default schedule.
    pub open spec fn default_spec() -> Self {
        MomentumView {
            momentum: crate::scalar::ratio_spec::<S>(9, 10),
            learning_rate: LearningRateSchedule::<S>::default_spec(),
            v: None,
        }
    }

    /// The velocity that the next step starts from: that of the last step, or zeros in the
    /// shape of the gradient before the first one.
    pub open spec fn previous_velocity(self, gradient: MatrixView<S>) -> MatrixView<S> {
        match self.v {
            Some(v) => v,
            None => MatrixView::constant(gradient.nrow, gradient.ncol(), S::zero_spec()),
        }
    }

    /// The velocity of a step in epoch `epoch`: `momentum * v + rate * gradient`.
    pub open spec fn velocity(self, epoch: usize, gradient: MatrixView<S>) -> MatrixView<S> {
        self.previous_velocity(gradient).with_scalar(BinaryOp::Mul, self.momentum).zip(
            BinaryOp::Add,
            gradient.with_scalar(BinaryOp::Mul, self.learning_rate.rate(epoch)),
        )
    }

    /// The parameters after a step in epoch `epoch`: `parameters - velocity`.
    pub open spec fn step(
        self,
        epoch: usize,
        parameters: MatrixView<S>,
        gradient: MatrixView<S>,
    ) -> MatrixView<S> {
        parameters.zip(BinaryOp::Sub, self.velocity(epoch, gradient))
    }

    /// The state after a step in epoch `epoch`.
    pub open spec fn after(self, epoch: usize, gradient: MatrixView<S>) -> Self {
        MomentumView { v: Some(self.velocity(epoch, gradient)), ..self }
    }

    /// Whether a step can be taken: the gradient has the shape of the parameters, and so
    /// has the velocity of the last step, if there was one.
    pub open spec fn accepts(self, parameters: MatrixView<S>, gradient: MatrixView<S>) -> bool {
        &&& parameters.nrow == gradient.nrow
        &&& parameters.ncol() == gradient.ncol()
        &&& (self.v matches Some(v) ==> v.nrow == gradient.nrow && v.ncol() == gradient.ncol())
    }
}

impl<S: Scalar> View for Momentum<S> {
    type V = MomentumView<S>;

    closed spec fn view(&self) -> MomentumView<S> {
        MomentumView {
            momentum: self.momentum,
            learning_rate: self.learning_rate,
            v: match self.v {
                Some(v) => Some(v@),
                None => None,
            },
        }
    }
}

impl<S: Scalar> Clone for Momentum<S> {
    fn clone(&self) -> (out: Self)
        ensures
            out@ == self@,
    {
        Momentum {
            momentum: self.momentum,
            learning_rate: self.learning_rate,
            v: match &self.v {
                Some(v) => Some(v.clone()),
                None => None,
            },
        }
    }
}

impl<S: Scalar> Momentum<S> {
    /// Momentum descent with the given schedule and momentum, before any step.
    pub fn new(learning_rate: LearningRateSchedule<S>, momentum: S) -> (out: Self)
        ensures
            out@ == (MomentumView { momentum, learning_rate, v: None }),
    {
        Momentum { v: None, momentum, learning_rate }
    }

    /// Momentum descent with the default momentum and learning rate, before any step.
    pub fn default() -> (out: Self)
        ensures
            out@ == MomentumView::<S>::default_spec(),
    {
        Momentum {
            v: None,
            momentum: crate::scalar::ratio(9, 10),
            learning_rate: default_learning_rate(),
        }
    }

    /// Whether the velocity of the last step, if there was one, has `nrow` rows and `ncol`
    /// columns.
    pub fn fits(&self, nrow: usize, ncol: usize) -> (fits: bool)
        ensures
            fits == (self@.v matches Some(v) ==> v.nrow == nrow && v.ncol() == ncol),
    {
        match &self.v {
            Some(v) => {
                let shape = v.dim();
                shape.0 == nrow && shape.1 == ncol
            },
            None => true,
        }
    }

    /// Takes one step against `parameters_gradient` and returns the new parameters. The
    /// first step fixes the shape of the velocity to that of the gradient.
    pub fn update_parameters(
        &mut self,
        epoch: usize,
        parameters: &Matrix<S>,
        parameters_gradient: &Matrix<S>,
    ) -> (out: Result<Matrix<S>, Error>)
        ensures
            out is Ok <==> old(self)@.accepts(parameters@, parameters_gradient@),
            out matches Ok(updated) ==> {
                &&& updated@ == old(self)@.step(epoch, parameters@, parameters_gradient@)
                &&& final(self)@ == old(self)@.after(epoch, parameters_gradient@)
            },
            out matches Err(error) ==> error == Error::ShapeMismatch && final(self)@ == old(self)@,
    {
        let shape = parameters.dim();
        let gradient_shape = parameters_gradient.dim();
        if shape.0 != gradient_shape.0 || shape.1 != gradient_shape.1 {
            return Err(Error::ShapeMismatch);
        }
        let rate = self.learning_rate.get_learning_rate(epoch);
        let previous = match &self.v {
            Some(v) => {
                let velocity_shape = v.dim();
                if velocity_shape.0 != gradient_shape.0 || velocity_shape.1 != gradient_shape.1 {
                    return Err(Error::ShapeMismatch);
                }
                v.scalar_mul(self.momentum)
            },
            None => Matrix::zeros(gradient_shape.0, gradient_shape.1).scalar_mul(self.momentum),
        };
        let scaled = parameters_gradient.scalar_mul(rate);
        match previous.component_add(&scaled) {
            Ok(velocity) => {
                let updated = parameters.component_sub(&velocity);
                match updated {
                    Ok(updated) => {
                        self.v = Some(velocity);
                        Ok(updated)
                    },
                    Err(error) => Err(error),
                }
            },
            Err(error) => Err(error),
        }
    }
}

} // verus!
