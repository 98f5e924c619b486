//! Adaptive moment estimation.

use crate::error::Error;
use crate::learning_rate::{default_learning_rate, LearningRateSchedule};
use crate::linalg::{BinaryOp, Matrix, MatrixView, UnaryOp};
use crate::scalar::Scalar;
use vstd::prelude::*;

verus! {

/// Adam: each step follows a running mean of the gradients, scaled entry by entry by the
/// root of a running mean of their squares.
#[derive(Debug)]
pub struct Adam<S: Scalar> {
    learning_rate: LearningRateSchedule<S>,
    beta1: S,
    beta2: S,
    epsilon: S,
    /// The running mean of the gradients; none before the first step.
    m: Option<Matrix<S>>,
    /// The running mean of the squared gradients; none before the first step.
    v: Option<Matrix<S>>,
}

/// Mathematical model of an [`Adam`].
pub struct AdamView<S: Scalar> {
    pub learning_rate: LearningRateSchedule<S>,
    pub beta1: S,
    pub beta2: S,
    pub epsilon: S,
    pub m: Option<MatrixView<S>>,
    pub v: Option<MatrixView<S>>,
}

impl<S: Scalar> AdamView<S> {
    /// The state before any step, with the constants used where none are given: the
    /// default schedule, decay rates of 0.9 and 0.999, and an epsilon of a hundred
    /// millionth.
    pub open spec fn default_spec() -> Self {
        AdamView {
            learning_rate: LearningRateSchedule::<S>::default_spec(),
            beta1: crate::scalar::ratio_spec::<S>(9, 10),
            beta2: crate::scalar::ratio_spec::<S>(999, 1000),
            epsilon: crate::scalar::ratio_spec::<S>(1, 100000000),
            m: None,
            v: None,
        }
    }

    /// A moment of the last step, or zeros in the shape of the gradient before the first.
    pub open spec fn previous(moment: Option<MatrixView<S>>, gradient: MatrixView<S>) -> MatrixView<
        S,
    > {
        match moment {
            Some(moment) => moment,
            None => MatrixView::constant(gradient.nrow, gradient.ncol(), S::zero_spec()),
        }
    }

    /// The first moment after a step: `beta1 * m + (1 - beta1) * gradient`.
    pub open spec fn first_moment(self, gradient: MatrixView<S>) -> MatrixView<S> {
        Self::previous(self.m, gradient).with_scalar(BinaryOp::Mul, self.beta1).zip(
            BinaryOp::Add,
            gradient.with_scalar(BinaryOp::Mul, S::one_spec().sub_spec(self.beta1)),
        )
    }

    /// The second moment after a step: `beta2 * v + (1 - beta2) * gradient^2`.
    pub open spec fn second_moment(self, gradient: MatrixView<S>) -> MatrixView<S> {
        Self::previous(self.v, gradient).with_scalar(BinaryOp::Mul, self.beta2).zip(
            BinaryOp::Add,
            gradient.map(UnaryOp::Square).with_scalar(
                BinaryOp::Mul,
                S::one_spec().sub_spec(self.beta2),
            ),
        )
    }

    /// What a moment is divided by to correct its bias in epoch `epoch`:
    /// `1 - beta^(epoch + 1)`.
    pub open spec fn correction(beta: S, epoch: usize) -> S {
        S::one_spec().sub_spec(crate::scalar::power_spec(beta, (epoch + 1) as nat))
    }

    /// The parameters after a step in epoch `epoch`:
    /// `parameters - rate * m_hat / (sqrt(v_hat) + epsilon)`, where `m_hat` and `v_hat` are
    /// the two moments after the step, each corrected for its bias.
    pub open spec fn step(
        self,
        epoch: usize,
        parameters: MatrixView<S>,
        gradient: MatrixView<S>,
    ) -> MatrixView<S> {
        let m_hat = self.first_moment(gradient).with_scalar(
            BinaryOp::Div,
            Self::correction(self.beta1, epoch),
        );
        let v_hat = self.second_moment(gradient).with_scalar(
            BinaryOp::Div,
            Self::correction(self.beta2, epoch),
        );
        let divisor = v_hat.map(UnaryOp::Sqrt).with_scalar(BinaryOp::Add, self.epsilon);
        parameters.zip(
            BinaryOp::Sub,
            m_hat.zip(BinaryOp::Div, divisor).with_scalar(
                BinaryOp::Mul,
                self.learning_rate.rate(epoch),
            ),
        )
    }

    /// The state after a step.
    pub open spec fn after(self, gradient: MatrixView<S>) -> Self {
        AdamView {
            m: Some(self.first_moment(gradient)),
            v: Some(self.second_moment(gradient)),
            ..self
        }
    }

    /// Whether a step can be taken: the gradient has the shape of the parameters, and so
    /// have the moments of the last step, if there was one.
    pub open spec fn accepts(self, parameters: MatrixView<S>, gradient: MatrixView<S>) -> bool {
        &&& parameters.nrow == gradient.nrow
        &&& parameters.ncol() == gradient.ncol()
        &&& (self.m matches Some(m) ==> m.nrow == gradient.nrow && m.ncol() == gradient.ncol())
        &&& (self.v matches Some(v) ==> v.nrow == gradient.nrow && v.ncol() == gradient.ncol())
    }
}

impl<S: Scalar> View for Adam<S> {
    type V = AdamView<S>;

    closed spec fn view(&self) -> AdamView<S> {
        AdamView {
            learning_rate: self.learning_rate,
            beta1: self.beta1,
            beta2: self.beta2,
            epsilon: self.epsilon,
            m: match self.m {
                Some(m) => Some(m@),
                None => None,
            },
            v: match self.v {
                Some(v) => Some(v@),
                None => None,
            },
        }
    }
}

impl<S: Scalar> Clone for Adam<S> {
    fn clone(&self) -> (out: Self)
        ensures
            out@ == self@,
    {
        Adam {
            learning_rate: self.learning_rate,
            beta1: self.beta1,
            beta2: self.beta2,
            epsilon: self.epsilon,
            m: match &self.m {
                Some(m) => Some(m.clone()),
                None => None,
            },
            v: match &self.v {
                Some(v) => Some(v.clone()),
                None => None,
            },
        }
    }
}

/// A moment of the last step, or zeros of the given shape before the first; a moment of
/// another shape is refused.
fn previous_moment<S: Scalar>(moment: &Option<Matrix<S>>, nrow: usize, ncol: usize) -> (out: Option<
    Matrix<S>,
>)
    ensures
        out is Some <==> (moment matches Some(m) ==> m@.nrow == nrow && m@.ncol() == ncol),
        out matches Some(previous) ==> previous@ == (match moment {
            Some(m) => m@,
            None => MatrixView::constant(nrow as nat, ncol as nat, S::zero_spec()),
        }),
{
    match moment {
        Some(m) => {
            let shape = m.dim();
            if shape.0 != nrow || shape.1 != ncol {
                None
            } else {
                Some(m.clone())
            }
        },
        None => Some(Matrix::zeros(nrow, ncol)),
    }
}

impl<S: Scalar> Adam<S> {
    /// Adam with the given schedule and constants, before any step.
    pub fn new(learning_rate: LearningRateSchedule<S>, beta1: S, beta2: S, epsilon: S) -> (out:
        Self)
        ensures
            out@ == (AdamView { learning_rate, beta1, beta2, epsilon, m: None, v: None }),
    {
        Adam { learning_rate, beta1, beta2, epsilon, m: None, v: None }
    }

    /// Adam with the default schedule and constants, before any step.
    pub fn default() -> (out: Self)
        ensures
            out@ == AdamView::<S>::default_spec(),
    {
        Adam {
            learning_rate: default_learning_rate(),
            beta1: crate::scalar::ratio(9, 10),
            beta2: crate::scalar::ratio(999, 1000),
            epsilon: crate::scalar::ratio(1, 100000000),
            m: None,
            v: None,
        }
    }

    /// Whether the moments of the last step, if there was one, have `nrow` rows and `ncol`
    /// columns.
    pub fn fits(&self, nrow: usize, ncol: usize) -> (fits: bool)
        ensures
            fits == {
                &&& (self@.m matches Some(m) ==> m.nrow == nrow && m.ncol() == ncol)
                &&& (self@.v matches Some(v) ==> v.nrow == nrow && v.ncol() == ncol)
            },
    {
        let first = match &self.m {
            Some(m) => {
                let shape = m.dim();
                shape.0 == nrow && shape.1 == ncol
            },
            None => true,
        };
        let second = match &self.v {
            Some(v) => {
                let shape = v.dim();
                shape.0 == nrow && shape.1 == ncol
            },
            None => true,
        };
        first && second
    }

    /// Takes one step against `parameters_gradient` and returns the new parameters. The
    /// first step fixes the shape of the moments to that of the gradient.
    pub fn update_parameters(
        &mut self,
        epoch: usize,
        parameters: &Matrix<S>,
        parameters_gradient: &Matrix<S>,
    ) -> (out: Result<Matrix<S>, Error>)
        ensures
            out is Ok <==> old(self)@.accepts(parameters@, parameters_gradient@),
            out matches Ok(updated) ==> {
                &&& updated@ == old(self)@.step(epoch, parameters@, parameters_gradient@)
                &&& final(self)@ == old(self)@.after(parameters_gradient@)
            },
            out matches Err(error) ==> error == Error::ShapeMismatch && final(self)@ == old(self)@,
    {
        let shape = parameters.dim();
        let gradient_shape = parameters_gradient.dim();
        if shape.0 != gradient_shape.0 || shape.1 != gradient_shape.1 {
            return Err(Error::ShapeMismatch);
        }
        let m_previous = match previous_moment(&self.m, gradient_shape.0, gradient_shape.1) {
            Some(previous) => previous,
            None => {
                return Err(Error::ShapeMismatch);
            },
        };
        let v_previous = match previous_moment(&self.v, gradient_shape.0, gradient_shape.1) {
            Some(previous) => previous,
            None => {
                return Err(Error::ShapeMismatch);
            },
        };
        let rate = self.learning_rate.get_learning_rate(epoch);
        let one = S::one();
        let m_gain = parameters_gradient.scalar_mul(one.sub(self.beta1));
        let m = m_previous.scalar_mul(self.beta1).component_add(&m_gain)?;
        let v_gain = parameters_gradient.square().scalar_mul(one.sub(self.beta2));
        let v = v_previous.scalar_mul(self.beta2).component_add(&v_gain)?;
        let m_hat = m.scalar_div(
            one.sub(crate::scalar::power(self.beta1, epoch).mul(self.beta1)),
        );
        let v_hat = v.scalar_div(
            one.sub(crate::scalar::power(self.beta2, epoch).mul(self.beta2)),
        );
        let divisor = v_hat.sqrt().scalar_add(self.epsilon);
        let change = m_hat.component_div(&divisor)?.scalar_mul(rate);
        let updated = parameters.component_sub(&change)?;
        self.m = Some(m);
        self.v = Some(v);
        Ok(updated)
    }
}

} // verus!
