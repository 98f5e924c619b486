//! Layers that apply a function to each entry.

use crate::error::Error;
use crate::linalg::{BinaryOp, Matrix, MatrixView, UnaryOp};
use crate::scalar::Scalar;
use vstd::prelude::*;

verus! {

/// The functions that an activation layer can apply.
#[derive(Debug, Clone, Copy, PartialEq, Eq, Structural)]
pub enum Activation {
    /// The entry itself.
    Linear,
    /// The entry where it is above zero, else zero.
    ReLU,
    /// The logistic function of the entry.
    Sigmoid,
    /// The hyperbolic tangent of the entry.
    Tanh,
}

impl Activation {
    /// The function itself.
    pub open spec fn function_spec(self) -> UnaryOp {
        match self {
            Activation::Linear => UnaryOp::Identity,
            Activation::ReLU => UnaryOp::Relu,
            Activation::Sigmoid => UnaryOp::Sigmoid,
            Activation::Tanh => UnaryOp::Tanh,
        }
    }

    /// The derivative of the function.
    pub open spec fn slope_spec(self) -> UnaryOp {
        match self {
            Activation::Linear => UnaryOp::One,
            Activation::ReLU => UnaryOp::ReluSlope,
            Activation::Sigmoid => UnaryOp::SigmoidSlope,
            Activation::Tanh => UnaryOp::TanhSlope,
        }
    }

    /// The function itself.
    pub fn function(self) -> (op: UnaryOp)
        ensures
            op == self.function_spec(),
    {
        match self {
            Activation::Linear => UnaryOp::Identity,
            Activation::ReLU => UnaryOp::Relu,
            Activation::Sigmoid => UnaryOp::Sigmoid,
            Activation::Tanh => UnaryOp::Tanh,
        }
    }

    /// The derivative of the function.
    pub fn slope(self) -> (op: UnaryOp)
        ensures
            op == self.slope_spec(),
    {
        match self {
            Activation::Linear => UnaryOp::One,
            Activation::ReLU => UnaryOp::ReluSlope,
            Activation::Sigmoid => UnaryOp::SigmoidSlope,
            Activation::Tanh => UnaryOp::TanhSlope,
        }
    }
}

/// A layer that applies one function to each entry of its input. It has nothing to learn.
#[derive(Debug)]
pub struct ActivationLayer<S: Scalar> {
    activation: Activation,
    /// The input of the last forward pass.
    input: Option<Matrix<S>>,
}

/// Mathematical model of an [`ActivationLayer`].
pub struct ActivationView<S: Scalar> {
    pub activation: Activation,
    pub input: Option<MatrixView<S>>,
}

impl<S: Scalar> ActivationView<S> {
    /// The layer's invariant: the input kept from the last forward pass is a matrix.
    pub open spec fn wf(self) -> bool {
        self.input matches Some(input) ==> input.wf()
    }

    /// What the layer makes of `input`: the function of each entry.
    pub open spec fn output(self, input: MatrixView<S>) -> MatrixView<S> {
        input.map(self.activation.function_spec())
    }

    /// The layer after a forward pass of `input`.
    pub open spec fn after_forward(self, input: MatrixView<S>) -> Self {
        ActivationView { input: Some(input), ..self }
    }

    /// Whether a gradient can be sent back: an input has gone through, and the gradient has
    /// its shape.
    pub open spec fn accepts_gradient(self, output_gradient: MatrixView<S>) -> bool {
        self.input matches Some(input) && output_gradient.nrow == input.nrow
            && output_gradient.ncol() == input.ncol()
    }

    /// The gradient of the loss with respect to the input: the gradient with respect to the
    /// output, times the derivative of the function at the input, entry by entry.
    pub open spec fn input_gradient(self, output_gradient: MatrixView<S>) -> MatrixView<S> {
        output_gradient.zip(BinaryOp::Mul, self.input->0.map(self.activation.slope_spec()))
    }
}

impl<S: Scalar> View for ActivationLayer<S> {
    type V = ActivationView<S>;

    closed spec fn view(&self) -> ActivationView<S> {
        ActivationView {
            activation: self.activation,
            input: match self.input {
                Some(input) => Some(input@),
                None => None,
            },
        }
    }
}

impl<S: Scalar> ActivationLayer<S> {
    /// The layer's invariant holds.
    pub open spec fn wf(&self) -> bool {
        self@.wf()
    }

    /// A layer that applies `activation`, and that no input has gone through.
    pub fn new(activation: Activation) -> (layer: Self)
        ensures
            layer.wf(),
            layer@ == (ActivationView::<S> { activation, input: None }),
    {
        ActivationLayer { activation, input: None }
    }

    /// Sends `input` through the layer and keeps it for the backward pass.
    pub fn forward(&mut self, input: Matrix<S>) -> (output: Matrix<S>)
        requires
            old(self).wf(),
        ensures
            final(self).wf(),
            output@ == old(self)@.output(input@),
            output@.wf(),
            output@.nrow == input@.nrow,
            output@.ncol() == input@.ncol(),
            final(self)@ == old(self)@.after_forward(input@),
    {
        let shape = input.dim();
        let output = input.map_with(self.activation.function());
        self.input = Some(input);
        output
    }

    /// Sends `output_gradient`, which must have the shape of the last input, back through
    /// the layer.
    pub fn backward(&mut self, epoch: usize, output_gradient: Matrix<S>) -> (out: Result<
        Matrix<S>,
        Error,
    >)
        requires
            old(self).wf(),
        ensures
            final(self).wf(),
            final(self)@ == old(self)@,
            out is Ok <==> old(self)@.accepts_gradient(output_gradient@),
            out matches Ok(input_gradient) ==> {
                &&& input_gradient@ == old(self)@.input_gradient(output_gradient@)
                &&& input_gradient@.wf()
                &&& input_gradient@.nrow == output_gradient@.nrow
                &&& input_gradient@.ncol() == output_gradient@.ncol()
            },
            out matches Err(error) ==> error == if old(self)@.input is None {
                Error::UninitializedState
            } else {
                Error::ShapeMismatch
            },
    {
        let gradient_shape = output_gradient.dim();
        match &self.input {
            None => Err(Error::UninitializedState),
            Some(input) => {
                let shape = input.dim();
                if gradient_shape.0 != shape.0 || gradient_shape.1 != shape.1 {
                    return Err(Error::ShapeMismatch);
                }
                output_gradient.component_mul(&input.map_with(self.activation.slope()))
            },
        }
    }
}

} // verus!
