//! Layers that apply a function to each entry of an image.

use crate::error::Error;
use crate::layer::activation_layer::Activation;
use crate::linalg::BinaryOp;
use crate::scalar::Scalar;
use crate::vision::image::{Image, ImageView};
use vstd::prelude::*;

pub mod linear;

verus! {

/// A layer that applies one function to each entry of its input. It has nothing to learn.
#[derive(Debug)]
pub struct ConvActivationLayer<S: Scalar> {
    activation: Activation,
    /// The input of the last forward pass.
    input: Option<Image<S>>,
}

/// Mathematical model of a [`ConvActivationLayer`].
pub struct ConvActivationView<S: Scalar> {
    pub activation: Activation,
    pub input: Option<ImageView<S>>,
}

impl<S: Scalar> ConvActivationView<S> {
    /// The layer's invariant: the input kept from the last forward pass is an image.
    pub open spec fn wf(self) -> bool {
        self.input matches Some(input) ==> input.wf()
    }

    /// What the layer makes of `input`: the function of each entry.
    pub open spec fn output(self, input: ImageView<S>) -> ImageView<S> {
        input.map(self.activation.function_spec())
    }

    /// The layer after a forward pass of `input`.
    pub open spec fn after_forward(self, input: ImageView<S>) -> Self {
        ConvActivationView { input: Some(input), ..self }
    }

    /// Whether a gradient can be sent back: an input has gone through, and the gradient has
    /// its shape.
    pub open spec fn accepts_gradient(self, output_gradient: ImageView<S>) -> bool {
        self.input matches Some(input) && output_gradient.nrow == input.nrow
            && output_gradient.ncol == input.ncol && output_gradient.nchan == input.nchan
            && output_gradient.nsamples() == input.nsamples()
    }

    /// The gradient of the loss with respect to the input: the gradient with respect to the
    /// output, times the derivative of the function at the input, entry by entry.
    pub open spec fn input_gradient(self, output_gradient: ImageView<S>) -> ImageView<S> {
        output_gradient.zip(BinaryOp::Mul, self.input->0.map(self.activation.slope_spec()))
    }
}

impl<S: Scalar> View for ConvActivationLayer<S> {
    type V = ConvActivationView<S>;

    closed spec fn view(&self) -> ConvActivationView<S> {
        ConvActivationView {
            activation: self.activation,
            input: match self.input {
                Some(input) => Some(input@),
                None => None,
            },
        }
    }
}

impl<S: Scalar> ConvActivationLayer<S> {
    /// The layer's invariant holds.
    pub open spec fn wf(&self) -> bool {
        self@.wf()
    }

    /// A layer that applies `activation`, and that no input has gone through.
    pub fn new(activation: Activation) -> (layer: Self)
        ensures
            layer.wf(),
            layer@ == (ConvActivationView::<S> { activation, input: None }),
    {
        ConvActivationLayer { activation, input: None }
    }

    /// Sends `input` through the layer and keeps it for the backward pass.
    pub fn forward(&mut self, input: Image<S>) -> (output: Image<S>)
        requires
            old(self).wf(),
        ensures
            final(self).wf(),
            output@.wf(),
            output@ == old(self)@.output(input@),
            final(self)@ == old(self)@.after_forward(input@),
    {
        let _dims = input.image_dims();
        let output = input.map_with(self.activation.function());
        self.input = Some(input);
        output
    }

    /// Sends `output_gradient`, which must have the shape of the last input, back through
    /// the layer.
    pub fn backward(&mut self, epoch: usize, output_gradient: Image<S>) -> (out: Result<
        Image<S>,
        Error,
    >)
        requires
            old(self).wf(),
        ensures
            final(self).wf(),
            final(self)@ == old(self)@,
            out is Ok <==> old(self)@.accepts_gradient(output_gradient@),
            out matches Ok(input_gradient) ==> {
                &&& input_gradient@.wf()
                &&& input_gradient@ == old(self)@.input_gradient(output_gradient@)
            },
            out matches Err(error) ==> error == if old(self)@.input is None {
                Error::UninitializedState
            } else {
                Error::ShapeMismatch
            },
    {
        let gradient_dims = output_gradient.image_dims();
        match &self.input {
            None => Err(Error::UninitializedState),
            Some(input) => {
                let dims = input.image_dims();
                if gradient_dims.0 != dims.0 || gradient_dims.1 != dims.1 || gradient_dims.2
                    != dims.2 || output_gradient.samples() != input.samples() {
                    return Err(Error::ShapeMismatch);
                }
                output_gradient.component_mul(&input.map_with(self.activation.slope()))
            },
        }
    }
}

} // verus!
