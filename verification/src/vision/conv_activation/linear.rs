//! The activation that leaves its input as it is.

use crate::layer::activation_layer::Activation;
use crate::scalar::Scalar;
use crate::vision::conv_activation::{ConvActivationLayer, ConvActivationView};
use vstd::prelude::*;

verus! {

/// A layer that gives its input back, and whose derivative is one everywhere.
pub fn new<S: Scalar>() -> (layer: ConvActivationLayer<S>)
    ensures
        layer.wf(),
        layer@ == (ConvActivationView::<S> { activation: Activation::Linear, input: None }),
{
    ConvActivationLayer::new(Activation::Linear)
}

} // verus!
