//! Pooling by the mean.

use crate::error::Error;
use crate::scalar::Scalar;
use crate::vision::image::{Image, ImageView};
use vstd::prelude::*;

verus! {

/// The dimensions of an image: rows, columns, channels and samples.
pub type Dims = (usize, usize, usize, usize);

/// A layer that replaces each window of `kernel_size` rows and columns by its mean. It has
/// nothing to learn.
#[derive(Debug, Clone, Copy)]
pub struct AvgPoolingLayer {
    /// The number of rows and of columns of a window.
    pub kernel_size: usize,
    /// The dimensions of the input of the last forward pass.
    pub input_dims: Option<Dims>,
}

impl AvgPoolingLayer {
    /// Whether the layer pools: its windows have an entry.
    pub open spec fn pools(&self) -> bool {
        self.kernel_size >= 1
    }

    /// What the layer makes of `input`: each plane pooled by the mean.
    pub open spec fn output<S: Scalar>(&self, input: ImageView<S>) -> ImageView<S> {
        input.avg_pool(self.kernel_size)
    }

    /// Whether a gradient can be sent back: an input has gone through, and the gradient has
    /// the shape of the output for that input.
    pub open spec fn accepts_gradient<S: Scalar>(&self, output_gradient: ImageView<S>) -> bool {
        &&& self.pools()
        &&& self.input_dims matches Some(dims) && output_gradient.nrow == dims.0
            / self.kernel_size && output_gradient.ncol == dims.1 / self.kernel_size
            && output_gradient.nchan == dims.2 && output_gradient.nsamples() == dims.3
    }

    /// The gradient of the loss with respect to the input: each entry of a window gets an
    /// equal share of the gradient of the window's mean, one over the number of entries of
    /// a window; an entry in no window gets zero.
    pub open spec fn input_gradient<S: Scalar>(&self, output_gradient: ImageView<S>) -> ImageView<
        S,
    > {
        let dims = self.input_dims->0;
        output_gradient.avg_unpool(self.kernel_size, dims.0 as nat, dims.1 as nat)
    }

    /// A layer that pools over windows of `kernel_size` rows and columns, and that no input
    /// has gone through.
    pub fn new(kernel_size: usize) -> (layer: Self)
        ensures
            layer == (AvgPoolingLayer { kernel_size, input_dims: None }),
    {
        AvgPoolingLayer { kernel_size, input_dims: None }
    }

    /// Sends `input` through the layer and keeps its dimensions for the backward pass. The
    /// windows must have an entry.
    pub fn forward<S: Scalar>(&mut self, input: Image<S>) -> (out: Result<Image<S>, Error>)
        ensures
            final(self).kernel_size == old(self).kernel_size,
            out is Ok <==> old(self).pools(),
            out matches Ok(output) ==> {
                &&& output@.wf()
                &&& output@ == old(self).output(input@)
                &&& final(self).input_dims == Some(
                    (
                        input@.nrow as usize,
                        input@.ncol as usize,
                        input@.nchan as usize,
                        input@.nsamples() as usize,
                    ),
                )
            },
            out matches Err(error) ==> error == Error::ShapeMismatch && *final(self) == *old(self),
    {
        let dims = input.image_dims();
        let samples = input.samples();
        let output = input.avg_pool(self.kernel_size)?;
        self.input_dims = Some((dims.0, dims.1, dims.2, samples));
        Ok(output)
    }

    /// Sends `output_gradient`, which must have the shape of the last output, back through
    /// the layer.
    pub fn backward<S: Scalar>(&mut self, epoch: usize, output_gradient: Image<S>) -> (out: Result<
        Image<S>,
        Error,
    >)
        ensures
            *final(self) == *old(self),
            out is Ok <==> old(self).accepts_gradient(output_gradient@),
            out matches Ok(input_gradient) ==> {
                &&& input_gradient@.wf()
                &&& input_gradient@ == old(self).input_gradient(output_gradient@)
            },
            out matches Err(error) ==> error == if old(self).input_dims is None {
                Error::UninitializedState
            } else {
                Error::ShapeMismatch
            },
    {
        let gradient_dims = output_gradient.image_dims();
        match self.input_dims {
            None => Err(Error::UninitializedState),
            Some(dims) => {
                if self.kernel_size == 0 {
                    return Err(Error::ShapeMismatch);
                }
                if gradient_dims.0 != dims.0 / self.kernel_size || gradient_dims.1 != dims.1
                    / self.kernel_size || gradient_dims.2 != dims.2 || output_gradient.samples()
                    != dims.3 {
                    return Err(Error::ShapeMismatch);
                }
                output_gradient.avg_unpool(self.kernel_size, dims.0, dims.1)
            },
        }
    }
}

} // verus!
