//! Convolutional layers.

use crate::error::Error;
use crate::initializers::Initializers;
use crate::linalg::{BinaryOp, MatrixView};
use crate::scalar::Scalar;
use crate::vision::conv_optimizer::{ConvOptimizers, ConvOptimizersView};
use crate::vision::image::{Image, ImageView};
use vstd::prelude::*;

verus! {

/// A layer that slides a bank of kernels over its input: each kernel gives one channel of
/// the output.
#[derive(Debug)]
pub struct DirectConvLayer<S: Scalar> {
    /// The kernels: one sample for each kernel, with a channel for each channel of the
    /// input.
    kernels: Image<S>,
    /// The biases: one sample of the shape of one sample of the output.
    biases: Image<S>,
    /// The input of the last forward pass.
    input: Option<Image<S>>,
    kernels_optimizer: ConvOptimizers<S>,
    biases_optimizer: ConvOptimizers<S>,
}

/// Mathematical model of a [`DirectConvLayer`].
pub struct DirectConvView<S: Scalar> {
    pub input: Option<ImageView<S>>,
    pub kernels: ImageView<S>,
    pub biases: ImageView<S>,
    pub kernels_optimizer: ConvOptimizersView<S>,
    pub biases_optimizer: ConvOptimizersView<S>,
}

impl<S: Scalar> DirectConvView<S> {
    /// The number of rows of the inputs that the layer takes.
    pub open spec fn in_rows(self) -> nat {
        (self.biases.nrow + self.kernels.nrow - 1) as nat
    }

    /// The number of columns of the inputs that the layer takes.
    pub open spec fn in_cols(self) -> nat {
        (self.biases.ncol + self.kernels.ncol - 1) as nat
    }

    /// Whether the layer takes `input`: it has the channels of the kernels, and the rows
    /// and columns that make the output as large as the biases.
    pub open spec fn accepts_input(self, input: ImageView<S>) -> bool {
        &&& input.nchan == self.kernels.nchan
        &&& input.nrow == self.in_rows()
        &&& input.ncol == self.in_cols()
    }

    /// The layer's invariant: kernels and biases have an entry, there is a channel of
    /// biases for each kernel, in one sample; each optimizer remembers nothing of another
    /// shape than its tensor has, and the input kept from the last forward pass is one that
    /// the layer takes.
    pub open spec fn wf(self) -> bool {
        &&& self.kernels.wf()
        &&& self.biases.wf()
        &&& self.kernels.nrow >= 1
        &&& self.kernels.ncol >= 1
        &&& self.biases.nrow >= 1
        &&& self.biases.ncol >= 1
        &&& self.biases.nchan == self.kernels.nsamples()
        &&& self.biases.nsamples() == 1
        &&& self.in_rows() <= usize::MAX
        &&& self.in_cols() <= usize::MAX
        &&& self.kernels_optimizer.fits(self.kernels)
        &&& self.biases_optimizer.fits(self.biases)
        &&& (self.input matches Some(input) ==> input.wf() && self.accepts_input(input))
    }

    /// What the layer makes of `input`: its cross-correlation with the kernels, plus the
    /// biases, which are added to each sample.
    pub open spec fn output(self, input: ImageView<S>) -> ImageView<S> {
        input.cross_correlate(self.kernels).zip(BinaryOp::Add, self.biases)
    }

    /// The layer after a forward pass of `input`.
    pub open spec fn after_forward(self, input: ImageView<S>) -> Self {
        DirectConvView { input: Some(input), ..self }
    }

    /// Whether a gradient can be sent back: an input has gone through, and the gradient
    /// has the shape of the output for that input.
    pub open spec fn accepts_gradient(self, output_gradient: ImageView<S>) -> bool {
        &&& self.input matches Some(input) && output_gradient.nsamples() == input.nsamples()
        &&& output_gradient.nrow == self.biases.nrow
        &&& output_gradient.ncol == self.biases.ncol
        &&& output_gradient.nchan == self.biases.nchan
    }

    /// The gradient of the loss with respect to the kernels: for each kernel and channel,
    /// the sum over the samples of the cross-correlation of that channel of the input with
    /// the gradient of that kernel's channel of the output.
    pub open spec fn kernels_gradient(self, output_gradient: ImageView<S>) -> ImageView<S> {
        self.input->0.exchanged().cross_correlate(output_gradient.exchanged()).exchanged()
    }

    /// The gradient of the loss with respect to the biases: the sum of the gradient over
    /// the samples.
    pub open spec fn biases_gradient(self, output_gradient: ImageView<S>) -> ImageView<S> {
        output_gradient.sum_samples()
    }

    /// The gradient of the loss with respect to the input: for each channel, the sum over
    /// the kernels of the full convolution of the gradient of the kernel's channel of the
    /// output with that channel of the kernel.
    pub open spec fn input_gradient(self, output_gradient: ImageView<S>) -> ImageView<S> {
        output_gradient.convolve_full(self.kernels.exchanged())
    }

    /// The layer after a backward pass of `output_gradient` in epoch `epoch`: each tensor
    /// has taken one step of its optimizer against its gradient.
    pub open spec fn after_backward(self, epoch: usize, output_gradient: ImageView<S>) -> Self {
        DirectConvView {
            input: self.input,
            kernels: self.kernels_optimizer.step(
                epoch,
                self.kernels,
                self.kernels_gradient(output_gradient),
            ),
            biases: self.biases_optimizer.step(
                epoch,
                self.biases,
                self.biases_gradient(output_gradient),
            ),
            kernels_optimizer: self.kernels_optimizer.after(
                epoch,
                self.kernels_gradient(output_gradient),
            ),
            biases_optimizer: self.biases_optimizer.after(
                epoch,
                self.biases_gradient(output_gradient),
            ),
        }
    }
}

impl<S: Scalar> DirectConvView<S> {
    /// The number of vectors that the learnable parameters are laid out in: one for each
    /// kernel, and one for the biases.
    pub open spec fn parameter_count(self) -> nat {
        self.kernels.nsamples() + 1
    }

    /// The learnable parameters as a list of vectors: each kernel laid out in one vector,
    /// channel after channel and each channel column after column, then the biases, laid
    /// out alike.
    pub open spec fn parameters(self) -> Seq<Seq<S>> {
        self.kernels.flatten().columns.push(self.biases.flatten().columns[0])
    }

    /// Whether a list of vectors fits the layer: one vector for each kernel and one more,
    /// each of as many entries as the tensor it is read into.
    pub open spec fn accepts_parameters(self, parameters: Seq<Seq<S>>) -> bool {
        &&& parameters.len() == self.parameter_count()
        &&& ImageView::holds_vectors(
            parameters.drop_last(),
            self.kernels.nrow,
            self.kernels.ncol,
            self.kernels.nchan,
        )
        &&& ImageView::holds_vectors(
            seq![parameters.last()],
            self.biases.nrow,
            self.biases.ncol,
            self.biases.nchan,
        )
    }

    /// The layer with the given learnable parameters.
    pub open spec fn with_parameters(self, parameters: Seq<Seq<S>>) -> Self {
        DirectConvView {
            kernels: ImageView::from_vectors(
                parameters.drop_last(),
                self.kernels.nrow,
                self.kernels.ncol,
                self.kernels.nchan,
            ),
            biases: ImageView::from_vectors(
                seq![parameters.last()],
                self.biases.nrow,
                self.biases.ncol,
                self.biases.nchan,
            ),
            ..self
        }
    }

    /// Whether the two layers have tensors of the same dimensions.
    pub open spec fn same_shape(self, other: Self) -> bool {
        &&& self.kernels.nrow == other.kernels.nrow
        &&& self.kernels.ncol == other.kernels.ncol
        &&& self.kernels.nchan == other.kernels.nchan
        &&& self.kernels.nsamples() == other.kernels.nsamples()
        &&& self.biases.nrow == other.biases.nrow
        &&& self.biases.ncol == other.biases.ncol
        &&& self.biases.nchan == other.biases.nchan
    }

    /// The parameters of a layer fit every layer of the same dimensions, and give it the
    /// kernels and biases of the first.
    pub proof fn lemma_parameters_carry(self, other: Self)
        requires
            self.wf(),
            self.same_shape(other),
        ensures
            self.parameters().len() == other.parameter_count(),
            other.accepts_parameters(self.parameters()),
            other.with_parameters(self.parameters()).kernels == self.kernels,
            other.with_parameters(self.parameters()).biases == self.biases,
    {
        let parameters = self.parameters();
        self.kernels.lemma_from_vectors_flatten();
        self.biases.lemma_from_vectors_flatten();
        assert(parameters.drop_last() =~= self.kernels.flatten().columns);
        assert(seq![parameters.last()] =~= self.biases.flatten().columns);
    }
}

impl<S: Scalar> View for DirectConvLayer<S> {
    type V = DirectConvView<S>;

    closed spec fn view(&self) -> DirectConvView<S> {
        DirectConvView {
            input: match self.input {
                Some(input) => Some(input@),
                None => None,
            },
            kernels: self.kernels@,
            biases: self.biases@,
            kernels_optimizer: self.kernels_optimizer@,
            biases_optimizer: self.biases_optimizer@,
        }
    }
}

impl<S: Scalar> DirectConvLayer<S> {
    /// The layer's invariant holds.
    pub open spec fn wf(&self) -> bool {
        self@.wf()
    }

    /// A layer with the given kernels and biases that no input has gone through. Kernels
    /// and biases must have an entry; there must be a channel of biases for each kernel, in
    /// one sample; and each optimizer must be fresh, or remember steps on a tensor of the
    /// shape it is given here.
    pub fn from_parameters(
        kernels: Image<S>,
        biases: Image<S>,
        kernels_optimizer: ConvOptimizers<S>,
        biases_optimizer: ConvOptimizers<S>,
    ) -> (out: Result<Self, Error>)
        ensures
            out is Ok <==> (DirectConvView {
                input: None,
                kernels: kernels@,
                biases: biases@,
                kernels_optimizer: kernels_optimizer@,
                biases_optimizer: biases_optimizer@,
            }).wf(),
            out matches Ok(layer) ==> layer.wf() && layer@ == (DirectConvView {
                input: None,
                kernels: kernels@,
                biases: biases@,
                kernels_optimizer: kernels_optimizer@,
                biases_optimizer: biases_optimizer@,
            }),
            out matches Err(error) ==> error == Error::ShapeMismatch,
    {
        let kernel_dims = kernels.image_dims();
        let bias_dims = biases.image_dims();
        if kernel_dims.0 == 0 || kernel_dims.1 == 0 || bias_dims.0 == 0 || bias_dims.1 == 0 {
            return Err(Error::ShapeMismatch);
        }
        if bias_dims.2 != kernels.samples() || biases.samples() != 1 {
            return Err(Error::ShapeMismatch);
        }
        if kernel_dims.0 - 1 > usize::MAX - bias_dims.0 || kernel_dims.1 - 1 > usize::MAX
            - bias_dims.1 {
            return Err(Error::ShapeMismatch);
        }
        if !kernels_optimizer.fits(&kernels) || !biases_optimizer.fits(&biases) {
            return Err(Error::ShapeMismatch);
        }
        Ok(DirectConvLayer { kernels, biases, input: None, kernels_optimizer, biases_optimizer })
    }

    /// A layer of `kernels` kernels of `kernel_rows` rows and `kernel_cols` columns for
    /// inputs of `in_rows` rows, `in_cols` columns and `in_channels` channels, whose kernels
    /// and biases the initializers fill, and that no input has gone through. The kernels
    /// must have an entry and fit into the inputs, and each optimizer must be fresh, or
    /// remember steps on a tensor of the shape of the tensor it is given to.
    pub fn new(
        in_rows: usize,
        in_cols: usize,
        in_channels: usize,
        kernel_rows: usize,
        kernel_cols: usize,
        kernels: usize,
        kernels_optimizer: ConvOptimizers<S>,
        biases_optimizer: ConvOptimizers<S>,
        kernels_initializer: Initializers,
        biases_initializer: Initializers,
    ) -> (out: Result<Self, Error>)
        ensures
            out is Ok <==> {
                &&& 1 <= kernel_rows <= in_rows
                &&& 1 <= kernel_cols <= in_cols
                &&& kernels_optimizer@.fits_shape(
                    kernel_rows as nat,
                    kernel_cols as nat,
                    in_channels as nat,
                    kernels as nat,
                )
                &&& biases_optimizer@.fits_shape(
                    (in_rows - kernel_rows + 1) as nat,
                    (in_cols - kernel_cols + 1) as nat,
                    kernels as nat,
                    1,
                )
            },
            out matches Ok(layer) ==> {
                &&& layer.wf()
                &&& layer@.input is None
                &&& layer@.kernels.has_shape(
                    kernel_rows as nat,
                    kernel_cols as nat,
                    in_channels as nat,
                    kernels as nat,
                )
                &&& layer@.biases.has_shape(
                    (in_rows - kernel_rows + 1) as nat,
                    (in_cols - kernel_cols + 1) as nat,
                    kernels as nat,
                    1,
                )
                &&& layer@.kernels_optimizer == kernels_optimizer@
                &&& layer@.biases_optimizer == biases_optimizer@
                &&& forall|r: int, c: int, ch: int, f: int|
                    0 <= r < kernel_rows && 0 <= c < kernel_cols && 0 <= ch < in_channels && 0 <= f
                        < kernels ==> kernels_initializer.gives(
                        in_channels,
                        kernels,
                        #[trigger] layer@.kernels.at(r, c, ch, f),
                    )
                &&& forall|r: int, c: int, ch: int|
                    0 <= r < in_rows - kernel_rows + 1 && 0 <= c < in_cols - kernel_cols + 1 && 0
                        <= ch < kernels ==> biases_initializer.gives(
                        kernels,
                        1,
                        #[trigger] layer@.biases.at(r, c, ch, 0),
                    )
            },
            out matches Err(error) ==> error == Error::ShapeMismatch,
    {
        if kernel_rows == 0 || kernel_cols == 0 || kernel_rows > in_rows || kernel_cols > in_cols {
            return Err(Error::ShapeMismatch);
        }
        let kernel_bank = kernels_initializer.gen_image(
            kernel_rows,
            kernel_cols,
            in_channels,
            kernels,
        );
        let biases = biases_initializer.gen_image(
            in_rows - kernel_rows + 1,
            in_cols - kernel_cols + 1,
            kernels,
            1,
        );
        DirectConvLayer::from_parameters(kernel_bank, biases, kernels_optimizer, biases_optimizer)
    }

    /// A copy of the kernels.
    pub fn kernels(&self) -> (out: Image<S>)
        ensures
            out@ == self@.kernels,
    {
        self.kernels.clone()
    }

    /// A copy of the biases.
    pub fn biases(&self) -> (out: Image<S>)
        ensures
            out@ == self@.biases,
    {
        self.biases.clone()
    }

    /// Sends `input` through the layer and keeps it for the backward pass. The output has a
    /// channel for each kernel and a sample for each sample of the input.
    pub fn forward(&mut self, input: Image<S>) -> (out: Result<Image<S>, Error>)
        requires
            old(self).wf(),
        ensures
            final(self).wf(),
            out is Ok <==> old(self)@.accepts_input(input@),
            out matches Ok(output) ==> {
                &&& output@.wf()
                &&& output@ == old(self)@.output(input@)
                &&& output@.nrow == old(self)@.biases.nrow
                &&& output@.ncol == old(self)@.biases.ncol
                &&& output@.nchan == old(self)@.biases.nchan
                &&& output@.nsamples() == input@.nsamples()
                &&& final(self)@ == old(self)@.after_forward(input@)
            },
            out matches Err(error) ==> error == Error::ShapeMismatch && final(self)@ == old(self)@,
    {
        let dims = input.image_dims();
        let kernel_dims = self.kernels.image_dims();
        let bias_dims = self.biases.image_dims();
        if dims.2 != kernel_dims.2 || dims.0 < kernel_dims.0 || dims.1 < kernel_dims.1 || dims.0
            - kernel_dims.0 + 1 != bias_dims.0 || dims.1 - kernel_dims.1 + 1 != bias_dims.1 {
            return Err(Error::ShapeMismatch);
        }
        let correlated = input.cross_correlate(&self.kernels)?;
        let output = correlated.component_add(&self.biases)?;
        self.input = Some(input);
        Ok(output)
    }

    /// Sends `output_gradient` back through the layer: kernels and biases take one step of
    /// their optimizers, and the gradient with respect to the input is returned.
    pub fn backward(&mut self, epoch: usize, output_gradient: Image<S>) -> (out: Result<
        Image<S>,
        Error,
    >)
        requires
            old(self).wf(),
        ensures
            final(self).wf(),
            out is Ok <==> old(self)@.accepts_gradient(output_gradient@),
            out matches Ok(input_gradient) ==> {
                &&& input_gradient@.wf()
                &&& input_gradient@ == old(self)@.input_gradient(output_gradient@)
                &&& input_gradient@.nrow == old(self)@.in_rows()
                &&& input_gradient@.ncol == old(self)@.in_cols()
                &&& input_gradient@.nchan == old(self)@.kernels.nchan
                &&& input_gradient@.nsamples() == output_gradient@.nsamples()
                &&& final(self)@ == old(self)@.after_backward(epoch, output_gradient@)
            },
            out matches Err(error) ==> {
                &&& final(self)@ == old(self)@
                &&& error == if old(self)@.input is None {
                    Error::UninitializedState
                } else {
                    Error::ShapeMismatch
                }
            },
    {
        let gradient_dims = output_gradient.image_dims();
        let _kernel_dims = self.kernels.image_dims();
        let bias_dims = self.biases.image_dims();
        let kernels_gradient = match &self.input {
            None => {
                return Err(Error::UninitializedState);
            },
            Some(input) => {
                let _dims = input.image_dims();
                if gradient_dims.0 != bias_dims.0 || gradient_dims.1 != bias_dims.1
                    || gradient_dims.2 != bias_dims.2 || output_gradient.samples()
                    != input.samples() {
                    return Err(Error::ShapeMismatch);
                }
                input.exchanged().cross_correlate(&output_gradient.exchanged())?.exchanged()
            },
        };
        let biases_gradient = output_gradient.sum_samples();
        let input_gradient = output_gradient.convolve_full(&self.kernels.exchanged())?;
        let kernels = self.kernels_optimizer.update_parameters(
            epoch,
            &self.kernels,
            &kernels_gradient,
        )?;
        let biases = self.biases_optimizer.update_parameters(
            epoch,
            &self.biases,
            &biases_gradient,
        )?;
        self.kernels = kernels;
        self.biases = biases;
        Ok(input_gradient)
    }

    /// The learnable parameters: each kernel laid out in one vector, then the biases.
    pub fn get_learnable_parameters(&self) -> (parameters: Vec<Vec<S>>)
        requires
            self.wf(),
        ensures
            MatrixView::<S>::nested(parameters@) == self@.parameters(),
            parameters@.len() == self@.parameter_count(),
    {
        let mut parameters = self.kernels.flatten().get_data_col_leading();
        match self.biases.flatten().get_column(0) {
            Some(biases) => {
                parameters.push(biases);
            },
            None => {
                assert(false);
            },
        }
        assert(MatrixView::<S>::nested(parameters@) =~= self@.parameters());
        parameters
    }

    /// The kernels and biases that `parameters` hold for the layer, if they fit it.
    fn read_parameters(&self, parameters: &Vec<Vec<S>>) -> (out: Option<(Image<S>, Image<S>)>)
        requires
            self.wf(),
        ensures
            out is Some <==> self@.accepts_parameters(MatrixView::<S>::nested(parameters@)),
            out matches Some(read) ==> {
                &&& read.0@.wf()
                &&& read.1@.wf()
                &&& read.0@ == self@.with_parameters(MatrixView::<S>::nested(parameters@)).kernels
                &&& read.1@ == self@.with_parameters(MatrixView::<S>::nested(parameters@)).biases
            },
    {
        let ghost lists = MatrixView::<S>::nested(parameters@);
        let kernel_dims = self.kernels.image_dims();
        let bias_dims = self.biases.image_dims();
        let kernels = self.kernels.samples();
        if parameters.len() == 0 || parameters.len() - 1 != kernels {
            return None;
        }
        let mut kernel_vectors: Vec<Vec<S>> = Vec::new();
        let mut k: usize = 0;
        while k < kernels
            invariant
                kernels + 1 == parameters@.len(),
                k <= kernels,
                kernel_vectors@.len() == k,
                forall|i: int| 0 <= i < k ==> (#[trigger] kernel_vectors@[i])@ == parameters@[i]@,
            decreases kernels - k,
        {
            kernel_vectors.push(crate::linalg::copied(&parameters[k]));
            k += 1;
        }
        let mut bias_vectors: Vec<Vec<S>> = Vec::new();
        bias_vectors.push(crate::linalg::copied(&parameters[kernels]));
        proof {
            assert(MatrixView::<S>::nested(kernel_vectors@) =~= lists.drop_last());
            assert(MatrixView::<S>::nested(bias_vectors@) =~= seq![lists.last()]);
        }
        let read_kernels = Image::from_vectors(
            &kernel_vectors,
            kernel_dims.0,
            kernel_dims.1,
            kernel_dims.2,
        );
        let read_biases = Image::from_vectors(&bias_vectors, bias_dims.0, bias_dims.1, bias_dims.2);
        match (read_kernels, read_biases) {
            (Ok(read_kernels), Ok(read_biases)) => Some((read_kernels, read_biases)),
            _ => None,
        }
    }

    /// Whether `parameters` fit the layer: one vector for each kernel and one more, each of
    /// as many entries as the tensor it is read into.
    pub fn accepts_parameters(&self, parameters: &Vec<Vec<S>>) -> (accepts: bool)
        requires
            self.wf(),
        ensures
            accepts == self@.accepts_parameters(MatrixView::<S>::nested(parameters@)),
    {
        self.read_parameters(parameters).is_some()
    }

    /// Replaces the learnable parameters by `parameters`: one vector for each kernel, then
    /// the biases.
    pub fn set_learnable_parameters(&mut self, parameters: &Vec<Vec<S>>) -> (out: Result<(), Error>)
        requires
            old(self).wf(),
        ensures
            final(self).wf(),
            out is Ok <==> old(self)@.accepts_parameters(MatrixView::<S>::nested(parameters@)),
            out is Ok ==> final(self)@ == old(self)@.with_parameters(
                MatrixView::<S>::nested(parameters@),
            ),
            out matches Err(error) ==> error == Error::ParameterCountMismatch && final(self)@
                == old(self)@,
    {
        match self.read_parameters(parameters) {
            Some(read) => {
                self.kernels = read.0;
                self.biases = read.1;
                Ok(())
            },
            None => Err(Error::ParameterCountMismatch),
        }
    }
}

} // verus!
