//! Fully connected layers.

use crate::error::Error;
use crate::initializers::Initializers;
use crate::linalg::{BinaryOp, Matrix, MatrixView};
use crate::optimizer::{Optimizers, OptimizersView};
use crate::scalar::Scalar;
use vstd::prelude::*;

verus! {

/// A layer that connects each of its `i` inputs to each of its `j` outputs.
#[derive(Debug)]
pub struct DenseLayer<S: Scalar> {
    /// The input of the last forward pass: `i` rows, one column for each sample.
    input: Option<Matrix<S>>,
    /// The weights of the connections: `j` rows and `i` columns.
    weights: Matrix<S>,
    /// The biases of the outputs: `j` rows in one column.
    biases: Matrix<S>,
    weights_optimizer: Optimizers<S>,
    biases_optimizer: Optimizers<S>,
}

/// Mathematical model of a [`DenseLayer`].
pub struct DenseView<S: Scalar> {
    pub input: Option<MatrixView<S>>,
    pub weights: MatrixView<S>,
    pub biases: MatrixView<S>,
    pub weights_optimizer: OptimizersView<S>,
    pub biases_optimizer: OptimizersView<S>,
}

impl<S: Scalar> DenseView<S> {
    /// The number of inputs, `i`.
    pub open spec fn inputs(self) -> nat {
        self.weights.ncol()
    }

    /// The number of outputs, `j`.
    pub open spec fn outputs(self) -> nat {
        self.weights.nrow
    }

    /// The layer's invariant: the biases are one column with a row for each output, each
    /// optimizer remembers nothing of another shape than its tensor has, and the input
    /// kept from the last forward pass has a row for each input.
    pub open spec fn wf(self) -> bool {
        &&& self.weights.wf()
        &&& self.biases.wf()
        &&& self.biases.nrow == self.weights.nrow
        &&& self.biases.ncol() == 1
        &&& self.weights_optimizer.fits(self.weights.nrow, self.weights.ncol())
        &&& self.biases_optimizer.fits(self.biases.nrow, 1)
        &&& (self.input matches Some(input) ==> input.wf() && input.nrow == self.inputs())
    }

    /// What the layer makes of `input`: `weights . input + biases`, the biases being added
    /// to each column.
    pub open spec fn output(self, input: MatrixView<S>) -> MatrixView<S> {
        self.weights.dot(input).zip(BinaryOp::Add, self.biases)
    }

    /// The layer after a forward pass of `input`.
    pub open spec fn after_forward(self, input: MatrixView<S>) -> Self {
        DenseView { input: Some(input), ..self }
    }

    /// Whether a gradient can be sent back: an input has gone through, and the gradient
    /// has a row for each output and a column for each sample of that input.
    pub open spec fn accepts_gradient(self, output_gradient: MatrixView<S>) -> bool {
        self.input matches Some(input) && output_gradient.nrow == self.outputs()
            && output_gradient.ncol() == input.ncol()
    }

    /// The gradient of the loss with respect to the weights:
    /// `output_gradient . transpose(input)`.
    pub open spec fn weights_gradient(self, output_gradient: MatrixView<S>) -> MatrixView<S> {
        output_gradient.dot(self.input->0.transpose())
    }

    /// The gradient of the loss with respect to the biases: for each output, the sum of
    /// the gradient over the samples.
    pub open spec fn biases_gradient(self, output_gradient: MatrixView<S>) -> MatrixView<S> {
        output_gradient.columns_sum()
    }

    /// The gradient of the loss with respect to the input:
    /// `transpose(weights) . output_gradient`.
    pub open spec fn input_gradient(self, output_gradient: MatrixView<S>) -> MatrixView<S> {
        self.weights.transpose().dot(output_gradient)
    }

    /// The layer after a backward pass of `output_gradient` in epoch `epoch`: each tensor
    /// has taken one step of its optimizer against its gradient.
    pub open spec fn after_backward(self, epoch: usize, output_gradient: MatrixView<S>) -> Self {
        DenseView {
            input: self.input,
            weights: self.weights_optimizer.step(
                epoch,
                self.weights,
                self.weights_gradient(output_gradient),
            ),
            biases: self.biases_optimizer.step(
                epoch,
                self.biases,
                self.biases_gradient(output_gradient),
            ),
            weights_optimizer: self.weights_optimizer.after(
                epoch,
                self.weights_gradient(output_gradient),
            ),
            biases_optimizer: self.biases_optimizer.after(
                epoch,
                self.biases_gradient(output_gradient),
            ),
        }
    }

    /// The learnable parameters as a list of vectors: the columns of the weights, then the
    /// biases.
    pub open spec fn parameters(self) -> Seq<Seq<S>> {
        self.weights.columns.push(self.biases.columns[0])
    }

    /// Whether a list of vectors fits the layer: one vector for each input and one more,
    /// each with an entry for each output.
    pub open spec fn accepts_parameters(self, parameters: Seq<Seq<S>>) -> bool {
        &&& parameters.len() == self.inputs() + 1
        &&& forall|k: int|
            0 <= k < parameters.len() ==> (#[trigger] parameters[k]).len() == self.outputs()
    }

    /// The layer with the given learnable parameters.
    pub open spec fn with_parameters(self, parameters: Seq<Seq<S>>) -> Self {
        DenseView {
            weights: MatrixView { nrow: self.outputs(), columns: parameters.drop_last() },
            biases: MatrixView { nrow: self.outputs(), columns: seq![parameters.last()] },
            ..self
        }
    }
}

impl<S: Scalar> View for DenseLayer<S> {
    type V = DenseView<S>;

    closed spec fn view(&self) -> DenseView<S> {
        DenseView {
            input: match self.input {
                Some(input) => Some(input@),
                None => None,
            },
            weights: self.weights@,
            biases: self.biases@,
            weights_optimizer: self.weights_optimizer@,
            biases_optimizer: self.biases_optimizer@,
        }
    }
}

impl<S: Scalar> DenseLayer<S> {
    /// The layer's invariant holds.
    pub open spec fn wf(&self) -> bool {
        self@.wf()
    }

    /// A layer with the given weights, of `j` rows and `i` columns, and biases, of `j` rows
    /// in one column, that no input has gone through. Each optimizer must be fresh, or
    /// remember steps on a tensor of the shape it is given here.
    pub fn from_parameters(
        weights: Matrix<S>,
        biases: Matrix<S>,
        weights_optimizer: Optimizers<S>,
        biases_optimizer: Optimizers<S>,
    ) -> (out: Result<Self, Error>)
        ensures
            out is Ok <==> {
                &&& biases@.nrow == weights@.nrow
                &&& biases@.ncol() == 1
                &&& weights_optimizer@.fits(weights@.nrow, weights@.ncol())
                &&& biases_optimizer@.fits(biases@.nrow, 1)
            },
            out matches Ok(layer) ==> layer.wf() && layer@ == (DenseView {
                input: None,
                weights: weights@,
                biases: biases@,
                weights_optimizer: weights_optimizer@,
                biases_optimizer: biases_optimizer@,
            }),
            out matches Err(error) ==> error == Error::ShapeMismatch,
    {
        let shape = weights.dim();
        let biases_shape = biases.dim();
        if biases_shape.0 != shape.0 || biases_shape.1 != 1 {
            return Err(Error::ShapeMismatch);
        }
        if !weights_optimizer.fits(shape.0, shape.1) || !biases_optimizer.fits(shape.0, 1) {
            return Err(Error::ShapeMismatch);
        }
        Ok(DenseLayer { input: None, weights, biases, weights_optimizer, biases_optimizer })
    }

    /// A layer of `i` inputs and `j` outputs whose weights and biases the initializers fill,
    /// and that no input has gone through. Each optimizer must be fresh, or remember steps
    /// on a tensor of the shape of the tensor it is given to.
    pub fn new(
        i: usize,
        j: usize,
        weights_optimizer: Optimizers<S>,
        biases_optimizer: Optimizers<S>,
        weights_initializer: Initializers,
        biases_initializer: Initializers,
    ) -> (out: Result<Self, Error>)
        ensures
            out is Ok <==> weights_optimizer@.fits(j as nat, i as nat) && biases_optimizer@.fits(
                j as nat,
                1,
            ),
            out matches Ok(layer) ==> {
                &&& layer.wf()
                &&& layer@.input is None
                &&& layer@.inputs() == i
                &&& layer@.outputs() == j
                &&& layer@.weights_optimizer == weights_optimizer@
                &&& layer@.biases_optimizer == biases_optimizer@
                &&& forall|r: int, c: int|
                    0 <= r < j && 0 <= c < i ==> weights_initializer.gives(
                        i,
                        j,
                        #[trigger] layer@.weights.columns[c][r],
                    )
                &&& forall|r: int|
                    0 <= r < j ==> biases_initializer.gives(
                        1,
                        j,
                        #[trigger] layer@.biases.columns[0][r],
                    )
            },
            out matches Err(error) ==> error == Error::ShapeMismatch,
    {
        let weights = weights_initializer.gen_matrix(j, i);
        let biases = biases_initializer.gen_vector(j);
        DenseLayer::from_parameters(weights, biases, weights_optimizer, biases_optimizer)
    }

    /// The number of inputs and the number of outputs.
    pub fn dims(&self) -> (dims: (usize, usize))
        ensures
            dims.0 == self@.inputs(),
            dims.1 == self@.outputs(),
    {
        let shape = self.weights.dim();
        (shape.1, shape.0)
    }

    /// Sends `input`, of `i` rows and a column for each sample, through the layer and keeps
    /// it for the backward pass. The output has `j` rows and a column for each sample.
    pub fn forward(&mut self, input: Matrix<S>) -> (out: Result<Matrix<S>, Error>)
        requires
            old(self).wf(),
        ensures
            final(self).wf(),
            out is Ok <==> input@.nrow == old(self)@.inputs(),
            out matches Ok(output) ==> {
                &&& output@ == old(self)@.output(input@)
                &&& output@.nrow == old(self)@.outputs()
                &&& output@.ncol() == input@.ncol()
                &&& final(self)@ == old(self)@.after_forward(input@)
            },
            out matches Err(error) ==> error == Error::ShapeMismatch && final(self)@ == old(self)@,
    {
        let shape = input.dim();
        let weights_shape = self.weights.dim();
        if shape.0 != weights_shape.1 {
            return Err(Error::ShapeMismatch);
        }
        let product = self.weights.dot(&input)?;
        let output = product.component_add(&self.biases)?;
        self.input = Some(input);
        Ok(output)
    }

    /// Sends `output_gradient`, of `j` rows and a column for each sample of the last
    /// forward pass, back through the layer: each tensor takes one step of its optimizer,
    /// and the gradient with respect to the input, of `i` rows and as many columns, is
    /// returned.
    pub fn backward(&mut self, epoch: usize, output_gradient: Matrix<S>) -> (out: Result<
        Matrix<S>,
        Error,
    >)
        requires
            old(self).wf(),
        ensures
            final(self).wf(),
            out is Ok <==> old(self)@.accepts_gradient(output_gradient@),
            out matches Ok(input_gradient) ==> {
                &&& input_gradient@ == old(self)@.input_gradient(output_gradient@)
                &&& input_gradient@.nrow == old(self)@.inputs()
                &&& input_gradient@.ncol() == output_gradient@.ncol()
                &&& final(self)@ == old(self)@.after_backward(epoch, output_gradient@)
            },
            out matches Err(error) ==> {
                &&& final(self)@ == old(self)@
                &&& error == if old(self)@.input is None {
                    Error::UninitializedState
                } else {
                    Error::ShapeMismatch
                }
            },
    {
        let gradient_shape = output_gradient.dim();
        let weights_shape = self.weights.dim();
        let _biases_shape = self.biases.dim();
        let (weights_gradient, input_gradient) = match &self.input {
            None => {
                return Err(Error::UninitializedState);
            },
            Some(input) => {
                let input_shape = input.dim();
                if gradient_shape.0 != weights_shape.0 || gradient_shape.1 != input_shape.1 {
                    return Err(Error::ShapeMismatch);
                }
                let weights_gradient = output_gradient.dot(&input.transpose())?;
                let input_gradient = self.weights.transpose().dot(&output_gradient)?;
                (weights_gradient, input_gradient)
            },
        };
        let biases_gradient = output_gradient.columns_sum();
        let weights = self.weights_optimizer.update_parameters(
            epoch,
            &self.weights,
            &weights_gradient,
        )?;
        let biases = self.biases_optimizer.update_parameters(
            epoch,
            &self.biases,
            &biases_gradient,
        )?;
        self.weights = weights;
        self.biases = biases;
        Ok(input_gradient)
    }

    /// The learnable parameters: the columns of the weights, then the biases.
    pub fn get_learnable_parameters(&self) -> (parameters: Vec<Vec<S>>)
        requires
            self.wf(),
        ensures
            MatrixView::<S>::nested(parameters@) == self@.parameters(),
    {
        let mut parameters = self.weights.get_data_col_leading();
        let ghost columns = parameters@;
        match self.biases.get_column(0) {
            Some(biases) => {
                parameters.push(biases);
            },
            None => {},
        }
        assert(MatrixView::<S>::nested(parameters@) =~= self@.parameters());
        parameters
    }

    /// Whether `parameters` fit the layer: one vector for each input and one more, each with
    /// an entry for each output.
    pub fn accepts_parameters(&self, parameters: &Vec<Vec<S>>) -> (accepts: bool)
        ensures
            accepts == self@.accepts_parameters(MatrixView::<S>::nested(parameters@)),
    {
        let shape = self.weights.dim();
        let ghost lists = MatrixView::<S>::nested(parameters@);
        if parameters.len() == 0 || parameters.len() - 1 != shape.1 {
            return false;
        }
        let mut k: usize = 0;
        while k < parameters.len()
            invariant
                k <= parameters@.len(),
                lists == MatrixView::<S>::nested(parameters@),
                shape.0 == self@.outputs(),
                parameters@.len() == self@.inputs() + 1,
                forall|c: int| 0 <= c < k ==> (#[trigger] lists[c]).len() == shape.0,
            decreases parameters@.len() - k,
        {
            if parameters[k].len() != shape.0 {
                assert(lists[k as int].len() != shape.0);
                return false;
            }
            assert(lists[k as int] == parameters@[k as int]@);
            k += 1;
        }
        true
    }

    /// Replaces the learnable parameters by `parameters`: one vector for each input, then
    /// the biases, each with an entry for each output.
    pub fn set_learnable_parameters(&mut self, parameters: &Vec<Vec<S>>) -> (out: Result<(), Error>)
        requires
            old(self).wf(),
        ensures
            final(self).wf(),
            out is Ok <==> old(self)@.accepts_parameters(MatrixView::<S>::nested(parameters@)),
            out is Ok ==> final(self)@ == old(self)@.with_parameters(
                MatrixView::<S>::nested(parameters@),
            ),
            out matches Err(error) ==> error == Error::ParameterCountMismatch && final(self)@
                == old(self)@,
    {
        let shape = self.weights.dim();
        let ghost lists = MatrixView::<S>::nested(parameters@);
        if parameters.len() == 0 || parameters.len() - 1 != shape.1 {
            return Err(Error::ParameterCountMismatch);
        }
        let last = &parameters[parameters.len() - 1];
        if last.len() != shape.0 {
            assert(lists[parameters@.len() - 1].len() != shape.0);
            return Err(Error::ParameterCountMismatch);
        }
        match Matrix::from_leading_columns(shape.0, parameters, shape.1) {
            Some(weights) => {
                let biases = Matrix::from_column_vector(last);
                assert forall|k: int| 0 <= k < lists.len() implies (#[trigger] lists[k]).len()
                    == shape.0 by {
                    assert(lists[k] == parameters@[k]@);
                }
                assert(weights@.columns =~= lists.drop_last());
                assert(biases@.columns =~= seq![lists.last()]);
                self.weights = weights;
                self.biases = biases;
                Ok(())
            },
            None => {
                proof {
                    let k = choose|k: int|
                        0 <= k < shape.1 && (#[trigger] parameters@[k])@.len() != shape.0;
                    assert(lists[k].len() != shape.0);
                }
                Err(Error::ParameterCountMismatch)
            },
        }
    }
}

} // verus!
