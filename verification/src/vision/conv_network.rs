//! Networks on images, which can stand as one layer of a network on matrices.

use crate::error::Error;
use crate::linalg::{Matrix, MatrixView};
use crate::scalar::Scalar;
use crate::vision::conv_activation::{ConvActivationLayer, ConvActivationView};
use crate::vision::conv_layer::avg_pooling_layer::AvgPoolingLayer;
use crate::vision::conv_layer::direct_conv_layer::{DirectConvLayer, DirectConvView};
use crate::vision::conv_layer::max_pooling_layer::{MaxPoolingLayer, MaxPoolingView};
use crate::vision::image::{Image, ImageView};
use vstd::prelude::*;

verus! {

/// One layer of a network on images.
#[derive(Debug)]
pub enum ConvNetworkLayer<S: Scalar> {
    Direct(DirectConvLayer<S>),
    AvgPooling(AvgPoolingLayer),
    MaxPooling(MaxPoolingLayer),
    Activation(ConvActivationLayer<S>),
}

/// Mathematical model of a [`ConvNetworkLayer`].
pub enum ConvLayerView<S: Scalar> {
    Direct(DirectConvView<S>),
    AvgPooling(AvgPoolingLayer),
    MaxPooling(MaxPoolingView),
    Activation(ConvActivationView<S>),
}

impl<S: Scalar> ConvLayerView<S> {
    /// The layer's invariant.
    pub open spec fn wf(self) -> bool {
        match self {
            ConvLayerView::Direct(layer) => layer.wf(),
            ConvLayerView::AvgPooling(_) => true,
            ConvLayerView::MaxPooling(_) => true,
            ConvLayerView::Activation(layer) => layer.wf(),
        }
    }

    /// Whether the layer takes `input`.
    pub open spec fn accepts_input(self, input: ImageView<S>) -> bool {
        match self {
            ConvLayerView::Direct(layer) => layer.accepts_input(input),
            ConvLayerView::AvgPooling(layer) => layer.pools(),
            ConvLayerView::MaxPooling(layer) => layer.pools(),
            ConvLayerView::Activation(_) => true,
        }
    }

    /// What the layer makes of `input`.
    pub open spec fn output(self, input: ImageView<S>) -> ImageView<S> {
        match self {
            ConvLayerView::Direct(layer) => layer.output(input),
            ConvLayerView::AvgPooling(layer) => layer.output(input),
            ConvLayerView::MaxPooling(layer) => layer.output(input),
            ConvLayerView::Activation(layer) => layer.output(input),
        }
    }

    /// The layer after a forward pass of `input`.
    pub open spec fn after_forward(self, input: ImageView<S>) -> Self {
        match self {
            ConvLayerView::Direct(layer) => ConvLayerView::Direct(layer.after_forward(input)),
            ConvLayerView::AvgPooling(layer) => ConvLayerView::AvgPooling(
                AvgPoolingLayer {
                    kernel_size: layer.kernel_size,
                    input_dims: Some(
                        (
                            input.nrow as usize,
                            input.ncol as usize,
                            input.nchan as usize,
                            input.nsamples() as usize,
                        ),
                    ),
                },
            ),
            ConvLayerView::MaxPooling(layer) => ConvLayerView::MaxPooling(
                layer.after_forward(input),
            ),
            ConvLayerView::Activation(layer) => ConvLayerView::Activation(
                layer.after_forward(input),
            ),
        }
    }

    /// Whether the layer takes `output_gradient` on its way back.
    pub open spec fn accepts_gradient(self, output_gradient: ImageView<S>) -> bool {
        match self {
            ConvLayerView::Direct(layer) => layer.accepts_gradient(output_gradient),
            ConvLayerView::AvgPooling(layer) => layer.accepts_gradient(output_gradient),
            ConvLayerView::MaxPooling(layer) => layer.accepts_gradient(output_gradient),
            ConvLayerView::Activation(layer) => layer.accepts_gradient(output_gradient),
        }
    }

    /// The gradient with respect to the layer's input, given that with respect to its
    /// output.
    pub open spec fn input_gradient(self, output_gradient: ImageView<S>) -> ImageView<S> {
        match self {
            ConvLayerView::Direct(layer) => layer.input_gradient(output_gradient),
            ConvLayerView::AvgPooling(layer) => layer.input_gradient(output_gradient),
            ConvLayerView::MaxPooling(layer) => layer.input_gradient(output_gradient),
            ConvLayerView::Activation(layer) => layer.input_gradient(output_gradient),
        }
    }

    /// The layer after a backward pass of `output_gradient` in epoch `epoch`.
    pub open spec fn after_backward(self, epoch: usize, output_gradient: ImageView<S>) -> Self {
        match self {
            ConvLayerView::Direct(layer) => ConvLayerView::Direct(
                layer.after_backward(epoch, output_gradient),
            ),
            _ => self,
        }
    }

    /// Whether the two layers compute the same function of their input: they are of one
    /// kind and hold the same parameters.
    pub open spec fn same_function(self, other: Self) -> bool {
        match (self, other) {
            (ConvLayerView::Direct(a), ConvLayerView::Direct(b)) => a.kernels == b.kernels
                && a.biases == b.biases,
            (ConvLayerView::AvgPooling(a), ConvLayerView::AvgPooling(b)) => a.kernel_size
                == b.kernel_size,
            (ConvLayerView::MaxPooling(a), ConvLayerView::MaxPooling(b)) => a.kernel_size
                == b.kernel_size,
            (ConvLayerView::Activation(a), ConvLayerView::Activation(b)) => a.activation
                == b.activation,
            _ => false,
        }
    }
}

impl<S: Scalar> ConvLayerView<S> {
    /// A layer computes the same function as itself.
    pub proof fn lemma_same_function_reflexive(self)
        ensures
            self.same_function(self),
    {
    }

    /// A forward pass leaves the function of the layer as it is.
    pub proof fn lemma_forward_keeps_function(self, input: ImageView<S>)
        ensures
            self.same_function(self.after_forward(input)),
    {
    }

    /// The output of a layer has a sample for each sample of its input.
    pub proof fn lemma_output_samples(self, input: ImageView<S>)
        requires
            self.wf(),
        ensures
            self.output(input).nsamples() == input.nsamples(),
    {
    }
}

impl<S: Scalar> ConvLayerView<S> {
    /// The number of vectors that the learnable parameters of the layer are laid out in.
    pub open spec fn parameter_count(self) -> nat {
        match self {
            ConvLayerView::Direct(layer) => layer.parameter_count(),
            _ => 0,
        }
    }

    /// The learnable parameters of the layer as a list of vectors; none for a layer that
    /// has nothing to learn.
    pub open spec fn parameters(self) -> Seq<Seq<S>> {
        match self {
            ConvLayerView::Direct(layer) => layer.parameters(),
            _ => Seq::empty(),
        }
    }

    /// Whether a list of vectors fits the layer.
    pub open spec fn accepts_parameters(self, parameters: Seq<Seq<S>>) -> bool {
        match self {
            ConvLayerView::Direct(layer) => layer.accepts_parameters(parameters),
            _ => parameters.len() == 0,
        }
    }

    /// The layer with the given learnable parameters.
    pub open spec fn with_parameters(self, parameters: Seq<Seq<S>>) -> Self {
        match self {
            ConvLayerView::Direct(layer) => ConvLayerView::Direct(
                layer.with_parameters(parameters),
            ),
            _ => self,
        }
    }

    /// Whether the two layers are of one kind and of the same dimensions.
    pub open spec fn same_shape(self, other: Self) -> bool {
        match (self, other) {
            (ConvLayerView::Direct(a), ConvLayerView::Direct(b)) => a.same_shape(b),
            (ConvLayerView::AvgPooling(a), ConvLayerView::AvgPooling(b)) => a.kernel_size
                == b.kernel_size,
            (ConvLayerView::MaxPooling(a), ConvLayerView::MaxPooling(b)) => a.kernel_size
                == b.kernel_size,
            (ConvLayerView::Activation(a), ConvLayerView::Activation(b)) => a.activation
                == b.activation,
            _ => false,
        }
    }

    /// The parameters of a layer fit every layer of the same kind and dimensions, and make
    /// it compute the same function.
    pub proof fn lemma_parameters_carry(self, other: Self)
        requires
            self.wf(),
            self.same_shape(other),
        ensures
            self.parameters().len() == other.parameter_count(),
            other.accepts_parameters(self.parameters()),
            other.with_parameters(self.parameters()).same_function(self),
    {
        match (self, other) {
            (ConvLayerView::Direct(a), ConvLayerView::Direct(b)) => {
                a.lemma_parameters_carry(b);
            },
            _ => {},
        }
    }
}

impl<S: Scalar> View for ConvNetworkLayer<S> {
    type V = ConvLayerView<S>;

    open spec fn view(&self) -> ConvLayerView<S> {
        match self {
            ConvNetworkLayer::Direct(layer) => ConvLayerView::Direct(layer@),
            ConvNetworkLayer::AvgPooling(layer) => ConvLayerView::AvgPooling(*layer),
            ConvNetworkLayer::MaxPooling(layer) => ConvLayerView::MaxPooling(layer@),
            ConvNetworkLayer::Activation(layer) => ConvLayerView::Activation(layer@),
        }
    }
}

impl<S: Scalar> ConvNetworkLayer<S> {
    /// The layer's invariant holds.
    pub open spec fn wf(&self) -> bool {
        self@.wf()
    }

    /// Sends `input` through the layer.
    pub fn forward(&mut self, input: Image<S>) -> (out: Result<Image<S>, Error>)
        requires
            old(self).wf(),
        ensures
            final(self).wf(),
            out is Ok <==> old(self)@.accepts_input(input@),
            out matches Ok(output) ==> {
                &&& output@.wf()
                &&& output@ == old(self)@.output(input@)
                &&& final(self)@ == old(self)@.after_forward(input@)
            },
            out matches Err(error) ==> error == Error::ShapeMismatch && final(self)@ == old(self)@,
    {
        match self {
            ConvNetworkLayer::Direct(layer) => layer.forward(input),
            ConvNetworkLayer::AvgPooling(layer) => layer.forward(input),
            ConvNetworkLayer::MaxPooling(layer) => layer.forward(input),
            ConvNetworkLayer::Activation(layer) => Ok(layer.forward(input)),
        }
    }

    /// Sends `output_gradient` back through the layer, which learns from it.
    pub fn backward(&mut self, epoch: usize, output_gradient: Image<S>) -> (out: Result<
        Image<S>,
        Error,
    >)
        requires
            old(self).wf(),
        ensures
            final(self).wf(),
            out is Ok <==> old(self)@.accepts_gradient(output_gradient@),
            out matches Ok(input_gradient) ==> {
                &&& input_gradient@.wf()
                &&& input_gradient@ == old(self)@.input_gradient(output_gradient@)
                &&& final(self)@ == old(self)@.after_backward(epoch, output_gradient@)
            },
            out matches Err(error) ==> {
                &&& final(self)@ == old(self)@
                &&& (error == Error::ShapeMismatch || error == Error::UninitializedState)
            },
    {
        match self {
            ConvNetworkLayer::Direct(layer) => layer.backward(epoch, output_gradient),
            ConvNetworkLayer::AvgPooling(layer) => layer.backward(epoch, output_gradient),
            ConvNetworkLayer::MaxPooling(layer) => layer.backward(epoch, output_gradient),
            ConvNetworkLayer::Activation(layer) => layer.backward(epoch, output_gradient),
        }
    }
}

impl<S: Scalar> ConvNetworkLayer<S> {
    /// The number of vectors that the learnable parameters of the layer are laid out in.
    pub fn parameter_count(&self) -> (count: usize)
        requires
            self.wf(),
        ensures
            count == self@.parameter_count(),
    {
        match self {
            ConvNetworkLayer::Direct(layer) => layer.get_learnable_parameters().len(),
            _ => 0,
        }
    }

    /// The learnable parameters of the layer as a list of vectors.
    pub fn get_learnable_parameters(&self) -> (parameters: Vec<Vec<S>>)
        requires
            self.wf(),
        ensures
            MatrixView::<S>::nested(parameters@) == self@.parameters(),
    {
        match self {
            ConvNetworkLayer::Direct(layer) => layer.get_learnable_parameters(),
            _ => {
                let parameters: Vec<Vec<S>> = Vec::new();
                assert(MatrixView::<S>::nested(parameters@) =~= self@.parameters());
                parameters
            },
        }
    }

    /// Whether `parameters` fit the layer.
    pub fn accepts_parameters(&self, parameters: &Vec<Vec<S>>) -> (accepts: bool)
        requires
            self.wf(),
        ensures
            accepts == self@.accepts_parameters(MatrixView::<S>::nested(parameters@)),
    {
        match self {
            ConvNetworkLayer::Direct(layer) => layer.accepts_parameters(parameters),
            _ => parameters.len() == 0,
        }
    }

    /// Replaces the learnable parameters of the layer by `parameters`, which must fit it.
    pub fn set_learnable_parameters(&mut self, parameters: &Vec<Vec<S>>) -> (out: Result<
        (),
        Error,
    >)
        requires
            old(self).wf(),
        ensures
            final(self).wf(),
            out is Ok <==> old(self)@.accepts_parameters(MatrixView::<S>::nested(parameters@)),
            out is Ok ==> final(self)@ == old(self)@.with_parameters(
                MatrixView::<S>::nested(parameters@),
            ),
            out matches Err(error) ==> error == Error::ParameterCountMismatch && final(self)@
                == old(self)@,
    {
        match self {
            ConvNetworkLayer::Direct(layer) => layer.set_learnable_parameters(parameters),
            _ => {
                if parameters.len() == 0 {
                    Ok(())
                } else {
                    Err(Error::ParameterCountMismatch)
                }
            },
        }
    }
}

/// A copy of the vectors of `vectors` from place `from` up to place `to`.
fn vectors_between<S: Scalar>(vectors: &Vec<Vec<S>>, from: usize, to: usize) -> (out: Vec<Vec<S>>)
    requires
        from <= to <= vectors@.len(),
    ensures
        MatrixView::<S>::nested(out@) == MatrixView::<S>::nested(vectors@).subrange(
            from as int,
            to as int,
        ),
{
    let mut out: Vec<Vec<S>> = Vec::new();
    let mut i: usize = from;
    while i < to
        invariant
            from <= i <= to <= vectors@.len(),
            out@.len() == i - from,
            forall|k: int| 0 <= k < i - from ==> (#[trigger] out@[k])@ == vectors@[from + k]@,
        decreases to - i,
    {
        out.push(crate::linalg::copied(&vectors[i]));
        i += 1;
    }
    assert(MatrixView::<S>::nested(out@) =~= MatrixView::<S>::nested(vectors@).subrange(
        from as int,
        to as int,
    ));
    out
}

/// A network on images: layers that an image goes through first to last, and a gradient
/// last to first.
#[derive(Debug)]
pub struct ConvNetwork<S: Scalar> {
    layers: Vec<ConvNetworkLayer<S>>,
    /// The number of channels of the images that the network takes.
    channels: usize,
    /// The rows, columns and channels of the output of the last forward pass.
    output_dims: Option<(usize, usize, usize)>,
}

/// Mathematical model of a [`ConvNetwork`].
pub struct ConvNetworkView<S: Scalar> {
    pub layers: Seq<ConvLayerView<S>>,
    pub channels: usize,
    pub output_dims: Option<(usize, usize, usize)>,
}

impl<S: Scalar> ConvNetworkView<S> {
    /// Every layer's invariant holds.
    pub open spec fn wf(self) -> bool {
        forall|i: int| 0 <= i < self.layers.len() ==> (#[trigger] self.layers[i]).wf()
    }

    /// What enters layer `i` when `input` enters the network; for `i` the number of layers,
    /// what leaves the network.
    pub open spec fn entering(self, input: ImageView<S>, i: int) -> ImageView<S>
        decreases i,
    {
        if i <= 0 {
            input
        } else {
            self.layers[i - 1].output(self.entering(input, i - 1))
        }
    }

    /// Whether `input` goes through: each layer takes what enters it.
    pub open spec fn accepts_image(self, input: ImageView<S>) -> bool {
        forall|i: int|
            0 <= i < self.layers.len() ==> (#[trigger] self.layers[i]).accepts_input(
                self.entering(input, i),
            )
    }

    /// What the network makes of the image `input`.
    pub open spec fn image_output(self, input: ImageView<S>) -> ImageView<S> {
        self.entering(input, self.layers.len() as int)
    }

    /// The network after a forward pass of the image `input`.
    pub open spec fn after_image(self, input: ImageView<S>) -> Self {
        ConvNetworkView {
            layers: Seq::new(
                self.layers.len(),
                |i: int| self.layers[i].after_forward(self.entering(input, i)),
            ),
            channels: self.channels,
            output_dims: self.output_dims,
        }
    }

    /// The gradient that leaves layer `i` towards the input when `gradient` enters the
    /// network at its end; for `i` the number of layers, `gradient` itself.
    pub open spec fn leaving(self, gradient: ImageView<S>, i: int) -> ImageView<S>
        decreases self.layers.len() - i,
    {
        if i >= self.layers.len() {
            gradient
        } else {
            self.layers[i].input_gradient(self.leaving(gradient, i + 1))
        }
    }

    /// Whether the image `gradient` goes back through: each layer takes what reaches it.
    pub open spec fn accepts_image_gradient(self, gradient: ImageView<S>) -> bool {
        forall|i: int|
            0 <= i < self.layers.len() ==> (#[trigger] self.layers[i]).accepts_gradient(
                self.leaving(gradient, i + 1),
            )
    }

    /// The gradient with respect to the image that went in.
    pub open spec fn image_gradient(self, gradient: ImageView<S>) -> ImageView<S> {
        self.leaving(gradient, 0)
    }

    /// The network after a backward pass of the image `gradient` in epoch `epoch`.
    pub open spec fn after_image_gradient(self, epoch: usize, gradient: ImageView<S>) -> Self {
        ConvNetworkView {
            layers: Seq::new(
                self.layers.len(),
                |i: int| self.layers[i].after_backward(epoch, self.leaving(gradient, i + 1)),
            ),
            channels: self.channels,
            output_dims: self.output_dims,
        }
    }

    /// What enters a layer has a sample for each sample of the network's input.
    pub proof fn lemma_entering_samples(self, input: ImageView<S>, i: int)
        requires
            self.wf(),
            0 <= i <= self.layers.len(),
        ensures
            self.entering(input, i).nsamples() == input.nsamples(),
        decreases i,
    {
        if i > 0 {
            self.lemma_entering_samples(input, i - 1);
            assert(self.layers[i - 1].wf());
            self.layers[i - 1].lemma_output_samples(self.entering(input, i - 1));
        }
    }

    /// The learnable parameters of a list of layers: those of each layer, in layer order.
    pub open spec fn parameters_of(layers: Seq<ConvLayerView<S>>) -> Seq<Seq<S>>
        decreases layers.len(),
    {
        if layers.len() == 0 {
            Seq::empty()
        } else {
            Self::parameters_of(layers.drop_last()) + layers.last().parameters()
        }
    }

    /// The learnable parameters of the network as a list of vectors.
    pub open spec fn parameters(self) -> Seq<Seq<S>> {
        Self::parameters_of(self.layers)
    }

    /// Whether a list of vectors fits a list of layers: the vectors are, in layer order,
    /// those that each layer takes.
    pub open spec fn accepts_parameters_of(
        layers: Seq<ConvLayerView<S>>,
        parameters: Seq<Seq<S>>,
    ) -> bool
        decreases layers.len(),
    {
        if layers.len() == 0 {
            parameters.len() == 0
        } else {
            let count = layers.last().parameter_count();
            &&& parameters.len() >= count
            &&& layers.last().accepts_parameters(parameters.skip(parameters.len() - count))
            &&& Self::accepts_parameters_of(
                layers.drop_last(),
                parameters.take(parameters.len() - count),
            )
        }
    }

    /// Whether a list of vectors fits the network.
    pub open spec fn accepts_parameters(self, parameters: Seq<Seq<S>>) -> bool {
        Self::accepts_parameters_of(self.layers, parameters)
    }

    /// A list of layers with the vectors of `parameters` given to the layers, in order.
    pub open spec fn with_parameters_of(
        layers: Seq<ConvLayerView<S>>,
        parameters: Seq<Seq<S>>,
    ) -> Seq<ConvLayerView<S>>
        decreases layers.len(),
    {
        if layers.len() == 0 {
            layers
        } else {
            let count = layers.last().parameter_count();
            Self::with_parameters_of(
                layers.drop_last(),
                parameters.take(parameters.len() - count),
            ).push(layers.last().with_parameters(parameters.skip(parameters.len() - count)))
        }
    }

    /// The network with the given learnable parameters.
    pub open spec fn with_parameters(self, parameters: Seq<Seq<S>>) -> Self {
        ConvNetworkView { layers: Self::with_parameters_of(self.layers, parameters), ..self }
    }

    /// Whether the two networks have one topology: they take images of as many channels,
    /// and are, layer by layer, of one kind and of the same dimensions.
    pub open spec fn same_topology(self, other: Self) -> bool {
        &&& self.channels == other.channels
        &&& self.layers.len() == other.layers.len()
        &&& forall|i: int|
            0 <= i < self.layers.len() ==> (#[trigger] self.layers[i]).same_shape(other.layers[i])
    }

    /// Giving parameters to a list of layers keeps their number.
    pub proof fn lemma_with_parameters_len(
        layers: Seq<ConvLayerView<S>>,
        parameters: Seq<Seq<S>>,
    )
        ensures
            Self::with_parameters_of(layers, parameters).len() == layers.len(),
        decreases layers.len(),
    {
        if layers.len() > 0 {
            let count = layers.last().parameter_count();
            Self::lemma_with_parameters_len(
                layers.drop_last(),
                parameters.take(parameters.len() - count),
            );
        }
    }

    /// The parameters of a list of layers fit every list of layers of the same kinds and
    /// dimensions, and make it compute the same functions.
    pub proof fn lemma_parameters_carry_of(
        layers: Seq<ConvLayerView<S>>,
        others: Seq<ConvLayerView<S>>,
    )
        requires
            layers.len() == others.len(),
            forall|i: int| 0 <= i < layers.len() ==> (#[trigger] layers[i]).wf(),
            forall|i: int| 0 <= i < layers.len() ==> (#[trigger] layers[i]).same_shape(others[i]),
        ensures
            Self::accepts_parameters_of(others, Self::parameters_of(layers)),
            Self::with_parameters_of(others, Self::parameters_of(layers)).len() == layers.len(),
            forall|i: int|
                0 <= i < layers.len() ==> (#[trigger] Self::with_parameters_of(
                    others,
                    Self::parameters_of(layers),
                )[i]).same_function(layers[i]),
        decreases layers.len(),
    {
        let parameters = Self::parameters_of(layers);
        Self::lemma_with_parameters_len(others, parameters);
        if layers.len() > 0 {
            let head = layers.drop_last();
            let other_head = others.drop_last();
            let last = layers.last();
            let other_last = others.last();
            assert forall|i: int| 0 <= i < head.len() implies (#[trigger] head[i]).wf() by {
                assert(head[i] == layers[i]);
            }
            assert forall|i: int| 0 <= i < head.len() implies (#[trigger] head[i]).same_shape(
                other_head[i],
            ) by {
                assert(head[i] == layers[i]);
                assert(other_head[i] == others[i]);
            }
            Self::lemma_parameters_carry_of(head, other_head);
            assert(last == layers[layers.len() - 1]);
            assert(other_last == others[layers.len() - 1]);
            last.lemma_parameters_carry(other_last);
            let count = other_last.parameter_count();
            assert(parameters == Self::parameters_of(head) + last.parameters());
            assert(parameters.skip(parameters.len() - count) =~= last.parameters());
            assert(parameters.take(parameters.len() - count) =~= Self::parameters_of(head));
            let loaded = Self::with_parameters_of(others, parameters);
            let loaded_head = Self::with_parameters_of(other_head, Self::parameters_of(head));
            assert(loaded == loaded_head.push(other_last.with_parameters(last.parameters())));
            assert forall|i: int| 0 <= i < layers.len() implies (#[trigger] loaded[i]).same_function(
                layers[i],
            ) by {
                if i < head.len() {
                    assert(loaded[i] == loaded_head[i]);
                    assert(head[i] == layers[i]);
                }
            }
        }
    }

    /// The parameters of a network fit every network of the same topology, and make it
    /// compute the same function.
    pub proof fn lemma_parameters_carry_function(self, other: Self)
        requires
            self.wf(),
            self.same_topology(other),
        ensures
            other.accepts_parameters(self.parameters()),
            other.with_parameters(self.parameters()).same_function(self),
    {
        reveal(ConvNetworkView::same_function);
        Self::lemma_parameters_carry_of(self.layers, other.layers);
    }

    /// A network whose first layers have seen a forward pass computes the same function
    /// as before.
    pub proof fn lemma_partly_forwarded(self, now: Self, input: ImageView<S>, i: int)
        requires
            now.channels == self.channels,
            now.layers.len() == self.layers.len(),
            forall|k: int|
                0 <= k < i ==> (#[trigger] now.layers[k]) == self.layers[k].after_forward(
                    self.entering(input, k),
                ),
            forall|k: int| i <= k < self.layers.len() ==> (#[trigger] now.layers[k]) == self.layers[k],
        ensures
            self.same_function(now),
    {
        reveal(ConvNetworkView::same_function);
        assert forall|k: int| 0 <= k < self.layers.len() implies (
        #[trigger] self.layers[k]).same_function(now.layers[k]) by {
            if k < i {
                self.layers[k].lemma_forward_keeps_function(self.entering(input, k));
            } else {
                self.layers[k].lemma_same_function_reflexive();
            }
        }
    }

    /// A network computes the same function as itself.
    pub proof fn lemma_same_function_reflexive(self)
        ensures
            self.same_function(self),
    {
        reveal(ConvNetworkView::same_function);
        assert forall|i: int| 0 <= i < self.layers.len() implies (
        #[trigger] self.layers[i]).same_function(self.layers[i]) by {
            self.layers[i].lemma_same_function_reflexive();
        }
    }

    /// Computing the same function goes both ways.
    pub proof fn lemma_same_function_symmetric(self, other: Self)
        requires
            self.same_function(other),
        ensures
            other.same_function(self),
    {
        reveal(ConvNetworkView::same_function);
        assert forall|i: int| 0 <= i < other.layers.len() implies (
        #[trigger] other.layers[i]).same_function(self.layers[i]) by {
            assert(self.layers[i].same_function(other.layers[i]));
        }
    }

    /// Computing the same function is transitive.
    pub proof fn lemma_same_function_transitive(self, second: Self, third: Self)
        requires
            self.same_function(second),
            second.same_function(third),
        ensures
            self.same_function(third),
    {
        reveal(ConvNetworkView::same_function);
        assert forall|i: int| 0 <= i < self.layers.len() implies (
        #[trigger] self.layers[i]).same_function(third.layers[i]) by {
            assert(self.layers[i].same_function(second.layers[i]));
            assert(second.layers[i].same_function(third.layers[i]));
        }
    }

    /// Networks that compute the same function agree on what enters each layer.
    pub proof fn lemma_same_entering(self, other: Self, input: ImageView<S>, i: int)
        requires
            self.same_function(other),
            0 <= i <= self.layers.len(),
        ensures
            self.entering(input, i) == other.entering(input, i),
        decreases i,
    {
        reveal(ConvNetworkView::same_function);
        if i > 0 {
            self.lemma_same_entering(other, input, i - 1);
            assert(self.layers[i - 1].same_function(other.layers[i - 1]));
        }
    }

    /// Networks that compute the same function take the same matrices and make the same
    /// of them.
    pub proof fn lemma_same_function(self, other: Self, input: MatrixView<S>)
        requires
            self.same_function(other),
        ensures
            self.accepts_input(input) == other.accepts_input(input),
            self.output(input) == other.output(input),
    {
        reveal(ConvNetworkView::same_function);
        reveal(ConvNetworkView::accepts_input);
        reveal(ConvNetworkView::output);
        let image = self.image_of(input);
        self.lemma_same_entering(other, image, self.layers.len() as int);
        assert forall|i: int| 0 <= i < self.layers.len() implies (
        #[trigger] self.layers[i]).accepts_input(self.entering(image, i))
            == other.layers[i].accepts_input(other.entering(image, i)) by {
            self.lemma_same_entering(other, image, i);
            assert(self.layers[i].same_function(other.layers[i]));
        }
        if self.accepts_image(image) {
            assert forall|i: int| 0 <= i < other.layers.len() implies (
            #[trigger] other.layers[i]).accepts_input(other.entering(image, i)) by {
                assert(self.layers[i].accepts_input(self.entering(image, i)));
            }
        }
        if other.accepts_image(image) {
            assert forall|i: int| 0 <= i < self.layers.len() implies (
            #[trigger] self.layers[i]).accepts_input(self.entering(image, i)) by {
                assert(other.layers[i].accepts_input(other.entering(image, i)));
            }
        }
    }

    /// A forward pass leaves the function of the network as it is.
    pub proof fn lemma_forward_keeps_function(self, input: MatrixView<S>)
        ensures
            self.same_function(self.after_forward(input)),
    {
        reveal(ConvNetworkView::after_forward);
        self.lemma_partly_forwarded(
            self.after_forward(input),
            self.image_of(input),
            self.layers.len() as int,
        );
    }

    /// The image that the columns of `input` hold for the network: square, of the
    /// network's channels.
    pub open spec fn image_of(self, input: MatrixView<S>) -> ImageView<S> {
        ImageView::unflatten_square(input, self.channels)
    }

    /// Whether the network takes the matrix `input`: its columns hold square images of the
    /// network's channels, which go through the layers.
    #[verifier::opaque]
    pub open spec fn accepts_input(self, input: MatrixView<S>) -> bool {
        &&& ImageView::<S>::holds_images(input.nrow, self.channels)
        &&& self.accepts_image(self.image_of(input))
    }

    /// What the network makes of the matrix `input`: what it makes of the images in its
    /// columns, laid out in columns again.
    #[verifier::opaque]
    pub open spec fn output(self, input: MatrixView<S>) -> MatrixView<S> {
        self.image_output(self.image_of(input)).flatten()
    }

    /// The network after a forward pass of the matrix `input`.
    #[verifier::opaque]
    pub open spec fn after_forward(self, input: MatrixView<S>) -> Self {
        let output = self.image_output(self.image_of(input));
        ConvNetworkView {
            output_dims: Some((output.nrow as usize, output.ncol as usize, output.nchan as usize)),
            ..self.after_image(self.image_of(input))
        }
    }

    /// The image that the columns of a gradient hold: of the dimensions of the last
    /// output.
    pub open spec fn gradient_image(self, gradient: MatrixView<S>) -> ImageView<S> {
        let dims = self.output_dims->0;
        ImageView::unflatten(gradient, dims.0 as nat, dims.1 as nat, dims.2 as nat)
    }

    /// Whether the network takes the matrix `gradient` on its way back: an input has gone
    /// through, the columns of the gradient hold images of the dimensions of the output,
    /// and these go back through the layers.
    #[verifier::opaque]
    pub open spec fn accepts_gradient(self, gradient: MatrixView<S>) -> bool {
        &&& self.output_dims matches Some(dims) && ImageView::holds_samples(
            gradient,
            dims.0 as nat,
            dims.1 as nat,
            dims.2 as nat,
        )
        &&& self.accepts_image_gradient(self.gradient_image(gradient))
    }

    /// The gradient with respect to the matrix that went in.
    #[verifier::opaque]
    pub open spec fn input_gradient(self, gradient: MatrixView<S>) -> MatrixView<S> {
        self.image_gradient(self.gradient_image(gradient)).flatten()
    }

    /// The network after a backward pass of the matrix `gradient` in epoch `epoch`.
    #[verifier::opaque]
    pub open spec fn after_backward(self, epoch: usize, gradient: MatrixView<S>) -> Self {
        self.after_image_gradient(epoch, self.gradient_image(gradient))
    }

    /// Whether the two networks compute the same function of their input: they take images
    /// of as many channels and, layer by layer, are of one kind and hold the same
    /// parameters.
    #[verifier::opaque]
    pub open spec fn same_function(self, other: Self) -> bool {
        &&& self.channels == other.channels
        &&& self.layers.len() == other.layers.len()
        &&& forall|i: int|
            0 <= i < self.layers.len() ==> (#[trigger] self.layers[i]).same_function(
                other.layers[i],
            )
    }
}

impl<S: Scalar> View for ConvNetwork<S> {
    type V = ConvNetworkView<S>;

    closed spec fn view(&self) -> ConvNetworkView<S> {
        ConvNetworkView {
            layers: self.layers@.map_values(|layer: ConvNetworkLayer<S>| layer@),
            channels: self.channels,
            output_dims: self.output_dims,
        }
    }
}

impl<S: Scalar> ConvNetwork<S> {
    /// Every layer's invariant holds.
    pub open spec fn wf(&self) -> bool {
        self@.wf()
    }

    /// The network of the given layers, for images of `channels` channels.
    pub fn new(layers: Vec<ConvNetworkLayer<S>>, channels: usize) -> (network: Self)
        ensures
            network@ == (ConvNetworkView {
                layers: layers@.map_values(|layer: ConvNetworkLayer<S>| layer@),
                channels,
                output_dims: None,
            }),
    {
        ConvNetwork { layers, channels, output_dims: None }
    }

    /// The number of channels of the images that the network takes.
    pub fn channels(&self) -> (channels: usize)
        ensures
            channels == self@.channels,
    {
        self.channels
    }

    /// Sends the image `input` through the layers, first to last.
    pub fn forward_image(&mut self, input: Image<S>) -> (out: Result<Image<S>, Error>)
        requires
            old(self).wf(),
        ensures
            final(self).wf(),
            final(self)@.layers.len() == old(self)@.layers.len(),
            final(self)@.channels == old(self)@.channels,
            out is Ok <==> old(self)@.accepts_image(input@),
            out matches Ok(output) ==> {
                &&& output@.wf()
                &&& output@ == old(self)@.image_output(input@)
                &&& final(self)@ == old(self)@.after_image(input@)
            },
            out matches Err(error) ==> error == Error::ShapeMismatch,
            old(self)@.same_function(final(self)@),
            final(self)@.output_dims == old(self)@.output_dims,
    {
        let ghost before = self@;
        let _dims = input.image_dims();
        let mut current = input;
        let mut i: usize = 0;
        while i < self.layers.len()
            invariant
                self.wf(),
                before == old(self)@,
                self@.channels == before.channels,
                self@.output_dims == before.output_dims,
                i <= self.layers@.len(),
                self.layers@.len() == before.layers.len(),
                current@.wf(),
                current@ == before.entering(input@, i as int),
                forall|k: int|
                    0 <= k < i ==> (#[trigger] before.layers[k]).accepts_input(
                        before.entering(input@, k),
                    ),
                forall|k: int|
                    0 <= k < i ==> (#[trigger] self@.layers[k]) == before.layers[k].after_forward(
                        before.entering(input@, k),
                    ),
                forall|k: int|
                    i <= k < self.layers@.len() ==> (#[trigger] self@.layers[k])
                        == before.layers[k],
            decreases self.layers@.len() - i,
        {
            let ghost layers_before = self.layers@;
            assert(self@.layers[i as int] == before.layers[i as int]);
            assert(self@.layers[i as int].wf());
            let result = self.layers[i].forward(current);
            proof {
                let views_before = layers_before.map_values(|layer: ConvNetworkLayer<S>| layer@);
                assert forall|k: int| 0 <= k < self.layers@.len() && k != i implies (
                #[trigger] self@.layers[k]) == views_before[k] by {
                    assert(self.layers@[k] == layers_before[k]);
                }
            }
            match result {
                Ok(output) => {
                    current = output;
                },
                Err(error) => {
                    proof {
                        before.lemma_partly_forwarded(self@, input@, i as int);
                    }
                    return Err(error);
                },
            }
            i += 1;
        }
        assert(self@.layers =~= before.after_image(input@).layers);
        proof {
            before.lemma_partly_forwarded(self@, input@, i as int);
        }
        Ok(current)
    }

    /// Sends the image `gradient` back through the layers, last to first. Each layer that
    /// can learn takes one step of its optimizers.
    pub fn backward_image(&mut self, epoch: usize, gradient: Image<S>) -> (out: Result<
        Image<S>,
        Error,
    >)
        requires
            old(self).wf(),
        ensures
            final(self).wf(),
            final(self)@.layers.len() == old(self)@.layers.len(),
            final(self)@.channels == old(self)@.channels,
            out is Ok <==> old(self)@.accepts_image_gradient(gradient@),
            out matches Ok(input_gradient) ==> {
                &&& input_gradient@.wf()
                &&& input_gradient@ == old(self)@.image_gradient(gradient@)
                &&& final(self)@ == old(self)@.after_image_gradient(epoch, gradient@)
            },
            out matches Err(error) ==> error == Error::ShapeMismatch || error
                == Error::UninitializedState,
            final(self)@.output_dims == old(self)@.output_dims,
    {
        let ghost before = self@;
        let _dims = gradient.image_dims();
        let mut current = gradient;
        let mut i: usize = self.layers.len();
        while i > 0
            invariant
                self.wf(),
                before == old(self)@,
                self@.channels == before.channels,
                self@.output_dims == before.output_dims,
                i <= self.layers@.len(),
                self.layers@.len() == before.layers.len(),
                current@.wf(),
                current@ == before.leaving(gradient@, i as int),
                forall|k: int|
                    i <= k < before.layers.len() ==> (
                    #[trigger] before.layers[k]).accepts_gradient(
                        before.leaving(gradient@, k + 1),
                    ),
                forall|k: int|
                    i <= k < before.layers.len() ==> (#[trigger] self@.layers[k])
                        == before.layers[k].after_backward(
                        epoch,
                        before.leaving(gradient@, k + 1),
                    ),
                forall|k: int| 0 <= k < i ==> (#[trigger] self@.layers[k]) == before.layers[k],
            decreases i,
        {
            i -= 1;
            let ghost layers_before = self.layers@;
            assert(self@.layers[i as int] == before.layers[i as int]);
            assert(self@.layers[i as int].wf());
            let result = self.layers[i].backward(epoch, current);
            proof {
                let views_before = layers_before.map_values(|layer: ConvNetworkLayer<S>| layer@);
                assert forall|k: int| 0 <= k < self.layers@.len() && k != i implies (
                #[trigger] self@.layers[k]) == views_before[k] by {
                    assert(self.layers@[k] == layers_before[k]);
                }
            }
            match result {
                Ok(input_gradient) => {
                    current = input_gradient;
                },
                Err(error) => {
                    return Err(error);
                },
            }
        }
        assert(self@.layers =~= before.after_image_gradient(epoch, gradient@).layers);
        Ok(current)
    }

    /// Sends the matrix `input` through the network: each column is read as one square
    /// image of the network's channels, and each image of the output is laid out in a
    /// column again.
    pub fn forward(&mut self, input: Matrix<S>) -> (out: Result<Matrix<S>, Error>)
        requires
            old(self).wf(),
        ensures
            final(self).wf(),
            out is Ok <==> old(self)@.accepts_input(input@),
            out matches Ok(output) ==> {
                &&& output@.wf()
                &&& output@ == old(self)@.output(input@)
                &&& output@.ncol() == input@.ncol()
                &&& final(self)@ == old(self)@.after_forward(input@)
            },
            out matches Err(error) ==> error == Error::ShapeMismatch,
            old(self)@.same_function(final(self)@),
    {
        proof {
            reveal(ConvNetworkView::accepts_input);
            reveal(ConvNetworkView::output);
            reveal(ConvNetworkView::after_forward);
        }
        let ghost before = self@;
        let image = match Image::from_samples(&input, self.channels) {
            Ok(image) => image,
            Err(error) => {
                proof {
                    before.lemma_same_function_reflexive();
                }
                return Err(error);
            },
        };
        let result = self.forward_image(image);
        match result {
            Ok(output) => {
                proof {
                    before.lemma_entering_samples(image@, before.layers.len() as int);
                }
                let dims = output.image_dims();
                self.output_dims = Some(dims);
                proof {
                    before.lemma_forward_keeps_function(input@);
                }
                Ok(output.flatten())
            },
            Err(error) => Err(error),
        }
    }

    /// Sends the matrix `gradient` back through the network: each column is read as one
    /// image of the dimensions of the last output, and each image of the gradient with
    /// respect to the input is laid out in a column again.
    pub fn backward(&mut self, epoch: usize, gradient: Matrix<S>) -> (out: Result<Matrix<S>, Error>)
        requires
            old(self).wf(),
        ensures
            final(self).wf(),
            out is Ok <==> old(self)@.accepts_gradient(gradient@),
            out matches Ok(input_gradient) ==> {
                &&& input_gradient@.wf()
                &&& input_gradient@ == old(self)@.input_gradient(gradient@)
                &&& final(self)@ == old(self)@.after_backward(epoch, gradient@)
            },
            out matches Err(error) ==> error == Error::ShapeMismatch || error
                == Error::UninitializedState,
    {
        proof {
            reveal(ConvNetworkView::accepts_gradient);
            reveal(ConvNetworkView::input_gradient);
            reveal(ConvNetworkView::after_backward);
        }
        let dims = match self.output_dims {
            Some(dims) => dims,
            None => {
                return Err(Error::UninitializedState);
            },
        };
        let image = Image::from_matrix(&gradient, dims.0, dims.1, dims.2)?;
        let result = self.backward_image(epoch, image);
        match result {
            Ok(back) => Ok(back.flatten()),
            Err(error) => Err(error),
        }
    }

    /// The learnable parameters of the network as a list of vectors: those of each layer,
    /// in layer order.
    pub fn get_learnable_parameters(&self) -> (parameters: Vec<Vec<S>>)
        requires
            self.wf(),
        ensures
            MatrixView::<S>::nested(parameters@) == self@.parameters(),
    {
        let mut parameters: Vec<Vec<S>> = Vec::new();
        let mut i: usize = 0;
        assert(MatrixView::<S>::nested(parameters@) =~= ConvNetworkView::parameters_of(
            self@.layers.take(0),
        ));
        while i < self.layers.len()
            invariant
                self.wf(),
                i <= self.layers@.len(),
                MatrixView::<S>::nested(parameters@) == ConvNetworkView::parameters_of(
                    self@.layers.take(i as int),
                ),
            decreases self.layers@.len() - i,
        {
            proof {
                assert(self@.layers.take(i + 1).drop_last() =~= self@.layers.take(i as int));
                assert(self@.layers.take(i + 1).last() == self@.layers[i as int]);
                assert(self@.layers[i as int].wf());
            }
            let ghost before = MatrixView::<S>::nested(parameters@);
            let mut more = self.layers[i].get_learnable_parameters();
            let ghost added = MatrixView::<S>::nested(more@);
            parameters.append(&mut more);
            assert(MatrixView::<S>::nested(parameters@) =~= before + added);
            i += 1;
        }
        assert(self@.layers.take(i as int) =~= self@.layers);
        parameters
    }

    /// Whether `parameters` fit the network: the vectors are, in layer order, those that
    /// each layer takes.
    pub fn accepts_parameters(&self, parameters: &Vec<Vec<S>>) -> (accepts: bool)
        requires
            self.wf(),
        ensures
            accepts == self@.accepts_parameters(MatrixView::<S>::nested(parameters@)),
    {
        let ghost lists = MatrixView::<S>::nested(parameters@);
        let mut i: usize = self.layers.len();
        let mut end: usize = parameters.len();
        assert(self@.layers.take(i as int) =~= self@.layers);
        assert(lists.take(end as int) =~= lists);
        while i > 0
            invariant
                self.wf(),
                lists == MatrixView::<S>::nested(parameters@),
                i <= self.layers@.len(),
                end <= parameters@.len(),
                self@.accepts_parameters(lists) == ConvNetworkView::accepts_parameters_of(
                    self@.layers.take(i as int),
                    lists.take(end as int),
                ),
            decreases i,
        {
            proof {
                assert(self@.layers.take(i as int).drop_last() =~= self@.layers.take(i - 1));
                assert(self@.layers.take(i as int).last() == self@.layers[i - 1]);
                assert(self@.layers[i - 1].wf());
            }
            i -= 1;
            let count = self.layers[i].parameter_count();
            if end < count {
                return false;
            }
            let part = vectors_between(parameters, end - count, end);
            proof {
                assert(lists.take(end as int).skip(end - count) =~= lists.subrange(
                    end - count,
                    end as int,
                ));
                assert(lists.take(end as int).take(end - count) =~= lists.take(end - count));
            }
            if !self.layers[i].accepts_parameters(&part) {
                return false;
            }
            end -= count;
        }
        end == 0
    }

    /// Replaces the learnable parameters of the network by `parameters`, which must fit it.
    /// Where they do not, no layer is changed.
    pub fn set_learnable_parameters(&mut self, parameters: &Vec<Vec<S>>) -> (out: Result<(), Error>)
        requires
            old(self).wf(),
        ensures
            final(self).wf(),
            out is Ok <==> old(self)@.accepts_parameters(MatrixView::<S>::nested(parameters@)),
            out is Ok ==> final(self)@ == old(self)@.with_parameters(
                MatrixView::<S>::nested(parameters@),
            ),
            out matches Err(error) ==> error == Error::ParameterCountMismatch && final(self)@
                == old(self)@,
    {
        if !self.accepts_parameters(parameters) {
            return Err(Error::ParameterCountMismatch);
        }
        let ghost before = self@;
        let ghost lists = MatrixView::<S>::nested(parameters@);
        let mut i: usize = self.layers.len();
        let mut end: usize = parameters.len();
        proof {
            assert(before.layers.take(i as int) =~= before.layers);
            assert(lists.take(end as int) =~= lists);
            assert(self@.layers.skip(i as int) =~= Seq::<ConvLayerView<S>>::empty());
        }
        while i > 0
            invariant
                self.wf(),
                before == old(self)@,
                lists == MatrixView::<S>::nested(parameters@),
                self@.channels == before.channels,
                self@.output_dims == before.output_dims,
                i <= self.layers@.len(),
                self.layers@.len() == before.layers.len(),
                end <= parameters@.len(),
                ConvNetworkView::accepts_parameters_of(
                    before.layers.take(i as int),
                    lists.take(end as int),
                ),
                forall|k: int| 0 <= k < i ==> (#[trigger] self@.layers[k]) == before.layers[k],
                before.with_parameters(lists).layers == ConvNetworkView::with_parameters_of(
                    before.layers.take(i as int),
                    lists.take(end as int),
                ) + self@.layers.skip(i as int),
            decreases i,
        {
            let ghost suffix = self@.layers.skip(i as int);
            let ghost layers_before = self.layers@;
            proof {
                assert(before.layers.take(i as int).drop_last() =~= before.layers.take(i - 1));
                assert(before.layers.take(i as int).last() == before.layers[i - 1]);
                assert(self@.layers[i - 1] == before.layers[i - 1]);
                assert(self@.layers[i - 1].wf());
            }
            i -= 1;
            let count = self.layers[i].parameter_count();
            let part = vectors_between(parameters, end - count, end);
            proof {
                assert(lists.take(end as int).skip(end - count) =~= lists.subrange(
                    end - count,
                    end as int,
                ));
                assert(lists.take(end as int).take(end - count) =~= lists.take(end - count));
            }
            let result = self.layers[i].set_learnable_parameters(&part);
            proof {
                let views_before = layers_before.map_values(|layer: ConvNetworkLayer<S>| layer@);
                assert forall|k: int| 0 <= k < self.layers@.len() && k != i implies (
                #[trigger] self@.layers[k]) == views_before[k] by {
                    assert(self.layers@[k] == layers_before[k]);
                }
            }
            match result {
                Ok(()) => {},
                Err(error) => {
                    return Err(error);
                },
            }
            end -= count;
            proof {
                let rest = ConvNetworkView::with_parameters_of(
                    before.layers.take(i as int),
                    lists.take(end as int),
                );
                assert(self@.layers.skip(i as int) =~= seq![self@.layers[i as int]] + suffix);
                assert(rest.push(self@.layers[i as int]) + suffix =~= rest
                    + self@.layers.skip(i as int));
            }
        }
        assert(self@.layers.skip(0) =~= self@.layers);
        assert(before.with_parameters(lists).layers =~= self@.layers);
        Ok(())
    }
}

} // verus!
