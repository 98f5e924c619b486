//! Networks: layers in a row, trained together.

use crate::error::Error;
use crate::layer::activation_layer::{ActivationLayer, ActivationView};
use crate::layer::dense_layer::{DenseLayer, DenseView};
use crate::layer::dropout_layer::{DropoutLayer, DropoutView};
use crate::linalg::{Matrix, MatrixView};
use crate::loss::Loss;
use crate::network::params::NetworkParams;
use crate::scalar::Scalar;
use crate::vision::conv_network::{ConvNetwork, ConvNetworkView};
use vstd::prelude::*;

pub mod batches;
pub mod params;

verus! {

/// One layer of a network.
#[derive(Debug)]
pub enum NetworkLayer<S: Scalar> {
    Dense(DenseLayer<S>),
    Activation(ActivationLayer<S>),
    /// A network on images: each column of what enters is read as one image, and each
    /// image that leaves is laid out in a column.
    Conv(ConvNetwork<S>),
    /// A layer that drops entries at random while the network is trained.
    Dropout(DropoutLayer<S>),
}

/// A layer that can learn, as a layer of a network lends it out.
#[derive(Debug)]
pub enum Learnable<'a, S: Scalar> {
    Dense(&'a DenseLayer<S>),
    Conv(&'a ConvNetwork<S>),
}

/// Mathematical model of a [`NetworkLayer`].
pub enum LayerView<S: Scalar> {
    Dense(DenseView<S>),
    Activation(ActivationView<S>),
    Conv(ConvNetworkView<S>),
    Dropout(DropoutView<S>),
}

impl<S: Scalar> LayerView<S> {
    /// The layer's invariant.
    pub open spec fn wf(self) -> bool {
        match self {
            LayerView::Dense(layer) => layer.wf(),
            LayerView::Activation(layer) => layer.wf(),
            LayerView::Conv(network) => network.wf(),
            LayerView::Dropout(_) => true,
        }
    }

    /// Whether the layer takes `input`.
    pub open spec fn accepts_input(self, input: MatrixView<S>) -> bool {
        match self {
            LayerView::Dense(layer) => input.nrow == layer.inputs(),
            LayerView::Activation(layer) => true,
            LayerView::Conv(network) => network.accepts_input(input),
            LayerView::Dropout(_) => true,
        }
    }

    /// What the layer makes of `input`.
    pub open spec fn output(self, input: MatrixView<S>) -> MatrixView<S> {
        match self {
            LayerView::Dense(layer) => layer.output(input),
            LayerView::Activation(layer) => layer.output(input),
            LayerView::Conv(network) => network.output(input),
            LayerView::Dropout(layer) => layer.masked(input),
        }
    }

    /// The layer after a forward pass of `input`.
    pub open spec fn after_forward(self, input: MatrixView<S>) -> Self {
        match self {
            LayerView::Dense(layer) => LayerView::Dense(layer.after_forward(input)),
            LayerView::Activation(layer) => LayerView::Activation(layer.after_forward(input)),
            LayerView::Conv(network) => LayerView::Conv(network.after_forward(input)),
            LayerView::Dropout(_) => self,
        }
    }

    /// Whether the layer takes `output_gradient` on its way back.
    pub open spec fn accepts_gradient(self, output_gradient: MatrixView<S>) -> bool {
        match self {
            LayerView::Dense(layer) => layer.accepts_gradient(output_gradient),
            LayerView::Activation(layer) => layer.accepts_gradient(output_gradient),
            LayerView::Conv(network) => network.accepts_gradient(output_gradient),
            LayerView::Dropout(_) => true,
        }
    }

    /// The gradient with respect to the layer's input, given that with respect to its
    /// output.
    pub open spec fn input_gradient(self, output_gradient: MatrixView<S>) -> MatrixView<S> {
        match self {
            LayerView::Dense(layer) => layer.input_gradient(output_gradient),
            LayerView::Activation(layer) => layer.input_gradient(output_gradient),
            LayerView::Conv(network) => network.input_gradient(output_gradient),
            LayerView::Dropout(layer) => layer.masked(output_gradient),
        }
    }

    /// The layer after a backward pass of `output_gradient` in epoch `epoch`.
    pub open spec fn after_backward(self, epoch: usize, output_gradient: MatrixView<S>) -> Self {
        match self {
            LayerView::Dense(layer) => LayerView::Dense(
                layer.after_backward(epoch, output_gradient),
            ),
            LayerView::Activation(layer) => self,
            LayerView::Conv(network) => LayerView::Conv(
                network.after_backward(epoch, output_gradient),
            ),
            LayerView::Dropout(_) => self,
        }
    }
}

impl<S: Scalar> LayerView<S> {
    /// Whether the two layers compute the same function of their input: they are of one
    /// kind and hold the same parameters.
    pub open spec fn same_function(self, other: Self) -> bool {
        match (self, other) {
            (LayerView::Dense(a), LayerView::Dense(b)) => a.weights == b.weights && a.biases
                == b.biases,
            (LayerView::Activation(a), LayerView::Activation(b)) => a.activation == b.activation,
            (LayerView::Conv(a), LayerView::Conv(b)) => a.same_function(b),
            (LayerView::Dropout(a), LayerView::Dropout(b)) => a.same_function(b),
            _ => false,
        }
    }

    /// The learnable parameters of the layer, if it can learn.
    pub open spec fn parameters(self) -> Option<Seq<Seq<S>>> {
        match self {
            LayerView::Dense(layer) => Some(layer.parameters()),
            LayerView::Activation(_) => None,
            LayerView::Conv(network) => Some(network.parameters()),
            LayerView::Dropout(_) => None,
        }
    }

    /// Whether the layer can learn and `parameters` fit it.
    pub open spec fn accepts_parameters(self, parameters: Seq<Seq<S>>) -> bool {
        match self {
            LayerView::Dense(layer) => layer.accepts_parameters(parameters),
            LayerView::Activation(_) => false,
            LayerView::Conv(network) => network.accepts_parameters(parameters),
            LayerView::Dropout(_) => false,
        }
    }

    /// The layer with the given learnable parameters.
    pub open spec fn with_parameters(self, parameters: Seq<Seq<S>>) -> Self {
        match self {
            LayerView::Dense(layer) => LayerView::Dense(layer.with_parameters(parameters)),
            LayerView::Activation(_) => self,
            LayerView::Conv(network) => LayerView::Conv(network.with_parameters(parameters)),
            LayerView::Dropout(_) => self,
        }
    }
}

impl<S: Scalar> LayerView<S> {
    /// The layer with dropping enabled or disabled, where it is a layer that drops.
    pub open spec fn with_dropout(self, enabled: bool) -> Self {
        match self {
            LayerView::Dropout(layer) => LayerView::Dropout(DropoutView { enabled, ..layer }),
            _ => self,
        }
    }

    /// The layer with its seed renewed, where it is a layer that drops.
    pub open spec fn reseeded(self) -> Self {
        match self {
            LayerView::Dropout(layer) => LayerView::Dropout(layer.reseeded()),
            _ => self,
        }
    }

    /// A layer computes the same function as itself.
    pub proof fn lemma_same_function_reflexive(self)
        ensures
            self.same_function(self),
    {
        match self {
            LayerView::Conv(network) => {
                network.lemma_same_function_reflexive();
            },
            _ => {},
        }
    }

    /// Computing the same function is transitive.
    pub proof fn lemma_same_function_transitive(self, second: Self, third: Self)
        requires
            self.same_function(second),
            second.same_function(third),
        ensures
            self.same_function(third),
    {
        match (self, second, third) {
            (LayerView::Conv(a), LayerView::Conv(b), LayerView::Conv(c)) => {
                a.lemma_same_function_transitive(b, c);
            },
            _ => {},
        }
    }

    /// Layers that compute the same function take the same inputs and make the same of
    /// them.
    pub proof fn lemma_same_output(self, other: Self, input: MatrixView<S>)
        requires
            self.same_function(other),
        ensures
            self.accepts_input(input) == other.accepts_input(input),
            self.output(input) == other.output(input),
    {
        match (self, other) {
            (LayerView::Conv(a), LayerView::Conv(b)) => {
                a.lemma_same_function(b, input);
            },
            _ => {},
        }
    }

    /// A forward pass leaves the function of the layer as it is.
    pub proof fn lemma_forward_keeps_function(self, input: MatrixView<S>)
        ensures
            self.same_function(self.after_forward(input)),
    {
        match self {
            LayerView::Conv(network) => {
                network.lemma_forward_keeps_function(input);
            },
            _ => {},
        }
    }
}

impl<S: Scalar> View for NetworkLayer<S> {
    type V = LayerView<S>;

    open spec fn view(&self) -> LayerView<S> {
        match self {
            NetworkLayer::Dense(layer) => LayerView::Dense(layer@),
            NetworkLayer::Activation(layer) => LayerView::Activation(layer@),
            NetworkLayer::Conv(network) => LayerView::Conv(network@),
            NetworkLayer::Dropout(layer) => LayerView::Dropout(layer@),
        }
    }
}

impl<S: Scalar> NetworkLayer<S> {
    /// The layer's invariant holds.
    pub open spec fn wf(&self) -> bool {
        self@.wf()
    }

    /// Sends `input` through the layer.
    pub fn forward(&mut self, input: Matrix<S>) -> (out: Result<Matrix<S>, Error>)
        requires
            old(self).wf(),
        ensures
            final(self).wf(),
            out is Ok <==> old(self)@.accepts_input(input@),
            out matches Ok(output) ==> {
                &&& output@.wf()
                &&& output@ == old(self)@.output(input@)
                &&& output@.ncol() == input@.ncol()
                &&& final(self)@ == old(self)@.after_forward(input@)
            },
            out matches Err(error) ==> error == Error::ShapeMismatch,
            old(self)@.same_function(final(self)@),
    {
        match self {
            NetworkLayer::Dense(layer) => layer.forward(input),
            NetworkLayer::Activation(layer) => Ok(layer.forward(input)),
            NetworkLayer::Conv(network) => network.forward(input),
            NetworkLayer::Dropout(layer) => Ok(layer.forward(input)),
        }
    }

    /// Sends `output_gradient` back through the layer, which learns from it.
    pub fn backward(&mut self, epoch: usize, output_gradient: Matrix<S>) -> (out: Result<
        Matrix<S>,
        Error,
    >)
        requires
            old(self).wf(),
        ensures
            final(self).wf(),
            out is Ok <==> old(self)@.accepts_gradient(output_gradient@),
            out matches Ok(input_gradient) ==> {
                &&& input_gradient@ == old(self)@.input_gradient(output_gradient@)
                &&& final(self)@ == old(self)@.after_backward(epoch, output_gradient@)
            },
            out matches Err(error) ==> error == Error::ShapeMismatch || error
                == Error::UninitializedState,
    {
        match self {
            NetworkLayer::Dense(layer) => layer.backward(epoch, output_gradient),
            NetworkLayer::Activation(layer) => layer.backward(epoch, output_gradient),
            NetworkLayer::Conv(network) => network.backward(epoch, output_gradient),
            NetworkLayer::Dropout(layer) => Ok(layer.backward(epoch, output_gradient)),
        }
    }
}

impl<S: Scalar> NetworkLayer<S> {
    /// The learnable parameters of the layer, if it can learn.
    pub fn get_learnable_parameters(&self) -> (out: Option<Vec<Vec<S>>>)
        requires
            self.wf(),
        ensures
            out is Some <==> self@.parameters() is Some,
            out matches Some(parameters) ==> NetworkParams::entry_view(parameters)
                == self@.parameters()->0,
    {
        match self {
            NetworkLayer::Dense(layer) => Some(layer.get_learnable_parameters()),
            NetworkLayer::Activation(_) => None,
            NetworkLayer::Conv(network) => Some(network.get_learnable_parameters()),
            NetworkLayer::Dropout(_) => None,
        }
    }

    /// Whether the layer can learn and `parameters` fit it.
    pub fn accepts_parameters(&self, parameters: &Vec<Vec<S>>) -> (accepts: bool)
        requires
            self.wf(),
        ensures
            accepts == self@.accepts_parameters(NetworkParams::entry_view(*parameters)),
    {
        match self {
            NetworkLayer::Dense(layer) => layer.accepts_parameters(parameters),
            NetworkLayer::Activation(_) => false,
            NetworkLayer::Conv(network) => network.accepts_parameters(parameters),
            NetworkLayer::Dropout(_) => false,
        }
    }

    /// Replaces the learnable parameters of a layer that can learn.
    pub fn set_learnable_parameters(&mut self, parameters: &Vec<Vec<S>>) -> (out: Result<
        (),
        Error,
    >)
        requires
            old(self).wf(),
        ensures
            final(self).wf(),
            out is Ok <==> old(self)@.accepts_parameters(NetworkParams::entry_view(*parameters)),
            out is Ok ==> final(self)@ == old(self)@.with_parameters(
                NetworkParams::entry_view(*parameters),
            ),
            out matches Err(error) ==> error == Error::ParameterCountMismatch && final(self)@
                == old(self)@,
    {
        match self {
            NetworkLayer::Dense(layer) => layer.set_learnable_parameters(parameters),
            NetworkLayer::Activation(_) => Err(Error::ParameterCountMismatch),
            NetworkLayer::Conv(network) => network.set_learnable_parameters(parameters),
            NetworkLayer::Dropout(_) => Err(Error::ParameterCountMismatch),
        }
    }

    /// Enables or disables dropping, where the layer is one that drops.
    pub fn set_dropout(&mut self, enabled: bool)
        ensures
            final(self)@ == old(self)@.with_dropout(enabled),
            old(self).wf() ==> final(self).wf(),
    {
        match self {
            NetworkLayer::Dropout(layer) => {
                if enabled {
                    layer.enable();
                } else {
                    layer.disable();
                }
            },
            _ => {},
        }
    }

    /// Renews the seed, where the layer is one that drops.
    pub fn reseed(&mut self)
        ensures
            final(self)@ == old(self)@.reseeded(),
            old(self).wf() ==> final(self).wf(),
    {
        match self {
            NetworkLayer::Dropout(layer) => {
                layer.reseed();
            },
            _ => {},
        }
    }

    /// The layer as one that drops entries, if it is one.
    pub fn as_dropout_layer(&self) -> (out: Option<&DropoutLayer<S>>)
        ensures
            match out {
                Some(layer) => self@ == LayerView::Dropout(layer@),
                None => !(self@ is Dropout),
            },
    {
        match self {
            NetworkLayer::Dropout(layer) => Some(layer),
            _ => None,
        }
    }

    /// The layer as one that can learn, if it is one.
    pub fn as_learnable_layer(&self) -> (out: Option<Learnable<'_, S>>)
        ensures
            out is Some <==> self@.parameters() is Some,
            match out {
                Some(Learnable::Dense(layer)) => self@ == LayerView::Dense(layer@),
                Some(Learnable::Conv(network)) => self@ == LayerView::Conv(network@),
                None => true,
            },
    {
        match self {
            NetworkLayer::Dense(layer) => Some(Learnable::Dense(layer)),
            NetworkLayer::Conv(network) => Some(Learnable::Conv(network)),
            _ => None,
        }
    }

    /// Whether the layer can learn.
    pub fn is_learnable(&self) -> (learnable: bool)
        ensures
            learnable == self@.parameters() is Some,
    {
        match self {
            NetworkLayer::Dense(_) => true,
            NetworkLayer::Activation(_) => false,
            NetworkLayer::Conv(_) => true,
            NetworkLayer::Dropout(_) => false,
        }
    }
}

/// A network: layers that an input goes through first to last, and a gradient last to
/// first.
#[derive(Debug)]
pub struct Network<S: Scalar> {
    layers: Vec<NetworkLayer<S>>,
}

/// Mathematical model of a [`Network`]: its layers in order.
pub struct NetworkView<S: Scalar> {
    pub layers: Seq<LayerView<S>>,
}

impl<S: Scalar> NetworkView<S> {
    /// Every layer's invariant holds.
    pub open spec fn wf(self) -> bool {
        forall|i: int| 0 <= i < self.layers.len() ==> (#[trigger] self.layers[i]).wf()
    }

    /// What enters layer `i` when `input` enters the network; for `i` the number of layers,
    /// what leaves the network.
    pub open spec fn entering(self, input: MatrixView<S>, i: int) -> MatrixView<S>
        decreases i,
    {
        if i <= 0 {
            input
        } else {
            self.layers[i - 1].output(self.entering(input, i - 1))
        }
    }

    /// Whether `input` goes through: each layer takes what enters it.
    pub open spec fn accepts_input(self, input: MatrixView<S>) -> bool {
        forall|i: int|
            0 <= i < self.layers.len() ==> (#[trigger] self.layers[i]).accepts_input(
                self.entering(input, i),
            )
    }

    /// What the network makes of `input`.
    pub open spec fn output(self, input: MatrixView<S>) -> MatrixView<S> {
        self.entering(input, self.layers.len() as int)
    }

    /// The network after a forward pass of `input`.
    pub open spec fn after_forward(self, input: MatrixView<S>) -> Self {
        NetworkView {
            layers: Seq::new(
                self.layers.len(),
                |i: int| self.layers[i].after_forward(self.entering(input, i)),
            ),
        }
    }

    /// The gradient that leaves layer `i` towards the input when `gradient` enters the
    /// network at its end; for `i` the number of layers, `gradient` itself.
    pub open spec fn leaving(self, gradient: MatrixView<S>, i: int) -> MatrixView<S>
        decreases self.layers.len() - i,
    {
        if i >= self.layers.len() {
            gradient
        } else {
            self.layers[i].input_gradient(self.leaving(gradient, i + 1))
        }
    }

    /// Whether `gradient` goes back through: each layer takes what reaches it.
    pub open spec fn accepts_gradient(self, gradient: MatrixView<S>) -> bool {
        forall|i: int|
            0 <= i < self.layers.len() ==> (#[trigger] self.layers[i]).accepts_gradient(
                self.leaving(gradient, i + 1),
            )
    }

    /// The gradient with respect to the network's input.
    pub open spec fn input_gradient(self, gradient: MatrixView<S>) -> MatrixView<S> {
        self.leaving(gradient, 0)
    }

    /// The network after a backward pass of `gradient` in epoch `epoch`.
    pub open spec fn after_backward(self, epoch: usize, gradient: MatrixView<S>) -> Self {
        NetworkView {
            layers: Seq::new(
                self.layers.len(),
                |i: int| self.layers[i].after_backward(epoch, self.leaving(gradient, i + 1)),
            ),
        }
    }
}

impl<S: Scalar> NetworkView<S> {
    /// Whether the two networks compute the same function of their input: layer by layer,
    /// they are of one kind and hold the same parameters.
    #[verifier::opaque]
    pub open spec fn same_function(self, other: Self) -> bool {
        &&& self.layers.len() == other.layers.len()
        &&& forall|i: int|
            0 <= i < self.layers.len() ==> (#[trigger] self.layers[i]).same_function(
                other.layers[i],
            )
    }

    /// The network with dropping enabled or disabled in each layer that drops.
    pub open spec fn with_dropout(self, enabled: bool) -> Self {
        NetworkView {
            layers: self.layers.map_values(|layer: LayerView<S>| layer.with_dropout(enabled)),
        }
    }

    /// The network with the seed renewed in each layer that drops.
    pub open spec fn reseeded(self) -> Self {
        NetworkView { layers: self.layers.map_values(|layer: LayerView<S>| layer.reseeded()) }
    }

    /// The matrix of one column that holds a sample.
    pub open spec fn column(sample: Seq<S>) -> MatrixView<S> {
        MatrixView { nrow: sample.len(), columns: seq![sample] }
    }

    /// Whether the network takes `sample` as an input.
    pub open spec fn accepts_sample(self, sample: Seq<S>) -> bool {
        self.accepts_input(Self::column(sample))
    }

    /// What the network predicts for `sample`.
    pub open spec fn predict_spec(self, sample: Seq<S>) -> Seq<S> {
        self.output(Self::column(sample)).columns[0]
    }

    /// The learnable parameters of a list of layers: those of each layer that can learn, in
    /// layer order.
    pub open spec fn parameters_of(layers: Seq<LayerView<S>>) -> Seq<Seq<Seq<S>>>
        decreases layers.len(),
    {
        if layers.len() == 0 {
            Seq::empty()
        } else {
            match layers.last().parameters() {
                Some(parameters) => Self::parameters_of(layers.drop_last()).push(parameters),
                None => Self::parameters_of(layers.drop_last()),
            }
        }
    }

    /// The learnable parameters of the network.
    pub open spec fn parameters(self) -> Seq<Seq<Seq<S>>> {
        Self::parameters_of(self.layers)
    }

    /// Whether `parameters` fit a list of layers: there is one entry for each layer that can
    /// learn, and each entry fits its layer.
    pub open spec fn accepts_parameters_of(
        layers: Seq<LayerView<S>>,
        parameters: Seq<Seq<Seq<S>>>,
    ) -> bool
        decreases layers.len(),
    {
        if layers.len() == 0 {
            parameters.len() == 0
        } else if layers.last().parameters() is Some {
            &&& parameters.len() > 0
            &&& layers.last().accepts_parameters(parameters.last())
            &&& Self::accepts_parameters_of(layers.drop_last(), parameters.drop_last())
        } else {
            Self::accepts_parameters_of(layers.drop_last(), parameters)
        }
    }

    /// Whether `parameters` fit the network.
    pub open spec fn accepts_parameters(self, parameters: Seq<Seq<Seq<S>>>) -> bool {
        Self::accepts_parameters_of(self.layers, parameters)
    }

    /// A list of layers with `parameters` given to the layers that can learn, in order.
    pub open spec fn with_parameters_of(
        layers: Seq<LayerView<S>>,
        parameters: Seq<Seq<Seq<S>>>,
    ) -> Seq<LayerView<S>>
        decreases layers.len(),
    {
        if layers.len() == 0 {
            layers
        } else if layers.last().parameters() is Some {
            Self::with_parameters_of(layers.drop_last(), parameters.drop_last()).push(
                layers.last().with_parameters(parameters.last()),
            )
        } else {
            Self::with_parameters_of(layers.drop_last(), parameters).push(layers.last())
        }
    }

    /// The network with the given learnable parameters.
    pub open spec fn with_parameters(self, parameters: Seq<Seq<Seq<S>>>) -> Self {
        NetworkView { layers: Self::with_parameters_of(self.layers, parameters) }
    }

    /// Whether the two networks have one topology: layer by layer, they are of one kind,
    /// with as many inputs and outputs, or with the same function to apply.
    pub open spec fn same_topology(self, other: Self) -> bool {
        &&& self.layers.len() == other.layers.len()
        &&& forall|i: int|
            0 <= i < self.layers.len() ==> match (#[trigger] self.layers[i], other.layers[i]) {
                (LayerView::Dense(a), LayerView::Dense(b)) => a.inputs() == b.inputs()
                    && a.outputs() == b.outputs(),
                (LayerView::Activation(a), LayerView::Activation(b)) => a.activation
                    == b.activation,
                (LayerView::Conv(a), LayerView::Conv(b)) => a.same_topology(b),
                (LayerView::Dropout(a), LayerView::Dropout(b)) => a.same_function(b),
                _ => false,
            }
    }

    /// Giving parameters to a list of layers keeps their number.
    pub proof fn lemma_with_parameters_len(
        layers: Seq<LayerView<S>>,
        parameters: Seq<Seq<Seq<S>>>,
    )
        ensures
            Self::with_parameters_of(layers, parameters).len() == layers.len(),
        decreases layers.len(),
    {
        if layers.len() > 0 {
            if layers.last().parameters() is Some {
                Self::lemma_with_parameters_len(layers.drop_last(), parameters.drop_last());
            } else {
                Self::lemma_with_parameters_len(layers.drop_last(), parameters);
            }
        }
    }

    /// The parameters of a network fit every network of the same topology, and make it
    /// compute the same function.
    pub proof fn lemma_parameters_carry_function(self, other: Self)
        requires
            self.wf(),
            self.same_topology(other),
        ensures
            other.accepts_parameters(self.parameters()),
            other.with_parameters(self.parameters()).same_function(self),
        decreases self.layers.len(),
    {
        reveal(NetworkView::same_function);
        let loaded = other.with_parameters(self.parameters());
        Self::lemma_with_parameters_len(other.layers, self.parameters());
        if self.layers.len() > 0 {
            let head = NetworkView { layers: self.layers.drop_last() };
            let other_head = NetworkView { layers: other.layers.drop_last() };
            assert forall|i: int| 0 <= i < head.layers.len() implies match (
                #[trigger] head.layers[i],
                other_head.layers[i],
            ) {
                (LayerView::Dense(a), LayerView::Dense(b)) => a.inputs() == b.inputs()
                    && a.outputs() == b.outputs(),
                (LayerView::Activation(a), LayerView::Activation(b)) => a.activation
                    == b.activation,
                (LayerView::Conv(a), LayerView::Conv(b)) => a.same_topology(b),
                (LayerView::Dropout(a), LayerView::Dropout(b)) => a.same_function(b),
                _ => false,
            } by {
                assert(head.layers[i] == self.layers[i]);
                assert(other_head.layers[i] == other.layers[i]);
            }
            assert forall|i: int| 0 <= i < head.layers.len() implies (
            #[trigger] head.layers[i]).wf() by {
                assert(head.layers[i] == self.layers[i]);
            }
            head.lemma_parameters_carry_function(other_head);
            let last = self.layers.last();
            let other_last = other.layers.last();
            assert(last == self.layers[self.layers.len() - 1]);
            assert(other_last == other.layers[self.layers.len() - 1]);
            assert(last.wf());
            let loaded_head = other_head.with_parameters(head.parameters());
            Self::lemma_with_parameters_len(other_head.layers, head.parameters());
            match (last, other_last) {
                (LayerView::Dense(a), LayerView::Dense(b)) => {
                    let parameters = a.parameters();
                    assert(self.parameters() == head.parameters().push(parameters));
                    assert(self.parameters().drop_last() =~= head.parameters());
                    assert(parameters.drop_last() =~= a.weights.columns);
                    assert(a.biases.columns =~= seq![parameters.last()]);
                    assert(b.accepts_parameters(parameters)) by {
                        assert forall|k: int| 0 <= k < parameters.len() implies (
                        #[trigger] parameters[k]).len() == b.outputs() by {
                            if k < a.weights.columns.len() {
                                assert(parameters[k] == a.weights.columns[k]);
                            } else {
                                assert(parameters[k] == a.biases.columns[0]);
                            }
                        }
                    }
                    assert(loaded.layers == loaded_head.layers.push(
                        other_last.with_parameters(parameters),
                    ));
                },
                (LayerView::Activation(a), LayerView::Activation(b)) => {
                    assert(loaded.layers == loaded_head.layers.push(other_last));
                },
                (LayerView::Conv(a), LayerView::Conv(b)) => {
                    let parameters = a.parameters();
                    assert(self.parameters() == head.parameters().push(parameters));
                    assert(self.parameters().drop_last() =~= head.parameters());
                    a.lemma_parameters_carry_function(b);
                    assert(loaded.layers == loaded_head.layers.push(
                        other_last.with_parameters(parameters),
                    ));
                },
                _ => {},
            }
            assert forall|i: int| 0 <= i < loaded.layers.len() implies (
            #[trigger] loaded.layers[i]).same_function(self.layers[i]) by {
                if i < head.layers.len() {
                    assert(loaded.layers[i] == loaded_head.layers[i]);
                    assert(loaded_head.layers[i].same_function(head.layers[i]));
                    assert(head.layers[i] == self.layers[i]);
                }
            }
        }
    }

    /// Loading the parameters of a network into another network of the same topology makes
    /// the second predict, for every sample, what the first predicts.
    pub proof fn lemma_parameters_round_trip(self, other: Self, sample: Seq<S>)
        requires
            self.wf(),
            self.same_topology(other),
        ensures
            other.accepts_parameters(self.parameters()),
            other.with_parameters(self.parameters()).accepts_sample(sample)
                == self.accepts_sample(sample),
            other.with_parameters(self.parameters()).predict_spec(sample) == self.predict_spec(
                sample,
            ),
    {
        self.lemma_parameters_carry_function(other);
        other.with_parameters(self.parameters()).lemma_same_function(self, Self::column(sample));
    }

    /// The network after it has predicted for the first `k` of the samples, one after
    /// the other.
    pub open spec fn after_samples(self, samples: Seq<Seq<S>>, k: nat) -> Self
        decreases k,
    {
        if k == 0 {
            self
        } else {
            self.after_samples(samples, (k - 1) as nat).after_forward(
                Self::column(samples[k - 1]),
            )
        }
    }

    /// The loss of a prediction against what was expected for the sample, both taken as
    /// matrices of one row.
    pub open spec fn sample_loss(loss: Loss, expected: Seq<S>, prediction: Seq<S>) -> S {
        loss.loss_spec(
            MatrixView::from_columns(seq![expected]).transpose(),
            MatrixView::from_columns(seq![prediction]).transpose(),
        )
    }

    /// Whether the network can be evaluated on a sample: it takes the sample, and predicts
    /// as many numbers as are expected.
    pub open spec fn accepts_evaluation(self, sample: Seq<S>, expected: Seq<S>) -> bool {
        self.accepts_sample(sample) && self.predict_spec(sample).len() == expected.len()
    }

    /// The losses of the network's predictions, sample by sample.
    pub open spec fn sample_losses(
        self,
        loss: Loss,
        samples: Seq<Seq<S>>,
        expected: Seq<Seq<S>>,
    ) -> Seq<S> {
        Seq::new(
            samples.len(),
            |k: int| Self::sample_loss(loss, expected[k], self.predict_spec(samples[k])),
        )
    }

    /// Whether the network can take a training step on a batch: the inputs go through,
    /// the predictions have the shape of what is expected, and the gradient of the loss
    /// goes back.
    pub open spec fn accepts_batch(self, loss: Loss, x: MatrixView<S>, y: MatrixView<S>) -> bool {
        &&& self.accepts_input(x)
        &&& Loss::same_shape(y, self.output(x))
        &&& self.after_forward(x).accepts_gradient(loss.loss_prime_spec(y, self.output(x)))
    }

    /// The network after a training step on a batch in epoch `epoch`: a forward pass of the
    /// inputs, then a backward pass of the gradient of the loss.
    pub open spec fn after_batch(
        self,
        epoch: usize,
        loss: Loss,
        x: MatrixView<S>,
        y: MatrixView<S>,
    ) -> Self {
        self.after_forward(x).after_backward(epoch, loss.loss_prime_spec(y, self.output(x)))
    }

    /// Where the batch that starts at sample `start` ends: `batch_size` samples further, or
    /// at the last sample.
    pub open spec fn batch_end(start: nat, batch_size: nat, samples: nat) -> nat {
        if start + batch_size < samples {
            start + batch_size
        } else {
            samples
        }
    }

    /// Training on the samples from `start` on, in batches of `batch_size` samples: the
    /// network at the end, and `total` plus, for each batch, its loss times its number of
    /// samples. Before each batch the layers that drop renew their seed. Nothing where a
    /// batch cannot be trained on.
    pub open spec fn train_from(
        self,
        epoch: usize,
        loss: Loss,
        xs: Seq<Seq<S>>,
        ys: Seq<Seq<S>>,
        batch_size: nat,
        start: nat,
        total: S,
    ) -> Option<(Self, S)>
        decreases xs.len() - start,
    {
        if start >= xs.len() || batch_size == 0 {
            Some((self, total))
        } else {
            let end = Self::batch_end(start, batch_size, xs.len());
            let x = MatrixView::from_columns(xs.subrange(start as int, end as int));
            let y = MatrixView::from_columns(ys.subrange(start as int, end as int));
            let renewed = self.reseeded();
            if MatrixView::<S>::rectangular(xs.subrange(start as int, end as int))
                && MatrixView::<S>::rectangular(ys.subrange(start as int, end as int))
                && renewed.accepts_batch(loss, x, y) {
                renewed.after_batch(epoch, loss, x, y).train_from(
                    epoch,
                    loss,
                    xs,
                    ys,
                    batch_size,
                    end,
                    total.add_spec(
                        loss.loss_spec(y, renewed.output(x)).mul_spec(
                            S::from_count_spec((end - start) as usize),
                        ),
                    ),
                )
            } else {
                None
            }
        }
    }

    /// One epoch of training on samples `xs` with expected outputs `ys`, with dropping
    /// enabled in the layers that drop: the network at the end, and the mean loss, in which
    /// each batch counts by its number of samples.
    pub open spec fn train_spec(
        self,
        epoch: usize,
        loss: Loss,
        xs: Seq<Seq<S>>,
        ys: Seq<Seq<S>>,
        batch_size: nat,
    ) -> Option<(Self, S)> {
        if xs.len() != ys.len() {
            None
        } else {
            match self.with_dropout(true).train_from(
                epoch,
                loss,
                xs,
                ys,
                batch_size,
                0,
                S::zero_spec(),
            ) {
                Some((network, total)) => Some(
                    (network, total.div_spec(S::from_count_spec(xs.len() as usize))),
                ),
                None => None,
            }
        }
    }

    /// Networks that compute the same function agree on what enters each layer.
    pub proof fn lemma_same_entering(self, other: Self, input: MatrixView<S>, i: int)
        requires
            self.same_function(other),
            0 <= i <= self.layers.len(),
        ensures
            self.entering(input, i) == other.entering(input, i),
        decreases i,
    {
        reveal(NetworkView::same_function);
        if i > 0 {
            self.lemma_same_entering(other, input, i - 1);
            assert(self.layers[i - 1].same_function(other.layers[i - 1]));
            self.layers[i - 1].lemma_same_output(other.layers[i - 1], self.entering(input, i - 1));
        }
    }

    /// A network computes the same function as itself.
    pub proof fn lemma_same_function_reflexive(self)
        ensures
            self.same_function(self),
    {
        reveal(NetworkView::same_function);
        assert forall|i: int| 0 <= i < self.layers.len() implies (
        #[trigger] self.layers[i]).same_function(self.layers[i]) by {
            self.layers[i].lemma_same_function_reflexive();
        }
    }

    /// Networks that compute the same function take the same inputs and make the same
    /// of them.
    pub proof fn lemma_same_function(self, other: Self, input: MatrixView<S>)
        requires
            self.same_function(other),
        ensures
            self.accepts_input(input) == other.accepts_input(input),
            self.output(input) == other.output(input),
    {
        reveal(NetworkView::same_function);
        self.lemma_same_entering(other, input, self.layers.len() as int);
        assert forall|i: int| 0 <= i < self.layers.len() implies (
        #[trigger] self.layers[i]).accepts_input(self.entering(input, i))
            == other.layers[i].accepts_input(other.entering(input, i)) by {
            self.lemma_same_entering(other, input, i);
            assert(self.layers[i].same_function(other.layers[i]));
            self.layers[i].lemma_same_output(other.layers[i], self.entering(input, i));
        }
        if self.accepts_input(input) {
            assert forall|i: int| 0 <= i < other.layers.len() implies (
            #[trigger] other.layers[i]).accepts_input(other.entering(input, i)) by {
                assert(self.layers[i].accepts_input(self.entering(input, i)));
            }
        }
        if other.accepts_input(input) {
            assert forall|i: int| 0 <= i < self.layers.len() implies (
            #[trigger] self.layers[i]).accepts_input(self.entering(input, i)) by {
                assert(other.layers[i].accepts_input(other.entering(input, i)));
            }
        }
    }

    /// A pass through the network, forward or backward, leaves the kinds of the layers as
    /// they are, and a forward pass their parameters too.
    pub proof fn lemma_forward_keeps_function(self, input: MatrixView<S>)
        ensures
            self.same_function(self.after_forward(input)),
    {
        reveal(NetworkView::same_function);
        let after = self.after_forward(input);
        assert forall|i: int| 0 <= i < self.layers.len() implies (
        #[trigger] self.layers[i]).same_function(after.layers[i]) by {
            self.layers[i].lemma_forward_keeps_function(self.entering(input, i));
        }
    }

    /// Computing the same function is transitive.
    pub proof fn lemma_same_function_transitive(self, second: Self, third: Self)
        requires
            self.same_function(second),
            second.same_function(third),
        ensures
            self.same_function(third),
    {
        reveal(NetworkView::same_function);
        assert forall|i: int| 0 <= i < self.layers.len() implies (
        #[trigger] self.layers[i]).same_function(third.layers[i]) by {
            assert(self.layers[i].same_function(second.layers[i]));
            assert(second.layers[i].same_function(third.layers[i]));
            self.layers[i].lemma_same_function_transitive(second.layers[i], third.layers[i]);
        }
    }
}

impl<S: Scalar> View for Network<S> {
    type V = NetworkView<S>;

    closed spec fn view(&self) -> NetworkView<S> {
        NetworkView { layers: self.layers@.map_values(|layer: NetworkLayer<S>| layer@) }
    }
}

impl<S: Scalar> Network<S> {
    /// Every layer's invariant holds.
    pub open spec fn wf(&self) -> bool {
        self@.wf()
    }

    /// The network of the given layers.
    pub fn new(layers: Vec<NetworkLayer<S>>) -> (network: Self)
        ensures
            network@.layers == layers@.map_values(|layer: NetworkLayer<S>| layer@),
    {
        Network { layers }
    }

    /// Sends `input` through the layers, first to last.
    pub fn forward(&mut self, input: Matrix<S>) -> (out: Result<Matrix<S>, Error>)
        requires
            old(self).wf(),
        ensures
            final(self).wf(),
            final(self)@.layers.len() == old(self)@.layers.len(),
            out is Ok <==> old(self)@.accepts_input(input@),
            out matches Ok(output) ==> {
                &&& output@.wf()
                &&& output@ == old(self)@.output(input@)
                &&& output@.ncol() == input@.ncol()
                &&& final(self)@ == old(self)@.after_forward(input@)
            },
            out matches Err(error) ==> error == Error::ShapeMismatch,
            old(self)@.same_function(final(self)@),
    {
        let ghost before = self@;
        let shape = input.dim();
        let mut current = input;
        let mut i: usize = 0;
        while i < self.layers.len()
            invariant
                self.wf(),
                before == old(self)@,
                i <= self.layers@.len(),
                self.layers@.len() == before.layers.len(),
                current@.wf(),
                current@.ncol() == shape.1,
                shape.1 == input@.ncol(),
                current@ == before.entering(input@, i as int),
                forall|k: int|
                    0 <= k < i ==> (#[trigger] before.layers[k]).accepts_input(
                        before.entering(input@, k),
                    ),
                forall|k: int|
                    0 <= k < i ==> (#[trigger] self@.layers[k]) == before.layers[k].after_forward(
                        before.entering(input@, k),
                    ),
                forall|k: int| i <= k < self.layers@.len() ==> (#[trigger] self@.layers[k]) == before.layers[k],
            decreases self.layers@.len() - i,
        {
            let ghost entered = current@;
            let ghost layers_before = self.layers@;
            assert(self@.layers[i as int] == before.layers[i as int]);
            assert(self@.layers[i as int].wf());
            let result = self.layers[i].forward(current);
            proof {
                let views_before = layers_before.map_values(|layer: NetworkLayer<S>| layer@);
                assert forall|k: int| 0 <= k < self.layers@.len() && k != i implies (
                #[trigger] self@.layers[k]) == views_before[k] by {
                    assert(self.layers@[k] == layers_before[k]);
                }
            }
            match result {
                Ok(output) => {
                    current = output;
                },
                Err(error) => {
                    reveal(NetworkView::same_function);
                    assert forall|k: int| 0 <= k < before.layers.len() implies (
                    #[trigger] before.layers[k]).same_function(self@.layers[k]) by {
                        if k < i {
                            before.layers[k].lemma_forward_keeps_function(
                                before.entering(input@, k),
                            );
                        } else if k > i {
                            before.layers[k].lemma_same_function_reflexive();
                        }
                    }
                    return Err(error);
                },
            }
            i += 1;
        }
        assert(self@.layers =~= before.after_forward(input@).layers);
        proof {
            before.lemma_forward_keeps_function(input@);
        }
        Ok(current)
    }

    /// Sends `error_gradient` back through the layers, last to first. Each layer that can
    /// learn takes one step of its optimizers.
    pub fn backward(&mut self, epoch: usize, error_gradient: Matrix<S>) -> (out: Result<
        Matrix<S>,
        Error,
    >)
        requires
            old(self).wf(),
        ensures
            final(self).wf(),
            final(self)@.layers.len() == old(self)@.layers.len(),
            out is Ok <==> old(self)@.accepts_gradient(error_gradient@),
            out matches Ok(input_gradient) ==> {
                &&& input_gradient@ == old(self)@.input_gradient(error_gradient@)
                &&& final(self)@ == old(self)@.after_backward(epoch, error_gradient@)
            },
            out matches Err(error) ==> error == Error::ShapeMismatch || error
                == Error::UninitializedState,
    {
        let ghost before = self@;
        let mut current = error_gradient;
        let mut i: usize = self.layers.len();
        while i > 0
            invariant
                self.wf(),
                before == old(self)@,
                i <= self.layers@.len(),
                self.layers@.len() == before.layers.len(),
                current@ == before.leaving(error_gradient@, i as int),
                forall|k: int|
                    i <= k < before.layers.len() ==> (#[trigger] before.layers[k]).accepts_gradient(
                        before.leaving(error_gradient@, k + 1),
                    ),
                forall|k: int|
                    i <= k < before.layers.len() ==> (#[trigger] self@.layers[k])
                        == before.layers[k].after_backward(
                        epoch,
                        before.leaving(error_gradient@, k + 1),
                    ),
                forall|k: int| 0 <= k < i ==> (#[trigger] self@.layers[k]) == before.layers[k],
            decreases i,
        {
            i -= 1;
            let ghost layers_before = self.layers@;
            assert(self@.layers[i as int] == before.layers[i as int]);
            assert(self@.layers[i as int].wf());
            let result = self.layers[i].backward(epoch, current);
            proof {
                let views_before = layers_before.map_values(|layer: NetworkLayer<S>| layer@);
                assert forall|k: int| 0 <= k < self.layers@.len() && k != i implies (
                #[trigger] self@.layers[k]) == views_before[k] by {
                    assert(self.layers@[k] == layers_before[k]);
                }
            }
            match result {
                Ok(input_gradient) => {
                    current = input_gradient;
                },
                Err(error) => {
                    return Err(error);
                },
            }
        }
        assert(self@.layers =~= before.after_backward(epoch, error_gradient@).layers);
        Ok(current)
    }

    /// The learnable parameters of the network: those of each layer that can learn, in
    /// layer order.
    pub fn get_params(&self) -> (params: NetworkParams<S>)
        requires
            self.wf(),
        ensures
            params@ == self@.parameters(),
    {
        let mut params: Vec<Vec<Vec<S>>> = Vec::new();
        let ghost mut views: Seq<Seq<Seq<S>>> = Seq::empty();
        let mut i: usize = 0;
        while i < self.layers.len()
            invariant
                self.wf(),
                i <= self.layers@.len(),
                views == NetworkView::parameters_of(self@.layers.take(i as int)),
                params@.len() == views.len(),
                forall|k: int|
                    0 <= k < params@.len() ==> NetworkParams::entry_view(#[trigger] params@[k])
                        == views[k],
            decreases self.layers@.len() - i,
        {
            proof {
                assert(self@.layers.take(i + 1).drop_last() =~= self@.layers.take(i as int));
                assert(self@.layers.take(i + 1).last() == self@.layers[i as int]);
                assert(self@.layers[i as int].wf());
            }
            match self.layers[i].get_learnable_parameters() {
                Some(parameters) => {
                    proof {
                        views = views.push(NetworkParams::entry_view(parameters));
                    }
                    params.push(parameters);
                },
                None => {},
            }
            i += 1;
        }
        assert(self@.layers.take(i as int) =~= self@.layers);
        let params = NetworkParams(params);
        assert(params@ =~= views);
        params
    }

    /// Whether `params` fit the network: one entry for each layer that can learn, each of
    /// the shape of its layer's tensors.
    pub fn accepts_params(&self, params: &NetworkParams<S>) -> (accepts: bool)
        requires
            self.wf(),
        ensures
            accepts == self@.accepts_parameters(params@),
    {
        let mut i: usize = self.layers.len();
        let mut j: usize = params.0.len();
        assert(self@.layers.take(i as int) =~= self@.layers);
        assert(params@.take(j as int) =~= params@);
        while i > 0
            invariant
                self.wf(),
                i <= self.layers@.len(),
                j <= params.0@.len(),
                self@.accepts_parameters(params@) == NetworkView::accepts_parameters_of(
                    self@.layers.take(i as int),
                    params@.take(j as int),
                ),
            decreases i,
        {
            proof {
                assert(self@.layers.take(i as int).drop_last() =~= self@.layers.take(i - 1));
                assert(self@.layers.take(i as int).last() == self@.layers[i - 1]);
                assert(self@.layers[i - 1].wf());
            }
            i -= 1;
            if self.layers[i].is_learnable() {
                if j == 0 {
                    return false;
                }
                j -= 1;
                proof {
                    assert(params@.take(j + 1).drop_last() =~= params@.take(j as int));
                    assert(params@.take(j + 1).last() == NetworkParams::entry_view(
                        params.0@[j as int],
                    ));
                }
                if !self.layers[i].accepts_parameters(&params.0[j]) {
                    return false;
                }
            }
        }
        j == 0
    }

    /// Replaces the learnable parameters of the network by `params`, which must fit it.
    /// Where they do not, no layer is changed.
    pub fn load_params(&mut self, params: &NetworkParams<S>) -> (out: Result<(), Error>)
        requires
            old(self).wf(),
        ensures
            final(self).wf(),
            out is Ok <==> old(self)@.accepts_parameters(params@),
            out is Ok ==> final(self)@ == old(self)@.with_parameters(params@),
            out matches Err(error) ==> error == Error::ParameterCountMismatch && final(self)@
                == old(self)@,
    {
        if !self.accepts_params(params) {
            return Err(Error::ParameterCountMismatch);
        }
        let ghost before = self@;
        let mut i: usize = self.layers.len();
        let mut j: usize = params.0.len();
        assert(before.layers.take(i as int) =~= before.layers);
        assert(params@.take(j as int) =~= params@);
        assert(self@.layers.skip(i as int) =~= Seq::<LayerView<S>>::empty());
        while i > 0
            invariant
                self.wf(),
                before == old(self)@,
                i <= self.layers@.len(),
                self.layers@.len() == before.layers.len(),
                j <= params.0@.len(),
                NetworkView::accepts_parameters_of(
                    before.layers.take(i as int),
                    params@.take(j as int),
                ),
                forall|k: int| 0 <= k < i ==> (#[trigger] self@.layers[k]) == before.layers[k],
                before.with_parameters(params@).layers == NetworkView::with_parameters_of(
                    before.layers.take(i as int),
                    params@.take(j as int),
                ) + self@.layers.skip(i as int),
            decreases i,
        {
            let ghost prefix = before.layers.take(i as int);
            let ghost entries = params@.take(j as int);
            let ghost suffix = self@.layers.skip(i as int);
            let ghost layers_before = self.layers@;
            proof {
                assert(prefix.drop_last() =~= before.layers.take(i - 1));
                assert(prefix.last() == before.layers[i - 1]);
                assert(self@.layers[i - 1] == before.layers[i - 1]);
                assert(self@.layers[i - 1].wf());
            }
            i -= 1;
            if self.layers[i].is_learnable() {
                j -= 1;
                proof {
                    assert(entries.drop_last() =~= params@.take(j as int));
                    assert(entries.last() == NetworkParams::entry_view(params.0@[j as int]));
                }
                let result = self.layers[i].set_learnable_parameters(&params.0[j]);
                proof {
                    let views_before = layers_before.map_values(|layer: NetworkLayer<S>| layer@);
                    assert forall|k: int| 0 <= k < self.layers@.len() && k != i implies (
                    #[trigger] self@.layers[k]) == views_before[k] by {
                        assert(self.layers@[k] == layers_before[k]);
                    }
                }
                match result {
                    Ok(()) => {},
                    Err(error) => {
                        return Err(error);
                    },
                }
            }
            proof {
                let rest = NetworkView::with_parameters_of(
                    before.layers.take(i as int),
                    params@.take(j as int),
                );
                assert(self@.layers.skip(i as int) =~= seq![self@.layers[i as int]] + suffix);
                assert(rest.push(self@.layers[i as int]) + suffix =~= rest
                    + self@.layers.skip(i as int));
            }
        }
        assert(self@.layers.skip(0) =~= self@.layers);
        assert(before.with_parameters(params@).layers =~= self@.layers);
        Ok(())
    }

    /// Enables or disables dropping in each layer that drops.
    pub fn set_dropout(&mut self, enabled: bool)
        ensures
            final(self)@ == old(self)@.with_dropout(enabled),
            final(self)@.layers.len() == old(self)@.layers.len(),
            old(self).wf() ==> final(self).wf(),
    {
        let ghost before = self@;
        let mut i: usize = 0;
        while i < self.layers.len()
            invariant
                i <= self.layers@.len(),
                before == old(self)@,
                self@.layers.len() == before.layers.len(),
                before.wf() ==> self.wf(),
                forall|k: int|
                    0 <= k < i ==> (#[trigger] self@.layers[k]) == before.layers[k].with_dropout(
                        enabled,
                    ),
                forall|k: int|
                    i <= k < self@.layers.len() ==> (#[trigger] self@.layers[k])
                        == before.layers[k],
            decreases self.layers@.len() - i,
        {
            let ghost current = self@;
            self.layers[i].set_dropout(enabled);
            proof {
                assert forall|k: int| 0 <= k < self@.layers.len() && k != i implies (
                #[trigger] self@.layers[k]) == current.layers[k] by {}
                if before.wf() {
                    assert forall|k: int| 0 <= k < self@.layers.len() implies (
                    #[trigger] self@.layers[k]).wf() by {
                        if k != i {
                            assert(current.layers[k].wf());
                        } else {
                            assert(current.layers[k].wf());
                        }
                    }
                }
            }
            i += 1;
        }
        assert(self@.layers =~= before.with_dropout(enabled).layers);
    }

    /// Lets the layers that drop do so, as they do while the network is trained.
    pub fn enable_dropout(&mut self)
        ensures
            final(self)@ == old(self)@.with_dropout(true),
            final(self)@.layers.len() == old(self)@.layers.len(),
            old(self).wf() ==> final(self).wf(),
    {
        self.set_dropout(true);
    }

    /// Lets all entries pass the layers that drop, as they do for predictions.
    pub fn disable_dropout(&mut self)
        ensures
            final(self)@ == old(self)@.with_dropout(false),
            final(self)@.layers.len() == old(self)@.layers.len(),
            old(self).wf() ==> final(self).wf(),
    {
        self.set_dropout(false);
    }

    /// Renews the seed of each layer that drops.
    pub fn reseed_dropout(&mut self)
        ensures
            final(self)@ == old(self)@.reseeded(),
            final(self)@.layers.len() == old(self)@.layers.len(),
            old(self).wf() ==> final(self).wf(),
    {
        let ghost before = self@;
        let mut i: usize = 0;
        while i < self.layers.len()
            invariant
                i <= self.layers@.len(),
                before == old(self)@,
                self@.layers.len() == before.layers.len(),
                before.wf() ==> self.wf(),
                forall|k: int|
                    0 <= k < i ==> (#[trigger] self@.layers[k]) == before.layers[k].reseeded(),
                forall|k: int|
                    i <= k < self@.layers.len() ==> (#[trigger] self@.layers[k])
                        == before.layers[k],
            decreases self.layers@.len() - i,
        {
            let ghost current = self@;
            self.layers[i].reseed();
            proof {
                assert forall|k: int| 0 <= k < self@.layers.len() && k != i implies (
                #[trigger] self@.layers[k]) == current.layers[k] by {}
                if before.wf() {
                    assert forall|k: int| 0 <= k < self@.layers.len() implies (
                    #[trigger] self@.layers[k]).wf() by {
                        assert(current.layers[k].wf());
                    }
                }
            }
            i += 1;
        }
        assert(self@.layers =~= before.reseeded().layers);
    }

    /// What the network predicts for one sample: the sample goes through the layers as a
    /// matrix of one column. No layer drops anything from now on.
    pub fn predict(&mut self, input: &Vec<S>) -> (out: Result<Vec<S>, Error>)
        requires
            old(self).wf(),
        ensures
            final(self).wf(),
            out is Ok <==> old(self)@.with_dropout(false).accepts_sample(input@),
            out matches Ok(prediction) ==> prediction@ == old(self)@.with_dropout(
                false,
            ).predict_spec(input@),
            out is Ok ==> final(self)@ == old(self)@.with_dropout(false).after_forward(
                NetworkView::column(input@),
            ),
            old(self)@.with_dropout(false).same_function(final(self)@),
            out matches Err(error) ==> error == Error::ShapeMismatch,
    {
        self.disable_dropout();
        self.forward_sample(input)
    }

    /// What the network predicts for one sample, as its layers are.
    fn forward_sample(&mut self, input: &Vec<S>) -> (out: Result<Vec<S>, Error>)
        requires
            old(self).wf(),
        ensures
            final(self).wf(),
            out is Ok <==> old(self)@.accepts_sample(input@),
            out matches Ok(prediction) ==> prediction@ == old(self)@.predict_spec(input@),
            out is Ok ==> final(self)@ == old(self)@.after_forward(NetworkView::column(input@)),
            old(self)@.same_function(final(self)@),
            out matches Err(error) ==> error == Error::ShapeMismatch,
    {
        let sample = Matrix::from_column_vector(input);
        let ghost before = self@;
        let result = self.forward(sample);
        match result {
            Ok(output) => {
                match output.get_column(0) {
                    Some(prediction) => Ok(prediction),
                    None => Err(Error::ShapeMismatch),
                }
            },
            Err(error) => {
                Err(error)
            },
        }
    }

    /// What the network predicts for one sample, and the loss of the prediction against
    /// the expected `y`. No layer drops anything from now on.
    pub fn predict_evaluate(&mut self, input: Vec<S>, y: Vec<S>, loss: &Loss) -> (out: Result<
        (Vec<S>, S),
        Error,
    >)
        requires
            old(self).wf(),
        ensures
            final(self).wf(),
            old(self)@.with_dropout(false).same_function(final(self)@),
            out is Ok <==> old(self)@.with_dropout(false).accepts_evaluation(input@, y@),
            out matches Ok(evaluation) ==> {
                &&& evaluation.0@ == old(self)@.with_dropout(false).predict_spec(input@)
                &&& evaluation.1 == NetworkView::sample_loss(*loss, y@, evaluation.0@)
                &&& final(self)@ == old(self)@.with_dropout(false).after_forward(
                    NetworkView::column(input@),
                )
            },
            out matches Err(error) ==> error == Error::ShapeMismatch,
    {
        self.disable_dropout();
        self.evaluate_sample(input, y, loss)
    }

    /// What the network predicts for one sample, as its layers are, and the loss of the
    /// prediction against the expected `y`.
    fn evaluate_sample(&mut self, input: Vec<S>, y: Vec<S>, loss: &Loss) -> (out: Result<
        (Vec<S>, S),
        Error,
    >)
        requires
            old(self).wf(),
        ensures
            final(self).wf(),
            old(self)@.same_function(final(self)@),
            out is Ok <==> old(self)@.accepts_evaluation(input@, y@),
            out matches Ok(evaluation) ==> {
                &&& evaluation.0@ == old(self)@.predict_spec(input@)
                &&& evaluation.1 == NetworkView::sample_loss(*loss, y@, evaluation.0@)
                &&& final(self)@ == old(self)@.after_forward(NetworkView::column(input@))
            },
            out matches Err(error) ==> error == Error::ShapeMismatch,
    {
        let prediction = match self.forward_sample(&input) {
            Ok(prediction) => prediction,
            Err(error) => {
                return Err(error);
            },
        };
        let mut expected: Vec<Vec<S>> = Vec::new();
        expected.push(y);
        let mut predicted: Vec<Vec<S>> = Vec::new();
        predicted.push(crate::linalg::copied(&prediction));
        proof {
            assert(MatrixView::<S>::nested(expected@) =~= seq![y@]);
            assert(MatrixView::<S>::nested(predicted@) =~= seq![prediction@]);
        }
        match loss.loss_vec(&expected, &predicted) {
            Ok(value) => Ok((prediction, value)),
            Err(error) => Err(error),
        }
    }

    /// What the network predicts for each of the samples. No layer drops anything from now
    /// on.
    pub fn predict_many(&mut self, inputs: &Vec<Vec<S>>) -> (out: Result<Vec<Vec<S>>, Error>)
        requires
            old(self).wf(),
        ensures
            final(self).wf(),
            old(self)@.with_dropout(false).same_function(final(self)@),
            out is Ok <==> forall|k: int|
                0 <= k < inputs@.len() ==> old(self)@.with_dropout(false).accepts_sample((#[trigger] inputs@[k])@),
            out matches Ok(predictions) ==> {
                &&& predictions@.len() == inputs@.len()
                &&& forall|k: int|
                    0 <= k < inputs@.len() ==> (#[trigger] predictions@[k])@
                        == old(self)@.with_dropout(false).predict_spec(inputs@[k]@)
                &&& final(self)@ == old(self)@.with_dropout(false).after_samples(
                    MatrixView::<S>::nested(inputs@),
                    inputs@.len(),
                )
            },
            out matches Err(error) ==> error == Error::ShapeMismatch,
    {
        self.disable_dropout();
        let ghost before = self@;
        let mut predictions: Vec<Vec<S>> = Vec::new();
        let mut i: usize = 0;
        proof {
            before.lemma_same_function_reflexive();
        }
        while i < inputs.len()
            invariant
                self.wf(),
                before == old(self)@.with_dropout(false),
                before.same_function(self@),
                i <= inputs@.len(),
                predictions@.len() == i,
                self@ == before.after_samples(MatrixView::<S>::nested(inputs@), i as nat),
                forall|k: int| 0 <= k < i ==> before.accepts_sample((#[trigger] inputs@[k])@),
                forall|k: int|
                    0 <= k < i ==> (#[trigger] predictions@[k])@ == before.predict_spec(
                        inputs@[k]@,
                    ),
            decreases inputs@.len() - i,
        {
            let ghost current = self@;
            proof {
                before.lemma_same_function(current, NetworkView::column(inputs@[i as int]@));
            }
            let result = self.forward_sample(&inputs[i]);
            proof {
                before.lemma_same_function_transitive(current, self@);
            }
            match result {
                Ok(prediction) => {
                    predictions.push(prediction);
                },
                Err(error) => {
                    assert(!before.accepts_sample(inputs@[i as int]@));
                    return Err(error);
                },
            }
            i += 1;
        }
        Ok(predictions)
    }

    /// What the network predicts for each of the samples, with the mean and the standard
    /// deviation of the losses of the predictions against the expected `ys`. No layer drops
    /// anything from now on.
    pub fn predict_evaluate_many(
        &mut self,
        inputs: &Vec<Vec<S>>,
        ys: &Vec<Vec<S>>,
        loss: &Loss,
    ) -> (out: Result<(Vec<Vec<S>>, S, S), Error>)
        requires
            old(self).wf(),
        ensures
            final(self).wf(),
            old(self)@.with_dropout(false).same_function(final(self)@),
            out is Ok <==> {
                &&& inputs@.len() == ys@.len()
                &&& forall|k: int|
                    0 <= k < inputs@.len() ==> old(self)@.with_dropout(false).accepts_evaluation(
                        (#[trigger] inputs@[k])@,
                        ys@[k]@,
                    )
            },
            out matches Ok(evaluation) ==> {
                &&& evaluation.0@.len() == inputs@.len()
                &&& forall|k: int|
                    0 <= k < inputs@.len() ==> (#[trigger] evaluation.0@[k])@
                        == old(self)@.with_dropout(false).predict_spec(inputs@[k]@)
                &&& evaluation.1 == crate::scalar::mean_spec(
                    old(self)@.with_dropout(false).sample_losses(
                        *loss,
                        MatrixView::<S>::nested(inputs@),
                        MatrixView::<S>::nested(ys@),
                    ),
                )
                &&& evaluation.2 == crate::scalar::standard_deviation_spec(
                    old(self)@.with_dropout(false).sample_losses(
                        *loss,
                        MatrixView::<S>::nested(inputs@),
                        MatrixView::<S>::nested(ys@),
                    ),
                )
                &&& final(self)@ == old(self)@.with_dropout(false).after_samples(
                    MatrixView::<S>::nested(inputs@),
                    inputs@.len(),
                )
            },
            out matches Err(error) ==> error == Error::ShapeMismatch,
    {
        self.disable_dropout();
        let ghost before = self@;
        proof {
            before.lemma_same_function_reflexive();
        }
        if inputs.len() != ys.len() {
            return Err(Error::ShapeMismatch);
        }
        let ghost wanted = before.sample_losses(
            *loss,
            MatrixView::<S>::nested(inputs@),
            MatrixView::<S>::nested(ys@),
        );
        let mut predictions: Vec<Vec<S>> = Vec::new();
        let mut losses: Vec<S> = Vec::new();
        let mut i: usize = 0;
        while i < inputs.len()
            invariant
                self.wf(),
                before == old(self)@.with_dropout(false),
                before.same_function(self@),
                inputs@.len() == ys@.len(),
                wanted == before.sample_losses(
                    *loss,
                    MatrixView::<S>::nested(inputs@),
                    MatrixView::<S>::nested(ys@),
                ),
                i <= inputs@.len(),
                predictions@.len() == i,
                losses@.len() == i,
                self@ == before.after_samples(MatrixView::<S>::nested(inputs@), i as nat),
                forall|k: int|
                    0 <= k < i ==> before.accepts_evaluation((#[trigger] inputs@[k])@, ys@[k]@),
                forall|k: int|
                    0 <= k < i ==> (#[trigger] predictions@[k])@ == before.predict_spec(
                        inputs@[k]@,
                    ),
                forall|k: int| 0 <= k < i ==> losses@[k] == wanted[k],
            decreases inputs@.len() - i,
        {
            let ghost current = self@;
            proof {
                before.lemma_same_function(current, NetworkView::column(inputs@[i as int]@));
            }
            let input = crate::linalg::copied(&inputs[i]);
            let y = crate::linalg::copied(&ys[i]);
            let result = self.evaluate_sample(input, y, loss);
            proof {
                before.lemma_same_function_transitive(current, self@);
            }
            match result {
                Ok(evaluation) => {
                    predictions.push(evaluation.0);
                    losses.push(evaluation.1);
                },
                Err(error) => {
                    assert(!before.accepts_evaluation(inputs@[i as int]@, ys@[i as int]@));
                    return Err(error);
                },
            }
            i += 1;
        }
        assert(losses@ =~= wanted);
        let mean = crate::scalar::mean(&losses);
        let deviation = crate::scalar::standard_deviation(&losses);
        Ok((predictions, mean, deviation))
    }

    /// Trains the network for one epoch on the samples `x_train` with the expected outputs
    /// `y_train`, in batches of at most `batch_size` samples taken in order; the last batch
    /// holds what remains. Each batch is sent forward as one matrix, with a column for each
    /// sample; the gradient of its loss is sent back, and the layers learn from it. The
    /// layers that drop do so, each batch with a seed of its own. Returns the mean loss over
    /// the samples: each batch counts by its number of samples.
    pub fn train(
        &mut self,
        epoch: usize,
        x_train: &Vec<Vec<S>>,
        y_train: &Vec<Vec<S>>,
        loss: &Loss,
        batch_size: usize,
    ) -> (out: Result<S, Error>)
        requires
            old(self).wf(),
            batch_size > 0,
        ensures
            final(self).wf(),
            final(self)@.layers.len() == old(self)@.layers.len(),
            out is Ok <==> (old(self)@.train_spec(
                epoch,
                *loss,
                MatrixView::<S>::nested(x_train@),
                MatrixView::<S>::nested(y_train@),
                batch_size as nat,
            ) matches Some(trained) && trained.1.is_finite_spec()),
            out matches Ok(mean_loss) ==> old(self)@.train_spec(
                epoch,
                *loss,
                MatrixView::<S>::nested(x_train@),
                MatrixView::<S>::nested(y_train@),
                batch_size as nat,
            ) == Some((final(self)@, mean_loss)),
            out matches Err(error) ==> if old(self)@.train_spec(
                epoch,
                *loss,
                MatrixView::<S>::nested(x_train@),
                MatrixView::<S>::nested(y_train@),
                batch_size as nat,
            ) is Some {
                error == Error::NumericalDivergence
            } else {
                error == Error::ShapeMismatch || error == Error::UninitializedState
            },
    {
        let ghost xs = MatrixView::<S>::nested(x_train@);
        let ghost ys = MatrixView::<S>::nested(y_train@);
        let samples = x_train.len();
        if samples != y_train.len() {
            return Err(Error::ShapeMismatch);
        }
        self.enable_dropout();
        let ghost before = self@;
        let mut total = S::zero();
        let mut start: usize = 0;
        while start < samples
            invariant
                self.wf(),
                before == old(self)@.with_dropout(true),
                self@.layers.len() == old(self)@.layers.len(),
                xs == MatrixView::<S>::nested(x_train@),
                ys == MatrixView::<S>::nested(y_train@),
                samples == x_train@.len(),
                samples == y_train@.len(),
                batch_size > 0,
                start <= samples,
                before.train_from(epoch, *loss, xs, ys, batch_size as nat, 0, S::zero_spec())
                    == self@.train_from(epoch, *loss, xs, ys, batch_size as nat, start as nat, total),
            decreases samples - start,
        {
            let end = if batch_size < samples - start {
                start + batch_size
            } else {
                samples
            };
            assert(end == NetworkView::<S>::batch_end(start as nat, batch_size as nat, xs.len()));
            self.reseed_dropout();
            let ghost current = self@;
            let x = match Matrix::from_column_range(x_train, start, end) {
                Ok(x) => x,
                Err(error) => {
                    return Err(error);
                },
            };
            let y = match Matrix::from_column_range(y_train, start, end) {
                Ok(y) => y,
                Err(error) => {
                    return Err(error);
                },
            };
            let ghost x_view = x@;
            let forwarded = self.forward(x);
            let prediction = match forwarded {
                Ok(prediction) => prediction,
                Err(error) => {
                    return Err(error);
                },
            };
            let batch_loss = match loss.loss(&y, &prediction) {
                Ok(batch_loss) => batch_loss,
                Err(error) => {
                    return Err(error);
                },
            };
            let gradient = match loss.loss_prime(&y, &prediction) {
                Ok(gradient) => gradient,
                Err(error) => {
                    return Err(error);
                },
            };
            let returned = self.backward(epoch, gradient);
            match returned {
                Ok(_) => {},
                Err(error) => {
                    return Err(error);
                },
            }
            assert(self@ == current.after_batch(epoch, *loss, x_view, y@));
            total = total.add(batch_loss.mul(S::from_count(end - start)));
            start = end;
        }
        let mean_loss = total.div(S::from_count(samples));
        if mean_loss.is_finite() {
            Ok(mean_loss)
        } else {
            Err(Error::NumericalDivergence)
        }
    }
}

} // verus!
