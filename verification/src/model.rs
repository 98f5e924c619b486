//! What a training run is told about the model it trains.

use crate::error::Error;
use crate::linalg::MatrixView;
use crate::loss::Losses;
use crate::network::{Network, NetworkView};
use crate::scalar::Scalar;
use vstd::prelude::*;

verus! {

/// The settings of a training run.
#[derive(Debug, Clone, Copy)]
pub struct Model {
    /// The number of passes over the training samples.
    pub epochs: usize,
    /// The number of samples in a batch; all the samples in one batch where none is given.
    pub batch_size: Option<usize>,
    /// The loss to descend.
    pub loss: Losses,
}

impl Model {
    /// The batch size used on `samples` samples: the one given, or the number of samples;
    /// never less than one.
    pub open spec fn batch_for(self, samples: nat) -> nat {
        let wanted = match self.batch_size {
            Some(batch_size) => batch_size as nat,
            None => samples,
        };
        if wanted == 0 {
            1
        } else {
            wanted
        }
    }

    /// What an epoch of training makes of a network: the network at the end, and the mean
    /// loss over the samples.
    pub open spec fn train_epoch_spec<S: Scalar>(
        self,
        epoch: usize,
        network: NetworkView<S>,
        x: Seq<Seq<S>>,
        y: Seq<Seq<S>>,
    ) -> Option<(NetworkView<S>, S)> {
        network.train_spec(epoch, self.loss.to_loss_spec(), x, y, self.batch_for(x.len()))
    }

    /// Trains `network` for one epoch on the samples `x` with the expected outputs `y`, and
    /// returns the mean loss over the samples.
    pub fn train_epoch<S: Scalar>(
        &self,
        epoch: usize,
        network: &mut Network<S>,
        x: &Vec<Vec<S>>,
        y: &Vec<Vec<S>>,
    ) -> (out: Result<S, Error>)
        requires
            old(network).wf(),
        ensures
            final(network).wf(),
            final(network)@.layers.len() == old(network)@.layers.len(),
            out is Ok <==> (self.train_epoch_spec(
                epoch,
                old(network)@,
                MatrixView::<S>::nested(x@),
                MatrixView::<S>::nested(y@),
            ) matches Some(trained) && trained.1.is_finite_spec()),
            out matches Ok(mean_loss) ==> self.train_epoch_spec(
                epoch,
                old(network)@,
                MatrixView::<S>::nested(x@),
                MatrixView::<S>::nested(y@),
            ) == Some((final(network)@, mean_loss)),
            out matches Err(error) ==> if self.train_epoch_spec(
                epoch,
                old(network)@,
                MatrixView::<S>::nested(x@),
                MatrixView::<S>::nested(y@),
            ) is Some {
                error == Error::NumericalDivergence
            } else {
                error == Error::ShapeMismatch || error == Error::UninitializedState
            },
    {
        let wanted = match self.batch_size {
            Some(batch_size) => batch_size,
            None => x.len(),
        };
        let batch_size = if wanted == 0 {
            1
        } else {
            wanted
        };
        network.train(epoch, x, y, &self.loss.to_loss(), batch_size)
    }
}

} // verus!
