//! How an epoch of training weighs its batches.

use crate::linalg::MatrixView;
use crate::loss::Loss;
use crate::network::NetworkView;
use crate::scalar::Scalar;
use vstd::prelude::*;

verus! {

impl<S: Scalar> NetworkView<S> {
    /// The samples from `start` up to `end` as one batch: a matrix with a column for each
    /// sample.
    pub open spec fn batch(samples: Seq<Seq<S>>, start: int, end: int) -> MatrixView<S> {
        MatrixView::from_columns(samples.subrange(start, end))
    }

    /// Whether the samples from `start` up to `end` make a batch that the network can be
    /// trained on.
    pub open spec fn trains_on(
        self,
        loss: Loss,
        xs: Seq<Seq<S>>,
        ys: Seq<Seq<S>>,
        start: int,
        end: int,
    ) -> bool {
        &&& MatrixView::<S>::rectangular(xs.subrange(start, end))
        &&& MatrixView::<S>::rectangular(ys.subrange(start, end))
        &&& self.accepts_batch(loss, Self::batch(xs, start, end), Self::batch(ys, start, end))
    }

    /// Seven samples in batches of three are trained on as batches of three, three and one
    /// sample, each after the layers that drop have renewed their seed; and the mean loss
    /// of the epoch is the sum of the losses of the batches, each times the number of its
    /// samples, over the number of all samples.
    pub proof fn lemma_seven_samples_in_threes(
        self,
        epoch: usize,
        loss: Loss,
        xs: Seq<Seq<S>>,
        ys: Seq<Seq<S>>,
    )
        requires
            xs.len() == 7,
            ys.len() == 7,
        ensures
            ({
                let first = self.with_dropout(true).reseeded();
                let second = first.after_batch(
                    epoch,
                    loss,
                    Self::batch(xs, 0, 3),
                    Self::batch(ys, 0, 3),
                ).reseeded();
                let third = second.after_batch(
                    epoch,
                    loss,
                    Self::batch(xs, 3, 6),
                    Self::batch(ys, 3, 6),
                ).reseeded();
                let last = third.after_batch(
                    epoch,
                    loss,
                    Self::batch(xs, 6, 7),
                    Self::batch(ys, 6, 7),
                );
                let first_loss = loss.loss_spec(
                    Self::batch(ys, 0, 3),
                    first.output(Self::batch(xs, 0, 3)),
                );
                let second_loss = loss.loss_spec(
                    Self::batch(ys, 3, 6),
                    second.output(Self::batch(xs, 3, 6)),
                );
                let third_loss = loss.loss_spec(
                    Self::batch(ys, 6, 7),
                    third.output(Self::batch(xs, 6, 7)),
                );
                let total = S::zero_spec().add_spec(
                    first_loss.mul_spec(S::from_count_spec(3)),
                ).add_spec(second_loss.mul_spec(S::from_count_spec(3))).add_spec(
                    third_loss.mul_spec(S::from_count_spec(1)),
                );
                self.train_spec(epoch, loss, xs, ys, 3) == if first.trains_on(loss, xs, ys, 0, 3)
                    && second.trains_on(loss, xs, ys, 3, 6) && third.trains_on(
                    loss,
                    xs,
                    ys,
                    6,
                    7,
                ) {
                    Some((last, total.div_spec(S::from_count_spec(7))))
                } else {
                    None
                }
            }),
    {
        reveal_with_fuel(NetworkView::train_from, 5);
        assert(Self::batch_end(0, 3, 7) == 3);
        assert(Self::batch_end(3, 3, 7) == 6);
        assert(Self::batch_end(6, 3, 7) == 7);
    }
}

} // verus!
