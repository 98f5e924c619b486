//! Records of how training went.

use crate::scalar::Scalar;
use vstd::prelude::*;

verus! {

/// How one epoch went.
#[derive(Debug, Copy)]
pub struct EpochEvaluation<S: Scalar> {
    /// The mean loss over the training samples.
    pub train_loss: S,
    /// The mean loss over the validation samples.
    pub test_loss_avg: S,
    /// The standard deviation of the loss over the validation samples.
    pub test_loss_std: S,
    /// The coefficient of determination of the validation predictions.
    pub r2: S,
}

impl<S: Scalar> Clone for EpochEvaluation<S> {
    fn clone(&self) -> (out: Self)
        ensures
            out == *self,
    {
        *self
    }
}

impl<S: Scalar> EpochEvaluation<S> {
    /// The record of an epoch.
    pub fn new(train_loss: S, test_loss_avg: S, test_loss_std: S, r2: S) -> (out: Self)
        ensures
            out == (EpochEvaluation { train_loss, test_loss_avg, test_loss_std, r2 }),
    {
        EpochEvaluation { train_loss, test_loss_avg, test_loss_std, r2 }
    }
}

/// How the epochs of one training run went, in order. Records are only ever added.
#[derive(Debug)]
pub struct TrainingEvaluation<S: Scalar> {
    epochs: Vec<EpochEvaluation<S>>,
}

impl<S: Scalar> View for TrainingEvaluation<S> {
    type V = Seq<EpochEvaluation<S>>;

    closed spec fn view(&self) -> Seq<EpochEvaluation<S>> {
        self.epochs@
    }
}

impl<S: Scalar> TrainingEvaluation<S> {
    /// The record of a run of no epochs.
    pub fn new_empty() -> (out: Self)
        ensures
            out@ == Seq::<EpochEvaluation<S>>::empty(),
    {
        TrainingEvaluation { epochs: Vec::new() }
    }

    /// Adds the record of the next epoch.
    pub fn add_epoch(&mut self, epoch: EpochEvaluation<S>)
        ensures
            final(self)@ == old(self)@.push(epoch),
    {
        self.epochs.push(epoch);
    }

    /// The number of epochs on record.
    pub fn len(&self) -> (len: usize)
        ensures
            len == self@.len(),
    {
        self.epochs.len()
    }

    /// The record of epoch `index`, if there is one.
    pub fn get_epoch(&self, index: usize) -> (out: Option<EpochEvaluation<S>>)
        ensures
            out == if index < self@.len() {
                Some(self@[index as int])
            } else {
                None
            },
    {
        if index < self.epochs.len() {
            Some(self.epochs[index])
        } else {
            None
        }
    }

    /// The record of the last epoch, if there is one.
    pub fn get_final_epoch(&self) -> (out: Option<EpochEvaluation<S>>)
        ensures
            out == if self@.len() > 0 {
                Some(self@.last())
            } else {
                None
            },
    {
        if self.epochs.len() > 0 {
            Some(self.epochs[self.epochs.len() - 1])
        } else {
            None
        }
    }
}

/// How the training runs of a model went, one for each fold. Records are only ever added.
#[derive(Debug)]
pub struct ModelEvaluation<S: Scalar> {
    folds: Vec<TrainingEvaluation<S>>,
}

impl<S: Scalar> View for ModelEvaluation<S> {
    type V = Seq<Seq<EpochEvaluation<S>>>;

    closed spec fn view(&self) -> Seq<Seq<EpochEvaluation<S>>> {
        self.folds@.map_values(|fold: TrainingEvaluation<S>| fold@)
    }
}

impl<S: Scalar> ModelEvaluation<S> {
    /// The record of a model that has not been trained.
    pub fn new_empty() -> (out: Self)
        ensures
            out@ == Seq::<Seq<EpochEvaluation<S>>>::empty(),
    {
        let out = ModelEvaluation { folds: Vec::new() };
        assert(out@ =~= Seq::<Seq<EpochEvaluation<S>>>::empty());
        out
    }

    /// Adds the record of the next fold.
    pub fn add_fold(&mut self, fold: TrainingEvaluation<S>)
        ensures
            final(self)@ == old(self)@.push(fold@),
    {
        self.folds.push(fold);
        assert(self@ =~= old(self)@.push(fold@));
    }

    /// The number of folds on record.
    pub fn len(&self) -> (len: usize)
        ensures
            len == self@.len(),
    {
        self.folds.len()
    }

    /// Whether the fold with the records `candidate` did better than the one with the
    /// records `other`: both have a last epoch, and the mean validation loss of the
    /// candidate's is strictly below that of the other's.
    pub open spec fn better(
        candidate: Seq<EpochEvaluation<S>>,
        other: Seq<EpochEvaluation<S>>,
    ) -> bool {
        candidate.len() > 0 && other.len() > 0 && candidate.last().test_loss_avg.lt_spec(
            other.last().test_loss_avg,
        )
    }

    /// The fold that did best: going through the folds in order, a fold takes the lead
    /// when it did better than the fold that leads. The first fold where there is none.
    pub open spec fn best_fold_spec(folds: Seq<Seq<EpochEvaluation<S>>>) -> int
        decreases folds.len(),
    {
        if folds.len() <= 1 {
            0
        } else {
            let lead = Self::best_fold_spec(folds.drop_last());
            if Self::better(folds.last(), folds[lead]) {
                folds.len() - 1
            } else {
                lead
            }
        }
    }

    /// The fold that did best is one of the folds.
    pub proof fn lemma_best_fold_within(folds: Seq<Seq<EpochEvaluation<S>>>)
        requires
            folds.len() > 0,
        ensures
            0 <= Self::best_fold_spec(folds) < folds.len(),
        decreases folds.len(),
    {
        if folds.len() > 1 {
            Self::lemma_best_fold_within(folds.drop_last());
        }
    }

    /// The fold that did best; see [`ModelEvaluation::best_fold_spec`].
    pub fn best_fold(&self) -> (best: usize)
        ensures
            best == Self::best_fold_spec(self@),
            self@.len() > 0 ==> best < self@.len(),
    {
        if self.folds.len() == 0 {
            return 0;
        }
        let mut best: usize = 0;
        let mut f: usize = 1;
        while f < self.folds.len()
            invariant
                1 <= f <= self.folds@.len(),
                best < f,
                best == Self::best_fold_spec(self@.take(f as int)),
            decreases self.folds@.len() - f,
        {
            proof {
                assert(self@.take(f + 1).drop_last() =~= self@.take(f as int));
                assert(self@.take(f + 1).last() == self@[f as int]);
                assert(self@.take(f + 1)[best as int] == self@[best as int]);
            }
            let better = match (self.get_final_epoch_of(f), self.get_final_epoch_of(best)) {
                (Some(candidate), Some(lead)) => candidate.test_loss_avg.lt(lead.test_loss_avg),
                _ => false,
            };
            if better {
                best = f;
            }
            f += 1;
        }
        assert(self@.take(f as int) =~= self@);
        best
    }

    /// The record of the last epoch of fold `index`, if there is one.
    pub fn get_final_epoch_of(&self, index: usize) -> (out: Option<EpochEvaluation<S>>)
        ensures
            out == if index < self@.len() && self@[index as int].len() > 0 {
                Some(self@[index as int].last())
            } else {
                None
            },
    {
        if index < self.folds.len() {
            self.folds[index].get_final_epoch()
        } else {
            None
        }
    }
}

} // verus!
