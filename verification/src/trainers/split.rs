//! Training on one part of the samples, validating on the rest.
//!
//! The samples are first put in a random order, then cut in two: the first part is
//! trained on, the second validated on. The share of the first part is the trainer's
//! ratio.

use crate::benchmarking::{EpochEvaluation, ModelEvaluation};
use crate::error::Error;
use crate::linalg::MatrixView;
use crate::model::Model;
use crate::network::params::NetworkParams;
use crate::network::{Network, NetworkView};
use crate::scalar::Scalar;
use crate::trainers::epochs::{EpochPlan, RunOutcome};
use crate::trainers::sampling::{names_samples, pick};
use vstd::prelude::*;

verus! {

/// A trainer that trains on one part of the samples and validates on the rest.
#[derive(Debug)]
pub struct SplitTraining<S: Scalar> {
    /// The share of the samples that is trained on, between zero and one.
    pub ratio: S,
    /// The parameters of the network after the last run.
    pub model: Option<NetworkParams<S>>,
    /// Whether every epoch validates, and not only the last one.
    pub all_epochs_validation: bool,
    /// Whether every epoch scores its validation predictions, and not only the last one.
    pub all_epochs_r2: bool,
}

impl<S: Scalar> SplitTraining<S> {
    /// Which epochs validate and score.
    pub open spec fn plan_spec(&self) -> EpochPlan {
        EpochPlan {
            all_epochs_validation: self.all_epochs_validation,
            all_epochs_r2: self.all_epochs_r2,
        }
    }

    /// Whether the settings agree: scoring every epoch asks for validating every epoch.
    pub open spec fn consistent(&self) -> bool {
        self.plan_spec().consistent()
    }

    /// How many of `samples` samples are trained on: the whole part of the ratio times
    /// their number, and never more than there are.
    pub open spec fn split_point(ratio: S, samples: usize) -> nat {
        crate::trainers::sampling::split_point(ratio, samples)
    }

    /// What a run comes to when the samples are taken in the given order: the first part
    /// of them, up to the split point, is trained on for all the epochs of the model, the
    /// rest is validated on. Nothing where the two sides of the data differ in length,
    /// where the order names a sample that is not there, or where an epoch fails.
    pub open spec fn run_spec(
        &self,
        model: Model,
        network: NetworkView<S>,
        data_x: Seq<Seq<S>>,
        data_y: Seq<Seq<S>>,
        order: Seq<usize>,
    ) -> Option<RunOutcome<S>> {
        if data_x.len() != data_y.len() || exists|i: int|
            0 <= i < order.len() && (#[trigger] order[i]) >= data_x.len() {
            None
        } else {
            let split = Self::split_point(self.ratio, order.len() as usize) as int;
            let x = crate::trainers::sampling::picked(data_x, order);
            let y = crate::trainers::sampling::picked(data_y, order);
            self.plan_spec().epochs_spec(
                model,
                network,
                x.take(split),
                y.take(split),
                x.skip(split),
                y.skip(split),
                model.epochs as nat,
            )
        }
    }

    /// A trainer that trains on the share `ratio` of the samples, and validates and scores
    /// in the last epoch only.
    pub fn new(ratio: S) -> (out: Self)
        ensures
            out.ratio == ratio,
            out.model is None,
            !out.all_epochs_validation,
            !out.all_epochs_r2,
    {
        SplitTraining { ratio, all_epochs_validation: false, all_epochs_r2: false, model: None }
    }

    /// Hands out the parameters of the network after the last run, and keeps none.
    pub fn take_model(&mut self) -> (params: NetworkParams<S>)
        requires
            old(self).model is Some,
        ensures
            Some(params) == old(self).model,
            final(self).model is None,
            final(self).ratio == old(self).ratio,
            final(self).all_epochs_validation == old(self).all_epochs_validation,
            final(self).all_epochs_r2 == old(self).all_epochs_r2,
    {
        self.model.take().unwrap()
    }

    /// Which epochs validate and score.
    pub fn plan(&self) -> (plan: EpochPlan)
        ensures
            plan == self.plan_spec(),
    {
        EpochPlan {
            all_epochs_validation: self.all_epochs_validation,
            all_epochs_r2: self.all_epochs_r2,
        }
    }

    /// How many of `samples` samples are trained on.
    pub fn split_at(&self, samples: usize) -> (split: usize)
        ensures
            split == Self::split_point(self.ratio, samples),
            split <= samples,
    {
        crate::trainers::sampling::split_at(self.ratio, samples)
    }

    /// Asks for the coefficient of determination in every epoch. It takes time, and needs
    /// validation in every epoch.
    pub fn all_epochs_r2(&mut self)
        ensures
            *final(self) == (SplitTraining { all_epochs_r2: true, ..*old(self) }),
    {
        self.all_epochs_r2 = true;
    }

    /// Asks for validation in every epoch. It takes time.
    pub fn all_epochs_validation(&mut self)
        ensures
            *final(self) == (SplitTraining { all_epochs_validation: true, ..*old(self) }),
    {
        self.all_epochs_validation = true;
    }

    /// Trains and validates `network` on the samples `data_x` with the expected outputs
    /// `data_y`, taken in the given order: the first part of them, up to the split point,
    /// is trained on for all the epochs of the model, the rest is validated on. The record
    /// of each epoch is reported to `reporter`, if there is one, when the epoch ends.
    /// Returns the predictions of the last epoch for the validation samples, and the
    /// records of the epochs as the single fold of the evaluation. The parameters of the
    /// trained network are kept in the trainer.
    pub fn run_in_order<R: Fn(usize, EpochEvaluation<S>)>(
        &mut self,
        model: &Model,
        network: &mut Network<S>,
        data_x: &Vec<Vec<S>>,
        data_y: &Vec<Vec<S>>,
        order: &Vec<usize>,
        reporter: &Option<R>,
    ) -> (out: Result<(Vec<Vec<S>>, ModelEvaluation<S>), Error>)
        requires
            old(network).wf(),
            old(self).consistent(),
            reporter matches Some(report) ==> forall|epoch: usize, evaluation: EpochEvaluation<S>|
                call_requires(report, (epoch, evaluation)),
        ensures
            final(network).wf(),
            final(self).ratio == old(self).ratio,
            final(self).all_epochs_validation == old(self).all_epochs_validation,
            final(self).all_epochs_r2 == old(self).all_epochs_r2,
            out is Ok <==> old(self).run_spec(
                *model,
                old(network)@,
                MatrixView::<S>::nested(data_x@),
                MatrixView::<S>::nested(data_y@),
                order@,
            ) is Some,
            out matches Ok(outcome) ==> {
                &&& outcome.1@.len() == 1
                &&& old(self).run_spec(
                    *model,
                    old(network)@,
                    MatrixView::<S>::nested(data_x@),
                    MatrixView::<S>::nested(data_y@),
                    order@,
                ) == Some(
                    RunOutcome {
                        network: final(network)@,
                        evaluations: outcome.1@[0],
                        predictions: MatrixView::<S>::nested(outcome.0@),
                    },
                )
                &&& final(self).model matches Some(params) && params@
                    == final(network)@.parameters()
            },
            out matches Err(error) ==> {
                &&& final(self).model == old(self).model
                &&& (error == Error::ShapeMismatch || error == Error::UninitializedState || error
                    == Error::NumericalDivergence)
            },
    {
        let ghost xs = MatrixView::<S>::nested(data_x@);
        let ghost ys = MatrixView::<S>::nested(data_y@);
        let ghost start = network@;
        if data_x.len() != data_y.len() {
            return Err(Error::ShapeMismatch);
        }
        if !names_samples(order, data_x.len()) {
            return Err(Error::ShapeMismatch);
        }
        let samples = order.len();
        let split = self.split_at(samples);
        let train_x = pick(data_x, order, 0, split);
        let train_y = pick(data_y, order, 0, split);
        let validation_x = pick(data_x, order, split, samples);
        let validation_y = pick(data_y, order, split, samples);
        let ghost tx = crate::trainers::sampling::picked(xs, order@).take(split as int);
        let ghost ty = crate::trainers::sampling::picked(ys, order@).take(split as int);
        let ghost vx = crate::trainers::sampling::picked(xs, order@).skip(split as int);
        let ghost vy = crate::trainers::sampling::picked(ys, order@).skip(split as int);
        proof {
            assert(MatrixView::<S>::nested(train_x@) =~= tx);
            assert(MatrixView::<S>::nested(train_y@) =~= ty);
            assert(MatrixView::<S>::nested(validation_x@) =~= vx);
            assert(MatrixView::<S>::nested(validation_y@) =~= vy);
        }
        let (final_predictions, evaluation) = match self.plan().run_epochs(
            model,
            network,
            &train_x,
            &train_y,
            &validation_x,
            &validation_y,
            reporter,
        ) {
            Ok(outcome) => outcome,
            Err(error) => {
                return Err(error);
            },
        };
        let mut model_evaluation = ModelEvaluation::new_empty();
        model_evaluation.add_fold(evaluation);
        self.model = Some(network.get_params());
        Ok((final_predictions, model_evaluation))
    }

    /// Trains and validates `network` on the samples `data_x` with the expected outputs
    /// `data_y`, taken in a random order: see [`SplitTraining::run_in_order`]. Whatever the
    /// order that chance gives, it names each sample once.
    pub fn run<R: Fn(usize, EpochEvaluation<S>)>(
        &mut self,
        model: &Model,
        network: &mut Network<S>,
        data_x: &Vec<Vec<S>>,
        data_y: &Vec<Vec<S>>,
        reporter: &Option<R>,
    ) -> (out: Result<(Vec<Vec<S>>, ModelEvaluation<S>), Error>)
        requires
            old(network).wf(),
            old(self).consistent(),
            reporter matches Some(report) ==> forall|epoch: usize, evaluation: EpochEvaluation<S>|
                call_requires(report, (epoch, evaluation)),
        ensures
            final(network).wf(),
            final(self).ratio == old(self).ratio,
            final(self).all_epochs_validation == old(self).all_epochs_validation,
            final(self).all_epochs_r2 == old(self).all_epochs_r2,
            exists|order: Seq<usize>|
                {
                    &&& crate::random::is_order_of(order, data_x@.len())
                    &&& (out is Ok <==> (#[trigger] old(self).run_spec(
                        *model,
                        old(network)@,
                        MatrixView::<S>::nested(data_x@),
                        MatrixView::<S>::nested(data_y@),
                        order,
                    )) is Some)
                    &&& (out matches Ok(outcome) ==> outcome.1@.len() == 1 && old(self).run_spec(
                        *model,
                        old(network)@,
                        MatrixView::<S>::nested(data_x@),
                        MatrixView::<S>::nested(data_y@),
                        order,
                    ) == Some(
                        RunOutcome {
                            network: final(network)@,
                            evaluations: outcome.1@[0],
                            predictions: MatrixView::<S>::nested(outcome.0@),
                        },
                    ))
                },
            out is Ok ==> (final(self).model matches Some(params) && params@
                == final(network)@.parameters()),
            out matches Err(error) ==> {
                &&& final(self).model == old(self).model
                &&& (error == Error::ShapeMismatch || error == Error::UninitializedState || error
                    == Error::NumericalDivergence)
            },
    {
        let order = crate::random::random_order(data_x.len());
        self.run_in_order(model, network, data_x, data_y, &order, reporter)
    }
}

} // verus!
