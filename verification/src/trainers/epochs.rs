//! The epochs of a training run: training, validating, keeping records.

use crate::benchmarking::{EpochEvaluation, TrainingEvaluation};
use crate::error::Error;
use crate::linalg::MatrixView;
use crate::model::Model;
use crate::network::{Network, NetworkView};
use crate::scalar::Scalar;
use vstd::prelude::*;

verus! {

/// What one epoch of a run comes to.
pub struct EpochOutcome<S: Scalar> {
    /// The network after the epoch.
    pub network: NetworkView<S>,
    /// The record of the epoch.
    pub evaluation: EpochEvaluation<S>,
    /// The predictions for the validation samples, where the epoch made any.
    pub predictions: Seq<Seq<S>>,
}

/// What the epochs of a run come to.
pub struct RunOutcome<S: Scalar> {
    /// The network after the last epoch.
    pub network: NetworkView<S>,
    /// The records of the epochs, in order.
    pub evaluations: Seq<EpochEvaluation<S>>,
    /// The predictions that the last epoch made for the validation samples.
    pub predictions: Seq<Seq<S>>,
}

/// Which epochs of a run validate the network, and which of them score it.
#[derive(Debug, Clone, Copy, PartialEq, Eq, Structural)]
pub struct EpochPlan {
    /// Whether every epoch validates, and not only the last one.
    pub all_epochs_validation: bool,
    /// Whether every epoch scores its validation predictions, and not only the last one.
    pub all_epochs_r2: bool,
}

impl EpochPlan {
    /// The number that stands in a record for what an epoch did not compute: minus one.
    pub open spec fn absent<S: Scalar>() -> S {
        S::zero_spec().sub_spec(S::one_spec())
    }

    /// Whether epoch `epoch` of `epochs` validates.
    pub open spec fn validates(&self, epoch: usize, epochs: usize) -> bool {
        epoch + 1 == epochs || self.all_epochs_validation
    }

    /// Whether epoch `epoch` of `epochs` scores its validation predictions.
    pub open spec fn scores(&self, epoch: usize, epochs: usize) -> bool {
        epoch + 1 == epochs || self.all_epochs_r2
    }

    /// Whether the settings agree: scoring every epoch asks for validating every epoch.
    pub open spec fn consistent(&self) -> bool {
        self.all_epochs_r2 ==> self.all_epochs_validation
    }

    /// What the network predicts for each of the samples.
    pub open spec fn predictions_spec<S: Scalar>(network: NetworkView<S>, samples: Seq<Seq<S>>) -> Seq<
        Seq<S>,
    > {
        Seq::new(samples.len(), |k: int| network.predict_spec(samples[k]))
    }

    /// Whether the network can be validated: it can be evaluated on each sample, and what
    /// is expected of the samples has one length.
    pub open spec fn accepts_validation<S: Scalar>(
        network: NetworkView<S>,
        validation_x: Seq<Seq<S>>,
        validation_y: Seq<Seq<S>>,
    ) -> bool {
        &&& MatrixView::<S>::rectangular(validation_y)
        &&& forall|k: int|
            0 <= k < validation_x.len() ==> network.accepts_evaluation(
                #[trigger] validation_x[k],
                validation_y[k],
            )
    }

    /// What epoch `epoch` comes to: the network is trained on the training samples; where
    /// the epoch validates, the trained network, with dropping disabled in the layers that
    /// drop, predicts for the validation samples, and
    /// the mean and standard deviation of the losses go on record, with the coefficient of
    /// determination where the epoch scores. Nothing where training or validation fails, or
    /// where the training loss is no ordinary number.
    pub open spec fn epoch_spec<S: Scalar>(
        &self,
        model: Model,
        epoch: usize,
        network: NetworkView<S>,
        train_x: Seq<Seq<S>>,
        train_y: Seq<Seq<S>>,
        validation_x: Seq<Seq<S>>,
        validation_y: Seq<Seq<S>>,
    ) -> Option<EpochOutcome<S>> {
        match model.train_epoch_spec(epoch, network, train_x, train_y) {
            Some((trained, train_loss)) => {
                if !train_loss.is_finite_spec() {
                    None
                } else if !self.validates(epoch, model.epochs) {
                    Some(
                        EpochOutcome {
                            network: trained,
                            evaluation: EpochEvaluation {
                                train_loss,
                                test_loss_avg: Self::absent::<S>(),
                                test_loss_std: Self::absent::<S>(),
                                r2: Self::absent::<S>(),
                            },
                            predictions: Seq::empty(),
                        },
                    )
                } else if !Self::accepts_validation(
                    trained.with_dropout(false),
                    validation_x,
                    validation_y,
                ) {
                    None
                } else {
                    let quiet = trained.with_dropout(false);
                    let predictions = Self::predictions_spec(quiet, validation_x);
                    let losses = quiet.sample_losses(
                        model.loss.to_loss_spec(),
                        validation_x,
                        validation_y,
                    );
                    Some(
                        EpochOutcome {
                            network: quiet.after_samples(validation_x, validation_x.len()),
                            evaluation: EpochEvaluation {
                                train_loss,
                                test_loss_avg: crate::scalar::mean_spec(losses),
                                test_loss_std: crate::scalar::standard_deviation_spec(losses),
                                r2: if self.scores(epoch, model.epochs) {
                                    crate::vec_utils::r2_score_matrix_spec(
                                        MatrixView::from_columns(validation_y),
                                        MatrixView::from_columns(predictions),
                                    )
                                } else {
                                    Self::absent::<S>()
                                },
                            },
                            predictions,
                        },
                    )
                }
            },
            None => None,
        }
    }

    /// What the first `k` epochs come to.
    pub open spec fn epochs_spec<S: Scalar>(
        &self,
        model: Model,
        network: NetworkView<S>,
        train_x: Seq<Seq<S>>,
        train_y: Seq<Seq<S>>,
        validation_x: Seq<Seq<S>>,
        validation_y: Seq<Seq<S>>,
        k: nat,
    ) -> Option<RunOutcome<S>>
        decreases k,
    {
        if k == 0 {
            Some(RunOutcome { network, evaluations: Seq::empty(), predictions: Seq::empty() })
        } else {
            match self.epochs_spec(
                model,
                network,
                train_x,
                train_y,
                validation_x,
                validation_y,
                (k - 1) as nat,
            ) {
                Some(so_far) => match self.epoch_spec(
                    model,
                    (k - 1) as usize,
                    so_far.network,
                    train_x,
                    train_y,
                    validation_x,
                    validation_y,
                ) {
                    Some(epoch) => Some(
                        RunOutcome {
                            network: epoch.network,
                            evaluations: so_far.evaluations.push(epoch.evaluation),
                            predictions: epoch.predictions,
                        },
                    ),
                    None => None,
                },
                None => None,
            }
        }
    }

    /// Runs one epoch: trains `network` on the training samples, validates it where the
    /// epoch validates, and reports the record of the epoch to `reporter`, if there is one.
    pub fn run_epoch<S: Scalar, R: Fn(usize, EpochEvaluation<S>)>(
        &self,
        model: &Model,
        epoch: usize,
        network: &mut Network<S>,
        train_x: &Vec<Vec<S>>,
        train_y: &Vec<Vec<S>>,
        validation_x: &Vec<Vec<S>>,
        validation_y: &Vec<Vec<S>>,
        reporter: &Option<R>,
    ) -> (out: Result<(EpochEvaluation<S>, Vec<Vec<S>>), Error>)
        requires
            old(network).wf(),
            self.consistent(),
            validation_x@.len() == validation_y@.len(),
            reporter matches Some(report) ==> forall|epoch: usize, evaluation: EpochEvaluation<S>|
                call_requires(report, (epoch, evaluation)),
        ensures
            final(network).wf(),
            out is Ok <==> self.epoch_spec(
                *model,
                epoch,
                old(network)@,
                MatrixView::<S>::nested(train_x@),
                MatrixView::<S>::nested(train_y@),
                MatrixView::<S>::nested(validation_x@),
                MatrixView::<S>::nested(validation_y@),
            ) is Some,
            out matches Ok(outcome) ==> self.epoch_spec(
                *model,
                epoch,
                old(network)@,
                MatrixView::<S>::nested(train_x@),
                MatrixView::<S>::nested(train_y@),
                MatrixView::<S>::nested(validation_x@),
                MatrixView::<S>::nested(validation_y@),
            ) == Some(
                EpochOutcome {
                    network: final(network)@,
                    evaluation: outcome.0,
                    predictions: MatrixView::<S>::nested(outcome.1@),
                },
            ),
            out matches Err(error) ==> error == Error::ShapeMismatch || error
                == Error::UninitializedState || error == Error::NumericalDivergence,
    {
        let ghost vx = MatrixView::<S>::nested(validation_x@);
        let ghost vy = MatrixView::<S>::nested(validation_y@);
        let train_loss = match model.train_epoch(epoch, network, train_x, train_y) {
            Ok(train_loss) => train_loss,
            Err(error) => {
                return Err(error);
            },
        };
        let ghost trained = network@.with_dropout(false);
        let absent = S::zero().sub(S::one());
        let last = epoch < model.epochs && epoch == model.epochs - 1;
        let (evaluation, predictions) = if last || self.all_epochs_validation {
            let loss = model.loss.to_loss();
            let validated = network.predict_evaluate_many(validation_x, validation_y, &loss);
            let (predictions, loss_avg, loss_std) = match validated {
                Ok(validated) => validated,
                Err(error) => {
                    assert(!Self::accepts_validation(trained, vx, vy)) by {
                        if Self::accepts_validation(trained, vx, vy) {
                            assert forall|k: int|
                                0 <= k < validation_x@.len() implies trained.accepts_evaluation(
                                (#[trigger] validation_x@[k])@,
                                validation_y@[k]@,
                            ) by {
                                assert(trained.accepts_evaluation(vx[k], vy[k]));
                            }
                        }
                    }
                    return Err(error);
                },
            };
            proof {
                assert(MatrixView::<S>::nested(predictions@) =~= Self::predictions_spec(
                    trained,
                    vx,
                ));
                assert forall|k: int| 0 <= k < vx.len() implies trained.accepts_evaluation(
                    #[trigger] vx[k],
                    vy[k],
                ) by {
                    assert(trained.accepts_evaluation(validation_x@[k]@, validation_y@[k]@));
                }
            }
            let score = crate::vec_utils::r2_score_vector2(validation_y, &predictions);
            let r2 = match score {
                Ok(r2) => {
                    if last || self.all_epochs_r2 {
                        r2
                    } else {
                        absent
                    }
                },
                Err(error) => {
                    proof {
                        let ps = MatrixView::<S>::nested(predictions@);
                        if MatrixView::<S>::rectangular(vy) {
                            assert forall|c: int| 0 <= c < ps.len() implies (#[trigger] ps[c]).len()
                                == ps[0].len() by {
                                assert(trained.accepts_evaluation(vx[c], vy[c]));
                                assert(trained.accepts_evaluation(vx[0], vy[0]));
                                assert(vy[c].len() == vy[0].len());
                            }
                            if ps.len() > 0 {
                                assert(trained.accepts_evaluation(vx[0], vy[0]));
                            }
                        }
                    }
                    return Err(error);
                },
            };
            (EpochEvaluation::new(train_loss, loss_avg, loss_std, r2), predictions)
        } else {
            (EpochEvaluation::new(train_loss, absent, absent, absent), Vec::new())
        };
        match reporter {
            Some(report) => {
                report(epoch, evaluation);
            },
            None => {},
        }
        proof {
            if !(last || self.all_epochs_validation) {
                assert(MatrixView::<S>::nested(predictions@) =~= Seq::<Seq<S>>::empty());
            }
        }
        Ok((evaluation, predictions))
    }

    /// Runs all the epochs of the model: trains `network` on the training samples and
    /// validates it on the validation samples, epoch after epoch, and reports the record
    /// of each epoch to `reporter`, if there is one, when the epoch ends. Returns the
    /// predictions of the last epoch for the validation samples, and the records of the
    /// epochs.
    pub fn run_epochs<S: Scalar, R: Fn(usize, EpochEvaluation<S>)>(
        &self,
        model: &Model,
        network: &mut Network<S>,
        train_x: &Vec<Vec<S>>,
        train_y: &Vec<Vec<S>>,
        validation_x: &Vec<Vec<S>>,
        validation_y: &Vec<Vec<S>>,
        reporter: &Option<R>,
    ) -> (out: Result<(Vec<Vec<S>>, TrainingEvaluation<S>), Error>)
        requires
            old(network).wf(),
            self.consistent(),
            validation_x@.len() == validation_y@.len(),
            reporter matches Some(report) ==> forall|epoch: usize, evaluation: EpochEvaluation<S>|
                call_requires(report, (epoch, evaluation)),
        ensures
            final(network).wf(),
            out is Ok <==> self.epochs_spec(
                *model,
                old(network)@,
                MatrixView::<S>::nested(train_x@),
                MatrixView::<S>::nested(train_y@),
                MatrixView::<S>::nested(validation_x@),
                MatrixView::<S>::nested(validation_y@),
                model.epochs as nat,
            ) is Some,
            out matches Ok(outcome) ==> self.epochs_spec(
                *model,
                old(network)@,
                MatrixView::<S>::nested(train_x@),
                MatrixView::<S>::nested(train_y@),
                MatrixView::<S>::nested(validation_x@),
                MatrixView::<S>::nested(validation_y@),
                model.epochs as nat,
            ) == Some(
                RunOutcome {
                    network: final(network)@,
                    evaluations: outcome.1@,
                    predictions: MatrixView::<S>::nested(outcome.0@),
                },
            ),
            out matches Err(error) ==> error == Error::ShapeMismatch || error
                == Error::UninitializedState || error == Error::NumericalDivergence,
    {
        let ghost start = network@;
        let ghost tx = MatrixView::<S>::nested(train_x@);
        let ghost ty = MatrixView::<S>::nested(train_y@);
        let ghost vx = MatrixView::<S>::nested(validation_x@);
        let ghost vy = MatrixView::<S>::nested(validation_y@);
        let mut evaluation = TrainingEvaluation::new_empty();
        let mut final_predictions: Vec<Vec<S>> = Vec::new();
        assert(MatrixView::<S>::nested(final_predictions@) =~= Seq::<Seq<S>>::empty());
        let mut epoch: usize = 0;
        while epoch < model.epochs
            invariant
                network.wf(),
                self.consistent(),
                start == old(network)@,
                reporter matches Some(report) ==> forall|epoch: usize, evaluation: EpochEvaluation<S>|
                    call_requires(report, (epoch, evaluation)),
                validation_x@.len() == validation_y@.len(),
                tx == MatrixView::<S>::nested(train_x@),
                ty == MatrixView::<S>::nested(train_y@),
                vx == MatrixView::<S>::nested(validation_x@),
                vy == MatrixView::<S>::nested(validation_y@),
                epoch <= model.epochs,
                self.epochs_spec(*model, start, tx, ty, vx, vy, epoch as nat) == Some(
                    RunOutcome {
                        network: network@,
                        evaluations: evaluation@,
                        predictions: MatrixView::<S>::nested(final_predictions@),
                    },
                ),
            decreases model.epochs - epoch,
        {
            let result = self.run_epoch(
                model,
                epoch,
                network,
                train_x,
                train_y,
                validation_x,
                validation_y,
                reporter,
            );
            match result {
                Ok(outcome) => {
                    evaluation.add_epoch(outcome.0);
                    final_predictions = outcome.1;
                },
                Err(error) => {
                    proof {
                        Self::lemma_epochs_stay_failed(
                            self,
                            *model,
                            start,
                            tx,
                            ty,
                            vx,
                            vy,
                            (epoch + 1) as nat,
                            model.epochs as nat,
                        );
                    }
                    return Err(error);
                },
            }
            epoch += 1;
        }
        Ok((final_predictions, evaluation))
    }

    /// The predictions of a run are made for the validation samples, one for each of them
    /// where there are any, and each holds as many numbers as are expected for its sample.
    pub proof fn lemma_predictions_shape<S: Scalar>(
        &self,
        model: Model,
        network: NetworkView<S>,
        train_x: Seq<Seq<S>>,
        train_y: Seq<Seq<S>>,
        validation_x: Seq<Seq<S>>,
        validation_y: Seq<Seq<S>>,
        k: nat,
    )
        ensures
            self.epochs_spec(model, network, train_x, train_y, validation_x, validation_y, k)
                matches Some(outcome) ==> {
                &&& outcome.predictions.len() == 0 || outcome.predictions.len()
                    == validation_x.len()
                &&& forall|i: int|
                    0 <= i < outcome.predictions.len() ==> (#[trigger] outcome.predictions[i]).len()
                        == validation_y[i].len()
            },
    {
        if k > 0 {
            match self.epochs_spec(
                model,
                network,
                train_x,
                train_y,
                validation_x,
                validation_y,
                (k - 1) as nat,
            ) {
                Some(so_far) => {
                    match self.epoch_spec(
                        model,
                        (k - 1) as usize,
                        so_far.network,
                        train_x,
                        train_y,
                        validation_x,
                        validation_y,
                    ) {
                        Some(epoch) => {
                            assert forall|i: int|
                                0 <= i < epoch.predictions.len() implies (
                            #[trigger] epoch.predictions[i]).len() == validation_y[i].len() by {
                                let step = model.train_epoch_spec(
                                    (k - 1) as usize,
                                    so_far.network,
                                    train_x,
                                    train_y,
                                )->0;
                                let trained = step.0.with_dropout(false);
                                assert(trained.accepts_evaluation(validation_x[i], validation_y[i]));
                            }
                        },
                        None => {},
                    }
                },
                None => {},
            }
        }
    }

    /// Once the epochs have failed, they stay failed.
    pub proof fn lemma_epochs_stay_failed<S: Scalar>(
        &self,
        model: Model,
        network: NetworkView<S>,
        train_x: Seq<Seq<S>>,
        train_y: Seq<Seq<S>>,
        validation_x: Seq<Seq<S>>,
        validation_y: Seq<Seq<S>>,
        failed: nat,
        k: nat,
    )
        requires
            failed <= k,
            self.epochs_spec(model, network, train_x, train_y, validation_x, validation_y, failed)
                is None,
        ensures
            self.epochs_spec(model, network, train_x, train_y, validation_x, validation_y, k)
                is None,
        decreases k,
    {
        if failed < k {
            self.lemma_epochs_stay_failed(
                model,
                network,
                train_x,
                train_y,
                validation_x,
                validation_y,
                failed,
                (k - 1) as nat,
            );
        }
    }
}

} // verus!
