//! Training several times over, each time validating on another part of the samples.
//!
//! The samples are put in an order. With `k` folds, the sample at place `j` of the order
//! belongs to fold `j % k`, so that the folds share the samples evenly and no sample
//! belongs to two of them. Each fold has a network of its own, which is trained on the
//! samples of the other folds and validated on the fold's own samples.
//!
//! After a run the trainer can keep two parameter sets. The best one is that of the fold
//! whose last epoch has the lowest mean validation loss, the first such fold where several
//! have it. The average one holds at each place the plain mean of what the folds' networks
//! hold there, each fold counted once, whatever its losses.

use crate::benchmarking::{EpochEvaluation, ModelEvaluation};
use crate::error::Error;
use crate::linalg::MatrixView;
use crate::model::Model;
use crate::network::params::NetworkParams;
use crate::network::{Network, NetworkView};
use crate::scalar::Scalar;
use crate::trainers::epochs::{EpochPlan, RunOutcome};
use crate::trainers::sampling::{names_samples, pick, picked};
use vstd::prelude::*;

verus! {

/// The part of `order` that a fold of `k` folds validates on, or, with `validating` false,
/// the part that it trains on: the places of the order are dealt out to the folds in turn.
pub open spec fn fold_places(order: Seq<usize>, k: nat, fold: nat, validating: bool) -> Seq<
    usize,
>
    decreases order.len(),
{
    if order.len() == 0 {
        Seq::empty()
    } else {
        let before = fold_places(order.drop_last(), k, fold, validating);
        let own = k > 0 && (order.len() - 1) % (k as int) == fold;
        if own == validating {
            before.push(order.last())
        } else {
            before
        }
    }
}

/// Within a fold every place of the order is either trained on or validated on.
pub proof fn lemma_fold_parts(order: Seq<usize>, k: nat, fold: nat)
    ensures
        fold_places(order, k, fold, true).to_multiset().add(
            fold_places(order, k, fold, false).to_multiset(),
        ) == order.to_multiset(),
    decreases order.len(),
{
    broadcast use vstd::seq_lib::group_to_multiset_ensures;

    if order.len() > 0 {
        lemma_fold_parts(order.drop_last(), k, fold);
        assert(order.drop_last().push(order.last()) =~= order);
        assert(fold_places(order, k, fold, true).to_multiset().add(
            fold_places(order, k, fold, false).to_multiset(),
        ) =~= order.drop_last().to_multiset().insert(order.last()));
    } else {
        assert(fold_places(order, k, fold, true).to_multiset().add(
            fold_places(order, k, fold, false).to_multiset(),
        ) =~= order.to_multiset());
    }
}

/// What the first `n` of `k` folds validate on, fold after fold.
pub open spec fn validated(order: Seq<usize>, k: nat, n: nat) -> Seq<usize>
    decreases n,
{
    if n == 0 {
        Seq::empty()
    } else {
        validated(order, k, (n - 1) as nat) + fold_places(order, k, (n - 1) as nat, true)
    }
}

/// One more place at the end of the order is validated on by the fold whose turn it is,
/// and by no other.
pub proof fn lemma_validated_push(order: Seq<usize>, place: usize, k: nat, n: nat)
    requires
        k > 0,
    ensures
        validated(order.push(place), k, n).to_multiset() == if (order.len() as int) % (k as int) < n {
            validated(order, k, n).to_multiset().insert(place)
        } else {
            validated(order, k, n).to_multiset()
        },
    decreases n,
{
    broadcast use vstd::seq_lib::group_to_multiset_ensures;

    if n > 0 {
        let fold = (n - 1) as nat;
        let longer = order.push(place);
        lemma_validated_push(order, place, k, fold);
        assert(longer.drop_last() =~= order);
        vstd::seq_lib::lemma_multiset_commutative(
            validated(longer, k, fold),
            fold_places(longer, k, fold, true),
        );
        vstd::seq_lib::lemma_multiset_commutative(
            validated(order, k, fold),
            fold_places(order, k, fold, true),
        );
        if (order.len() as int) % (k as int) == fold {
            assert(validated(longer, k, n).to_multiset() =~= validated(
                order,
                k,
                n,
            ).to_multiset().insert(place));
        } else {
            assert(fold_places(longer, k, fold, true) == fold_places(order, k, fold, true));
            if (order.len() as int) % (k as int) < n {
                assert(validated(longer, k, n).to_multiset() =~= validated(
                    order,
                    k,
                    n,
                ).to_multiset().insert(place));
            } else {
                assert(validated(longer, k, n).to_multiset() =~= validated(
                    order,
                    k,
                    n,
                ).to_multiset());
            }
        }
    }
}

/// Of no samples, the folds validate on none.
pub proof fn lemma_validated_none(k: nat, n: nat)
    ensures
        validated(Seq::empty(), k, n) == Seq::<usize>::empty(),
    decreases n,
{
    if n > 0 {
        lemma_validated_none(k, (n - 1) as nat);
        assert(validated(Seq::empty(), k, n) =~= Seq::<usize>::empty());
    }
}

/// Every place of the order is validated on by one fold, and by one only: what the folds
/// validate on, taken together, is the order, up to rearrangement.
pub proof fn lemma_validated_once(order: Seq<usize>, k: nat)
    requires
        k > 0,
    ensures
        validated(order, k, k).to_multiset() == order.to_multiset(),
    decreases order.len(),
{
    broadcast use vstd::seq_lib::group_to_multiset_ensures;

    if order.len() == 0 {
        lemma_validated_none(k, k);
        assert(order =~= Seq::<usize>::empty());
    } else {
        lemma_validated_once(order.drop_last(), k);
        lemma_validated_push(order.drop_last(), order.last(), k, k);
        assert(order.drop_last().push(order.last()) =~= order);
        assert((order.drop_last().len() as int) % (k as int) < k) by (nonlinear_arith)
            requires
                k > 0,
                order.drop_last().len() >= 0,
        ;
    }
}

/// What the folds of a run come to.
pub struct FoldsOutcome<S: Scalar> {
    /// The networks of the folds after their last epoch.
    pub networks: Seq<NetworkView<S>>,
    /// The records of the epochs of each fold.
    pub evaluations: Seq<Seq<EpochEvaluation<S>>>,
    /// The predictions that the last epoch of each fold made for its validation samples.
    pub predictions: Seq<Seq<Seq<S>>>,
}

/// A trainer that trains a network for each fold, and validates it on the fold's samples.
#[derive(Debug)]
pub struct KFolds<S: Scalar> {
    /// The number of folds.
    pub k: usize,
    /// Whether a run keeps the parameters of the best fold.
    pub return_best: bool,
    /// Whether a run keeps the mean of the parameters of the folds.
    pub return_avg: bool,
    /// The parameters of the best fold of the last run that kept them.
    pub best: Option<NetworkParams<S>>,
    /// The mean of the parameters of the folds of the last run that kept it.
    pub avg: Option<NetworkParams<S>>,
    /// Whether every epoch validates, and not only the last one.
    pub all_epochs_validation: bool,
    /// Whether every epoch scores its validation predictions, and not only the last one.
    pub all_epochs_r2: bool,
}

impl<S: Scalar> KFolds<S> {
    /// Which epochs validate and score.
    pub open spec fn plan_spec(&self) -> EpochPlan {
        EpochPlan {
            all_epochs_validation: self.all_epochs_validation,
            all_epochs_r2: self.all_epochs_r2,
        }
    }

    /// Whether the settings agree: scoring every epoch asks for validating every epoch.
    pub open spec fn consistent(&self) -> bool {
        self.plan_spec().consistent()
    }

    /// The networks of a list, as their models.
    pub open spec fn views(networks: Seq<Network<S>>) -> Seq<NetworkView<S>> {
        networks.map_values(|network: Network<S>| network@)
    }

    /// The predictions of a list of folds, as lists of numbers.
    pub open spec fn lists(predictions: Seq<Vec<Vec<S>>>) -> Seq<Seq<Seq<S>>> {
        predictions.map_values(|fold: Vec<Vec<S>>| MatrixView::<S>::nested(fold@))
    }

    /// The parameters of each network of a list.
    pub open spec fn parameters_of(networks: Seq<NetworkView<S>>) -> Seq<Seq<Seq<Seq<S>>>> {
        networks.map_values(|network: NetworkView<S>| network.parameters())
    }

    /// What fold `fold` comes to when the samples are taken in the given order: `network`
    /// is trained on the samples of the other folds for all the epochs of the model, and
    /// validated on the samples of the fold.
    pub open spec fn fold_spec(
        &self,
        model: Model,
        network: NetworkView<S>,
        data_x: Seq<Seq<S>>,
        data_y: Seq<Seq<S>>,
        order: Seq<usize>,
        fold: nat,
    ) -> Option<RunOutcome<S>> {
        let training = fold_places(order, self.k as nat, fold, false);
        let validation = fold_places(order, self.k as nat, fold, true);
        self.plan_spec().epochs_spec(
            model,
            network,
            picked(data_x, training),
            picked(data_y, training),
            picked(data_x, validation),
            picked(data_y, validation),
            model.epochs as nat,
        )
    }

    /// What the first `n` folds come to, each with its network of `networks`. Nothing where
    /// one of them fails.
    pub open spec fn folds_spec(
        &self,
        model: Model,
        networks: Seq<NetworkView<S>>,
        data_x: Seq<Seq<S>>,
        data_y: Seq<Seq<S>>,
        order: Seq<usize>,
        n: nat,
    ) -> Option<FoldsOutcome<S>>
        decreases n,
    {
        if n == 0 {
            Some(
                FoldsOutcome {
                    networks: Seq::empty(),
                    evaluations: Seq::empty(),
                    predictions: Seq::empty(),
                },
            )
        } else {
            match self.folds_spec(model, networks, data_x, data_y, order, (n - 1) as nat) {
                Some(so_far) => match self.fold_spec(
                    model,
                    networks[n - 1],
                    data_x,
                    data_y,
                    order,
                    (n - 1) as nat,
                ) {
                    Some(fold) => Some(
                        FoldsOutcome {
                            networks: so_far.networks.push(fold.network),
                            evaluations: so_far.evaluations.push(fold.evaluations),
                            predictions: so_far.predictions.push(fold.predictions),
                        },
                    ),
                    None => None,
                },
                None => None,
            }
        }
    }

    /// What a run comes to when the samples are taken in the given order. Nothing where
    /// there is no fold, where there is not one network for each fold, where the two sides
    /// of the data differ in length, where the order names a sample that is not there, or
    /// where a fold fails.
    pub open spec fn run_spec(
        &self,
        model: Model,
        networks: Seq<NetworkView<S>>,
        data_x: Seq<Seq<S>>,
        data_y: Seq<Seq<S>>,
        order: Seq<usize>,
    ) -> Option<FoldsOutcome<S>> {
        if self.k == 0 || networks.len() != self.k || data_x.len() != data_y.len() || exists|
            i: int,
        |
            0 <= i < order.len() && (#[trigger] order[i]) >= data_x.len() {
            None
        } else {
            self.folds_spec(model, networks, data_x, data_y, order, self.k as nat)
        }
    }

    /// Whether a run with this outcome succeeds: where the mean of the parameters is to be
    /// kept, the networks of the folds must have parameters of one shape.
    pub open spec fn keeps(&self, outcome: FoldsOutcome<S>) -> bool {
        self.return_avg ==> NetworkParams::<S>::averageable(Self::parameters_of(outcome.networks))
    }

    /// What the folds come to is what each fold comes to, fold by fold.
    pub proof fn lemma_folds_outcome(
        &self,
        model: Model,
        networks: Seq<NetworkView<S>>,
        data_x: Seq<Seq<S>>,
        data_y: Seq<Seq<S>>,
        order: Seq<usize>,
        n: nat,
    )
        ensures
            self.folds_spec(model, networks, data_x, data_y, order, n) matches Some(outcome) ==> {
                &&& outcome.networks.len() == n
                &&& outcome.evaluations.len() == n
                &&& outcome.predictions.len() == n
                &&& forall|fold: int|
                    0 <= fold < n ==> (#[trigger] self.fold_spec(
                        model,
                        networks[fold],
                        data_x,
                        data_y,
                        order,
                        fold as nat,
                    )) == Some(
                        RunOutcome {
                            network: outcome.networks[fold],
                            evaluations: outcome.evaluations[fold],
                            predictions: outcome.predictions[fold],
                        },
                    )
            },
        decreases n,
    {
        if n > 0 {
            self.lemma_folds_outcome(model, networks, data_x, data_y, order, (n - 1) as nat);
        }
    }

    /// Once the folds have failed, they stay failed.
    pub proof fn lemma_folds_stay_failed(
        &self,
        model: Model,
        networks: Seq<NetworkView<S>>,
        data_x: Seq<Seq<S>>,
        data_y: Seq<Seq<S>>,
        order: Seq<usize>,
        failed: nat,
        n: nat,
    )
        requires
            failed <= n,
            self.folds_spec(model, networks, data_x, data_y, order, failed) is None,
        ensures
            self.folds_spec(model, networks, data_x, data_y, order, n) is None,
        decreases n,
    {
        if failed < n {
            self.lemma_folds_stay_failed(
                model,
                networks,
                data_x,
                data_y,
                order,
                failed,
                (n - 1) as nat,
            );
        }
    }

    /// A trainer of `k` folds that keeps no parameters, and validates and scores in the
    /// last epoch only.
    pub fn new(k: usize) -> (out: Self)
        ensures
            out.k == k,
            !out.return_best,
            !out.return_avg,
            out.best is None,
            out.avg is None,
            !out.all_epochs_validation,
            !out.all_epochs_r2,
    {
        KFolds {
            k,
            return_best: false,
            return_avg: false,
            best: None,
            avg: None,
            all_epochs_validation: false,
            all_epochs_r2: false,
        }
    }

    /// Which epochs validate and score.
    pub fn plan(&self) -> (plan: EpochPlan)
        ensures
            plan == self.plan_spec(),
    {
        EpochPlan {
            all_epochs_validation: self.all_epochs_validation,
            all_epochs_r2: self.all_epochs_r2,
        }
    }

    /// Asks for the coefficient of determination in every epoch. It takes time, and needs
    /// validation in every epoch.
    pub fn all_epochs_r2(&mut self)
        ensures
            *final(self) == (KFolds { all_epochs_r2: true, ..*old(self) }),
    {
        self.all_epochs_r2 = true;
    }

    /// Asks for validation in every epoch. It takes time.
    pub fn all_epochs_validation(&mut self)
        ensures
            *final(self) == (KFolds { all_epochs_validation: true, ..*old(self) }),
    {
        self.all_epochs_validation = true;
    }

    /// Asks the runs to keep the parameters of the best fold.
    pub fn compute_best_model(&mut self)
        ensures
            *final(self) == (KFolds { return_best: true, ..*old(self) }),
    {
        self.return_best = true;
    }

    /// Asks the runs to keep the mean of the parameters of the folds.
    pub fn compute_avg_model(&mut self)
        ensures
            *final(self) == (KFolds { return_avg: true, ..*old(self) }),
    {
        self.return_avg = true;
    }

    /// Hands out the parameters of the best fold, and keeps none.
    pub fn take_best_model(&mut self) -> (params: NetworkParams<S>)
        requires
            old(self).best is Some,
        ensures
            Some(params) == old(self).best,
            *final(self) == (KFolds { best: None, ..*old(self) }),
    {
        self.best.take().unwrap()
    }

    /// Hands out the mean of the parameters of the folds, and keeps none.
    pub fn take_avg_model(&mut self) -> (params: NetworkParams<S>)
        requires
            old(self).avg is Some,
        ensures
            Some(params) == old(self).avg,
            *final(self) == (KFolds { avg: None, ..*old(self) }),
    {
        self.avg.take().unwrap()
    }

    /// The part of `order` that fold `fold` of `k` folds validates on, or, with
    /// `validating` false, the part that it trains on.
    pub fn fold_part(order: &Vec<usize>, k: usize, fold: usize, validating: bool) -> (part: Vec<
        usize,
    >)
        requires
            k > 0,
        ensures
            part@ == fold_places(order@, k as nat, fold as nat, validating),
            forall|i: int| 0 <= i < part@.len() ==> order@.contains(#[trigger] part@[i]),
    {
        let mut part: Vec<usize> = Vec::new();
        let mut j: usize = 0;
        while j < order.len()
            invariant
                k > 0,
                j <= order@.len(),
                part@ == fold_places(order@.take(j as int), k as nat, fold as nat, validating),
                forall|i: int| 0 <= i < part@.len() ==> order@.contains(#[trigger] part@[i]),
            decreases order@.len() - j,
        {
            assert(order@.take(j + 1).drop_last() =~= order@.take(j as int));
            let own = j % k == fold;
            if own == validating {
                part.push(order[j]);
            }
            j += 1;
        }
        assert(order@.take(j as int) =~= order@);
        part
    }

    /// Runs fold `fold`: trains `network` on the samples of the other folds for all the
    /// epochs of the model, and validates it on the samples of the fold. Returns the
    /// predictions of the last epoch for those samples, and the records of the epochs.
    pub fn run_fold<R: Fn(usize, EpochEvaluation<S>)>(
        &self,
        model: &Model,
        network: &mut Network<S>,
        data_x: &Vec<Vec<S>>,
        data_y: &Vec<Vec<S>>,
        order: &Vec<usize>,
        fold: usize,
        reporter: &Option<R>,
    ) -> (out: Result<(Vec<Vec<S>>, crate::benchmarking::TrainingEvaluation<S>), Error>)
        requires
            old(network).wf(),
            self.consistent(),
            self.k > 0,
            data_x@.len() == data_y@.len(),
            forall|i: int| 0 <= i < order@.len() ==> (#[trigger] order@[i]) < data_x@.len(),
            reporter matches Some(report) ==> forall|epoch: usize, evaluation: EpochEvaluation<S>|
                call_requires(report, (epoch, evaluation)),
        ensures
            final(network).wf(),
            out is Ok <==> self.fold_spec(
                *model,
                old(network)@,
                MatrixView::<S>::nested(data_x@),
                MatrixView::<S>::nested(data_y@),
                order@,
                fold as nat,
            ) is Some,
            out matches Ok(outcome) ==> self.fold_spec(
                *model,
                old(network)@,
                MatrixView::<S>::nested(data_x@),
                MatrixView::<S>::nested(data_y@),
                order@,
                fold as nat,
            ) == Some(
                RunOutcome {
                    network: final(network)@,
                    evaluations: outcome.1@,
                    predictions: MatrixView::<S>::nested(outcome.0@),
                },
            ),
            out matches Err(error) ==> error == Error::ShapeMismatch || error
                == Error::UninitializedState || error == Error::NumericalDivergence,
    {
        let ghost xs = MatrixView::<S>::nested(data_x@);
        let ghost ys = MatrixView::<S>::nested(data_y@);
        let training = Self::fold_part(order, self.k, fold, false);
        let validation = Self::fold_part(order, self.k, fold, true);
        proof {
            assert forall|i: int| 0 <= i < training@.len() implies (#[trigger] training@[i])
                < data_x@.len() by {
                assert(order@.contains(training@[i]));
            }
            assert forall|i: int| 0 <= i < validation@.len() implies (#[trigger] validation@[i])
                < data_x@.len() by {
                assert(order@.contains(validation@[i]));
            }
        }
        let train_x = pick(data_x, &training, 0, training.len());
        let train_y = pick(data_y, &training, 0, training.len());
        let validation_x = pick(data_x, &validation, 0, validation.len());
        let validation_y = pick(data_y, &validation, 0, validation.len());
        proof {
            assert(MatrixView::<S>::nested(train_x@) =~= picked(xs, training@));
            assert(MatrixView::<S>::nested(train_y@) =~= picked(ys, training@));
            assert(MatrixView::<S>::nested(validation_x@) =~= picked(xs, validation@));
            assert(MatrixView::<S>::nested(validation_y@) =~= picked(ys, validation@));
        }
        self.plan().run_epochs(
            model,
            network,
            &train_x,
            &train_y,
            &validation_x,
            &validation_y,
            reporter,
        )
    }

    /// Trains and validates a network for each fold on the samples `data_x` with the
    /// expected outputs `data_y`, taken in the given order; `networks` holds the network of
    /// each fold. The record of each epoch of each fold is reported to `reporter`, if there
    /// is one, when the epoch ends. Returns, for each fold, the predictions of its last
    /// epoch for its validation samples, and the records of the epochs of each fold. The
    /// parameter sets that the trainer is asked for are kept in it.
    pub fn run_in_order<R: Fn(usize, EpochEvaluation<S>)>(
        &mut self,
        model: &Model,
        networks: &mut Vec<Network<S>>,
        data_x: &Vec<Vec<S>>,
        data_y: &Vec<Vec<S>>,
        order: &Vec<usize>,
        reporter: &Option<R>,
    ) -> (out: Result<(Vec<Vec<Vec<S>>>, ModelEvaluation<S>), Error>)
        requires
            forall|f: int| 0 <= f < old(networks)@.len() ==> (#[trigger] old(networks)@[f]).wf(),
            old(self).consistent(),
            reporter matches Some(report) ==> forall|epoch: usize, evaluation: EpochEvaluation<S>|
                call_requires(report, (epoch, evaluation)),
        ensures
            forall|f: int| 0 <= f < final(networks)@.len() ==> (#[trigger] final(networks)@[f]).wf(),
            final(networks)@.len() == old(networks)@.len(),
            final(self).k == old(self).k,
            final(self).return_best == old(self).return_best,
            final(self).return_avg == old(self).return_avg,
            final(self).all_epochs_validation == old(self).all_epochs_validation,
            final(self).all_epochs_r2 == old(self).all_epochs_r2,
            out is Ok <==> (old(self).run_spec(
                *model,
                Self::views(old(networks)@),
                MatrixView::<S>::nested(data_x@),
                MatrixView::<S>::nested(data_y@),
                order@,
            ) matches Some(outcome) && old(self).keeps(outcome)),
            out matches Ok(outcome) ==> {
                &&& old(self).run_spec(
                    *model,
                    Self::views(old(networks)@),
                    MatrixView::<S>::nested(data_x@),
                    MatrixView::<S>::nested(data_y@),
                    order@,
                ) == Some(
                    FoldsOutcome {
                        networks: Self::views(final(networks)@),
                        evaluations: outcome.1@,
                        predictions: Self::lists(outcome.0@),
                    },
                )
                &&& if old(self).return_best {
                    final(self).best matches Some(params) && params@ == Self::views(
                        final(networks)@,
                    )[ModelEvaluation::<S>::best_fold_spec(outcome.1@)].parameters()
                } else {
                    final(self).best == old(self).best
                }
                &&& if old(self).return_avg {
                    final(self).avg matches Some(params) && params@
                        == NetworkParams::<S>::average_spec(
                        Self::parameters_of(Self::views(final(networks)@)),
                    )
                } else {
                    final(self).avg == old(self).avg
                }
            },
            out matches Err(error) ==> {
                &&& final(self).best == old(self).best
                &&& final(self).avg == old(self).avg
                &&& (error == Error::ShapeMismatch || error == Error::UninitializedState || error
                    == Error::NumericalDivergence || error == Error::ParameterCountMismatch)
            },
    {
        let ghost xs = MatrixView::<S>::nested(data_x@);
        let ghost ys = MatrixView::<S>::nested(data_y@);
        let ghost start = Self::views(networks@);
        if self.k == 0 || networks.len() != self.k || data_x.len() != data_y.len() {
            return Err(Error::ShapeMismatch);
        }
        if !names_samples(order, data_x.len()) {
            return Err(Error::ShapeMismatch);
        }
        let mut evaluation = ModelEvaluation::new_empty();
        let mut predictions: Vec<Vec<Vec<S>>> = Vec::new();
        assert(Self::lists(predictions@) =~= Seq::<Seq<Seq<S>>>::empty());
        assert(Self::views(networks@).take(0) =~= Seq::<NetworkView<S>>::empty());
        let mut fold: usize = 0;
        while fold < self.k
            invariant
                *self == *old(self),
                self.consistent(),
                self.k > 0,
                fold <= self.k,
                evaluation@.len() == fold,
                networks@.len() == self.k,
                networks@.len() == old(networks)@.len(),
                start == Self::views(old(networks)@),
                xs == MatrixView::<S>::nested(data_x@),
                ys == MatrixView::<S>::nested(data_y@),
                data_x@.len() == data_y@.len(),
                forall|i: int| 0 <= i < order@.len() ==> (#[trigger] order@[i]) < data_x@.len(),
                reporter matches Some(report) ==> forall|epoch: usize, evaluation: EpochEvaluation<S>|
                    call_requires(report, (epoch, evaluation)),
                forall|f: int| 0 <= f < networks@.len() ==> (#[trigger] networks@[f]).wf(),
                forall|f: int| fold <= f < networks@.len() ==> (#[trigger] networks@[f])@ == start[f],
                self.folds_spec(*model, start, xs, ys, order@, fold as nat) == Some(
                    FoldsOutcome {
                        networks: Self::views(networks@).take(fold as int),
                        evaluations: evaluation@,
                        predictions: Self::lists(predictions@),
                    },
                ),
            decreases self.k - fold,
        {
            let ghost before = networks@;
            let result = self.run_fold(
                model,
                &mut networks[fold],
                data_x,
                data_y,
                order,
                fold,
                reporter,
            );
            match result {
                Ok(outcome) => {
                    proof {
                        assert(Self::views(networks@).take(fold + 1) =~= Self::views(before).take(
                            fold as int,
                        ).push(networks@[fold as int]@));
                        assert(Self::lists(predictions@.push(outcome.0)) =~= Self::lists(
                            predictions@,
                        ).push(MatrixView::<S>::nested(outcome.0@)));
                    }
                    evaluation.add_fold(outcome.1);
                    predictions.push(outcome.0);
                },
                Err(error) => {
                    proof {
                        self.lemma_folds_stay_failed(
                            *model,
                            start,
                            xs,
                            ys,
                            order@,
                            (fold + 1) as nat,
                            self.k as nat,
                        );
                    }
                    return Err(error);
                },
            }
            fold += 1;
        }
        assert(Self::views(networks@).take(fold as int) =~= Self::views(networks@));
        let avg = if self.return_avg {
            let sets = Self::params_of(networks);
            match NetworkParams::average(&sets) {
                Ok(mean) => Some(mean),
                Err(error) => {
                    return Err(error);
                },
            }
        } else {
            None
        };
        if self.return_best {
            let best = evaluation.best_fold();
            self.best = Some(networks[best].get_params());
        }
        if self.return_avg {
            self.avg = avg;
        }
        Ok((predictions, evaluation))
    }

    /// The parameters of each network of a list.
    fn params_of(networks: &Vec<Network<S>>) -> (sets: Vec<NetworkParams<S>>)
        requires
            forall|f: int| 0 <= f < networks@.len() ==> (#[trigger] networks@[f]).wf(),
        ensures
            NetworkParams::<S>::views(sets@) == Self::parameters_of(Self::views(networks@)),
    {
        let mut sets: Vec<NetworkParams<S>> = Vec::new();
        let mut f: usize = 0;
        while f < networks.len()
            invariant
                f <= networks@.len(),
                forall|f: int| 0 <= f < networks@.len() ==> (#[trigger] networks@[f]).wf(),
                sets@.len() == f,
                forall|i: int| 0 <= i < f ==> (#[trigger] sets@[i])@ == networks@[i]@.parameters(),
            decreases networks@.len() - f,
        {
            sets.push(networks[f].get_params());
            f += 1;
        }
        assert(NetworkParams::<S>::views(sets@) =~= Self::parameters_of(Self::views(networks@)));
        sets
    }

    /// Trains and validates a network for each fold on the samples `data_x` with the
    /// expected outputs `data_y`, taken in a random order: see [`KFolds::run_in_order`].
    /// Whatever the order that chance gives, it names each sample once.
    pub fn run<R: Fn(usize, EpochEvaluation<S>)>(
        &mut self,
        model: &Model,
        networks: &mut Vec<Network<S>>,
        data_x: &Vec<Vec<S>>,
        data_y: &Vec<Vec<S>>,
        reporter: &Option<R>,
    ) -> (out: Result<(Vec<Vec<Vec<S>>>, ModelEvaluation<S>), Error>)
        requires
            forall|f: int| 0 <= f < old(networks)@.len() ==> (#[trigger] old(networks)@[f]).wf(),
            old(self).consistent(),
            reporter matches Some(report) ==> forall|epoch: usize, evaluation: EpochEvaluation<S>|
                call_requires(report, (epoch, evaluation)),
        ensures
            forall|f: int| 0 <= f < final(networks)@.len() ==> (#[trigger] final(networks)@[f]).wf(),
            final(networks)@.len() == old(networks)@.len(),
            final(self).k == old(self).k,
            final(self).return_best == old(self).return_best,
            final(self).return_avg == old(self).return_avg,
            final(self).all_epochs_validation == old(self).all_epochs_validation,
            final(self).all_epochs_r2 == old(self).all_epochs_r2,
            exists|order: Seq<usize>|
                {
                    &&& crate::random::is_order_of(order, data_x@.len())
                    &&& (out is Ok <==> ((#[trigger] old(self).run_spec(
                        *model,
                        Self::views(old(networks)@),
                        MatrixView::<S>::nested(data_x@),
                        MatrixView::<S>::nested(data_y@),
                        order,
                    )) matches Some(outcome) && old(self).keeps(outcome)))
                    &&& (out matches Ok(outcome) ==> old(self).run_spec(
                        *model,
                        Self::views(old(networks)@),
                        MatrixView::<S>::nested(data_x@),
                        MatrixView::<S>::nested(data_y@),
                        order,
                    ) == Some(
                        FoldsOutcome {
                            networks: Self::views(final(networks)@),
                            evaluations: outcome.1@,
                            predictions: Self::lists(outcome.0@),
                        },
                    ))
                },
            out matches Ok(outcome) ==> {
                &&& if old(self).return_best {
                    final(self).best matches Some(params) && params@ == Self::views(
                        final(networks)@,
                    )[ModelEvaluation::<S>::best_fold_spec(outcome.1@)].parameters()
                } else {
                    final(self).best == old(self).best
                }
                &&& if old(self).return_avg {
                    final(self).avg matches Some(params) && params@
                        == NetworkParams::<S>::average_spec(
                        Self::parameters_of(Self::views(final(networks)@)),
                    )
                } else {
                    final(self).avg == old(self).avg
                }
            },
            out matches Err(error) ==> {
                &&& final(self).best == old(self).best
                &&& final(self).avg == old(self).avg
                &&& (error == Error::ShapeMismatch || error == Error::UninitializedState || error
                    == Error::NumericalDivergence || error == Error::ParameterCountMismatch)
            },
    {
        let order = crate::random::random_order(data_x.len());
        self.run_in_order(model, networks, data_x, data_y, &order, reporter)
    }
}

} // verus!
