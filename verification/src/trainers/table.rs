//! Training on the samples of a table.
//!
//! The description of a dataset says which columns of a table are inputs of the model,
//! which are targets, and which one identifies the row. Where the description names no
//! identifier or no target, or the table lacks a column that the description names, there
//! is nothing to train on: that is found out, and reported, before any training.

use crate::benchmarking::{EpochEvaluation, ModelEvaluation};
use crate::dataset::{inputs_of, names_of, outputs_of, prediction_names_of, Dataset, FeatureView};
use crate::datatable::{borrowed_texts, texts, DataTable, DataTableView};
use crate::error::Error;
use crate::linalg::MatrixView;
use crate::model::Model;
use crate::network::Network;
use crate::scalar::Scalar;
use crate::trainers::kfolds::{fold_places, FoldsOutcome, KFolds};
use crate::trainers::split::SplitTraining;
use vstd::prelude::*;

verus! {

/// The name of the first feature that identifies the row, if there is one.
pub open spec fn id_of(features: Seq<FeatureView>) -> Option<Seq<char>>
    decreases features.len(),
{
    if features.len() == 0 {
        None
    } else {
        match id_of(features.drop_last()) {
            Some(name) => Some(name),
            None => if features.last().is_id {
                Some(features.last().name)
            } else {
                None
            },
        }
    }
}

/// The identifier found among the first features is the identifier of the list.
pub proof fn lemma_id_stays(features: Seq<FeatureView>, n: int)
    requires
        0 <= n <= features.len(),
        id_of(features.take(n)) is Some,
    ensures
        id_of(features) == id_of(features.take(n)),
    decreases features.len() - n,
{
    if n < features.len() {
        assert(features.take(n + 1).drop_last() =~= features.take(n));
        lemma_id_stays(features, n + 1);
    } else {
        assert(features.take(n) =~= features);
    }
}

/// The name of the first feature of the dataset that identifies the row, if there is one.
pub fn id_column(dataset: &Dataset) -> (out: Option<String>)
    ensures
        match out {
            Some(name) => id_of(dataset@.features) == Some(name@),
            None => id_of(dataset@.features) is None,
        },
{
    let mut i: usize = 0;
    while i < dataset.features.len()
        invariant
            i <= dataset.features@.len(),
            id_of(dataset@.features.take(i as int)) is None,
        decreases dataset.features@.len() - i,
    {
        let feature = &dataset.features[i];
        proof {
            assert(dataset@.features.take(i + 1).drop_last() =~= dataset@.features.take(i as int));
            assert(dataset@.features.take(i + 1).last() == feature@);
        }
        if feature.is_id {
            proof {
                lemma_id_stays(dataset@.features, i + 1);
            }
            return Some(feature.name.clone());
        }
        i += 1;
    }
    assert(dataset@.features.take(i as int) =~= dataset@.features);
    None
}

/// The samples of a table: for each row what identifies it, the inputs of the model, and
/// what is expected of the model.
#[derive(Debug)]
pub struct Samples<S: Scalar> {
    /// What identifies each row.
    pub ids: Vec<S>,
    /// The inputs of each row.
    pub x: Vec<Vec<S>>,
    /// What is expected for each row.
    pub y: Vec<Vec<S>>,
}

/// Mathematical model of [`Samples`].
pub struct SamplesView<S: Scalar> {
    pub ids: Seq<S>,
    pub x: Seq<Seq<S>>,
    pub y: Seq<Seq<S>>,
}

impl<S: Scalar> View for Samples<S> {
    type V = SamplesView<S>;

    open spec fn view(&self) -> SamplesView<S> {
        SamplesView {
            ids: self.ids@,
            x: MatrixView::<S>::nested(self.x@),
            y: MatrixView::<S>::nested(self.y@),
        }
    }
}

/// The samples that a table holds for a dataset: the column of the feature that identifies
/// the row, the columns of the inputs, and the columns of the targets, row by row. Nothing
/// where the dataset has no identifier or no target, or where the table lacks one of those
/// columns.
pub open spec fn samples_spec<S: Scalar>(
    features: Seq<FeatureView>,
    table: DataTableView<S>,
) -> Option<SamplesView<S>> {
    let inputs = names_of(inputs_of(features));
    let outputs = names_of(outputs_of(features));
    match (id_of(features), table.positions(inputs), table.positions(outputs)) {
        (Some(id), Some(ins), Some(outs)) => if outputs.len() > 0 && table.has(id) {
            Some(
                SamplesView {
                    ids: table.column(id)->0,
                    x: table.columns_at(ins).vectors(),
                    y: table.columns_at(outs).vectors(),
                },
            )
        } else {
            None
        },
        _ => None,
    }
}

/// The samples that `table` holds for `dataset`.
pub fn samples_of<S: Scalar>(dataset: &Dataset, table: &DataTable<S>) -> (out: Result<
    Samples<S>,
    Error,
>)
    ensures
        table@.wf(),
        out is Ok <==> samples_spec(dataset@.features, table@) is Some,
        out matches Ok(samples) ==> {
            &&& samples_spec(dataset@.features, table@) == Some(samples@)
            &&& samples.ids@.len() == table@.rows
            &&& samples.x@.len() == table@.rows
            &&& samples.y@.len() == table@.rows
        },
        out matches Err(error) ==> error == Error::MissingRequiredColumn,
{
    let rows = table.num_rows();
    let id = match id_column(dataset) {
        Some(id) => id,
        None => {
            return Err(Error::MissingRequiredColumn);
        },
    };
    let inputs = dataset.in_features_names();
    let outputs = dataset.out_features_names();
    proof {
        assert(borrowed_texts(inputs@) =~= names_of(inputs_of(dataset@.features)));
        assert(borrowed_texts(outputs@) =~= names_of(outputs_of(dataset@.features)));
    }
    if outputs.len() == 0 {
        return Err(Error::MissingRequiredColumn);
    }
    let ids = match table.column_to_vector(id.as_str()) {
        Ok(ids) => ids,
        Err(error) => {
            return Err(error);
        },
    };
    let ins = match table.positions(inputs.as_slice()) {
        Some(ins) => ins,
        None => {
            return Err(Error::MissingRequiredColumn);
        },
    };
    let outs = match table.positions(outputs.as_slice()) {
        Some(outs) => outs,
        None => {
            return Err(Error::MissingRequiredColumn);
        },
    };
    let x = table.columns_at(&ins).to_vectors();
    let y = table.columns_at(&outs).to_vectors();
    proof {
        table@.lemma_position_within(id@);
        assert(MatrixView::<S>::nested(x@).len() == x@.len());
        assert(MatrixView::<S>::nested(y@).len() == y@.len());
        assert(ids@ == table@.columns[table@.position(id@)->0]);
    }
    Ok(Samples { ids, x, y })
}

/// The rows of a table of predictions: for each prediction its numbers, and then what
/// identifies the sample that it is made for. The predictions are made, in order, for the
/// samples at the places `from, from + 1, ..` of the order.
pub open spec fn prediction_rows<S: Scalar>(
    predictions: Seq<Seq<S>>,
    ids: Seq<S>,
    order: Seq<usize>,
    from: int,
) -> Seq<Seq<S>> {
    Seq::new(predictions.len(), |i: int| predictions[i].push(ids[order[from + i] as int]))
}

/// The names of the columns of a table of predictions: one for each target of the model,
/// and the name of the identifier.
pub open spec fn prediction_columns(features: Seq<FeatureView>) -> Seq<Seq<char>> {
    prediction_names_of(outputs_of(features)).push(id_of(features)->0)
}

/// Whether each prediction has one number for each column of predictions.
pub open spec fn fit_columns<S: Scalar>(predictions: Seq<Seq<S>>, columns: nat) -> bool {
    forall|i: int| 0 <= i < predictions.len() ==> (#[trigger] predictions[i]).len() == columns
}

/// The table of the predictions for the samples at the places from `from` of the order:
/// one row for each prediction, with what identifies its sample in the last column.
pub fn predictions_table<S: Scalar>(
    dataset: &Dataset,
    predictions: &Vec<Vec<S>>,
    ids: &Vec<S>,
    order: &Vec<usize>,
    from: usize,
) -> (out: Result<DataTable<S>, Error>)
    requires
        id_of(dataset@.features) is Some,
        from + predictions@.len() <= order@.len(),
        forall|i: int| 0 <= i < order@.len() ==> (#[trigger] order@[i]) < ids@.len(),
    ensures
        out is Ok <==> fit_columns(
            MatrixView::<S>::nested(predictions@),
            outputs_of(dataset@.features).len(),
        ),
        out matches Ok(table) ==> table@.wf() && table@ == DataTableView::from_vectors(
            prediction_columns(dataset@.features),
            prediction_rows(MatrixView::<S>::nested(predictions@), ids@, order@, from as int),
        ),
        out matches Err(error) ==> error == Error::ShapeMismatch,
{
    let mut names = dataset.pred_out_features_names();
    let ghost targets = names@.len();
    proof {
        assert(texts(names@) =~= prediction_names_of(outputs_of(dataset@.features)));
    }
    let id = match id_column(dataset) {
        Some(id) => id,
        None => {
            return Err(Error::ShapeMismatch);
        },
    };
    let ghost before = names@;
    names.push(id);
    proof {
        assert(texts(names@) =~= prediction_columns(dataset@.features));
    }
    let ghost wanted = prediction_rows(
        MatrixView::<S>::nested(predictions@),
        ids@,
        order@,
        from as int,
    );
    let mut rows: Vec<Vec<S>> = Vec::new();
    let places = order.len();
    let mut i: usize = 0;
    while i < predictions.len()
        invariant
            i <= predictions@.len(),
            places == order@.len(),
            from + predictions@.len() <= order@.len(),
            forall|i: int| 0 <= i < order@.len() ==> (#[trigger] order@[i]) < ids@.len(),
            wanted == prediction_rows(
                MatrixView::<S>::nested(predictions@),
                ids@,
                order@,
                from as int,
            ),
            rows@.len() == i,
            forall|k: int| 0 <= k < i ==> (#[trigger] rows@[k])@ == wanted[k],
        decreases predictions@.len() - i,
    {
        let mut row = crate::linalg::copied(&predictions[i]);
        row.push(ids[order[from + i]]);
        assert(row@ =~= wanted[i as int]);
        rows.push(row);
        i += 1;
    }
    assert(MatrixView::<S>::nested(rows@) =~= wanted);
    proof {
        assert(names@.len() == targets + 1);
        assert(targets == outputs_of(dataset@.features).len());
        if fit_columns(MatrixView::<S>::nested(predictions@), targets as nat) {
            assert forall|r: int| 0 <= r < rows@.len() implies (#[trigger] rows@[r])@.len()
                == names@.len() by {
                assert(MatrixView::<S>::nested(predictions@)[r].len() == targets);
            }
        }
        if forall|r: int| 0 <= r < rows@.len() ==> (#[trigger] rows@[r])@.len() == names@.len() {
            assert forall|r: int| 0 <= r < predictions@.len() implies (
            #[trigger] MatrixView::<S>::nested(predictions@)[r]).len() == targets by {
                assert(rows@[r]@.len() == names@.len());
            }
        }
    }
    DataTable::from_vectors(&names, &rows)
}

impl<S: Scalar> SplitTraining<S> {
    /// What a run on a table comes to when the samples are taken in the given order: what
    /// the run on the samples of the table comes to. Nothing where the table holds no
    /// samples for the dataset.
    pub open spec fn table_run_spec(
        &self,
        model: Model,
        network: crate::network::NetworkView<S>,
        features: Seq<FeatureView>,
        table: DataTableView<S>,
        order: Seq<usize>,
    ) -> Option<crate::trainers::epochs::RunOutcome<S>> {
        match samples_spec(features, table) {
            Some(samples) => self.run_spec(model, network, samples.x, samples.y, order),
            None => None,
        }
    }

    /// The table of the predictions of a run on a table.
    pub open spec fn table_predictions(
        &self,
        features: Seq<FeatureView>,
        table: DataTableView<S>,
        order: Seq<usize>,
        predictions: Seq<Seq<S>>,
    ) -> DataTableView<S> {
        DataTableView::from_vectors(
            prediction_columns(features),
            prediction_rows(
                predictions,
                samples_spec(features, table)->0.ids,
                order,
                Self::split_point(self.ratio, order.len() as usize) as int,
            ),
        )
    }

    /// Trains and validates `network` on the samples that `table` holds for `dataset`,
    /// taken in the given order: see [`SplitTraining::run_in_order`]. Where the table
    /// holds no samples for the dataset, that is reported before any training. Returns the
    /// table of the predictions of the last epoch for the validation samples, with what
    /// identifies each sample in the last column, and the records of the epochs.
    pub fn run_on_table_in_order<R: Fn(usize, EpochEvaluation<S>)>(
        &mut self,
        model: &Model,
        dataset: &Dataset,
        network: &mut Network<S>,
        table: &DataTable<S>,
        order: &Vec<usize>,
        reporter: &Option<R>,
    ) -> (out: Result<(DataTable<S>, ModelEvaluation<S>), Error>)
        requires
            old(network).wf(),
            old(self).consistent(),
            reporter matches Some(report) ==> forall|epoch: usize, evaluation: EpochEvaluation<S>|
                call_requires(report, (epoch, evaluation)),
        ensures
            final(network).wf(),
            final(self).ratio == old(self).ratio,
            final(self).all_epochs_validation == old(self).all_epochs_validation,
            final(self).all_epochs_r2 == old(self).all_epochs_r2,
            out is Ok <==> old(self).table_run_spec(
                *model,
                old(network)@,
                dataset@.features,
                table@,
                order@,
            ) is Some,
            out matches Ok(result) ==> {
                &&& result.1@.len() == 1
                &&& old(self).table_run_spec(
                    *model,
                    old(network)@,
                    dataset@.features,
                    table@,
                    order@,
                ) matches Some(outcome) && outcome.network == final(network)@
                    && outcome.evaluations == result.1@[0] && result.0@ == old(
                    self,
                ).table_predictions(dataset@.features, table@, order@, outcome.predictions)
                &&& result.0@.wf()
                &&& final(self).model matches Some(params) && params@
                    == final(network)@.parameters()
            },
            out matches Err(error) ==> {
                &&& final(self).model == old(self).model
                &&& if samples_spec(dataset@.features, table@) is None {
                    error == Error::MissingRequiredColumn && final(network)@ == old(network)@
                } else {
                    error == Error::ShapeMismatch || error == Error::UninitializedState || error
                        == Error::NumericalDivergence
                }
            },
    {
        let samples = match samples_of(dataset, table) {
            Ok(samples) => samples,
            Err(error) => {
                return Err(error);
            },
        };
        let ghost start = network@;
        let (predictions, evaluation) = match self.run_in_order(
            model,
            network,
            &samples.x,
            &samples.y,
            order,
            reporter,
        ) {
            Ok(result) => result,
            Err(error) => {
                return Err(error);
            },
        };
        let split = self.split_at(order.len());
        proof {
            let xs = samples@.x;
            let ys = samples@.y;
            let x = crate::trainers::sampling::picked(xs, order@);
            let y = crate::trainers::sampling::picked(ys, order@);
            self.plan_spec().lemma_predictions_shape(
                *model,
                start,
                x.take(split as int),
                y.take(split as int),
                x.skip(split as int),
                y.skip(split as int),
                model.epochs as nat,
            );
            let made = MatrixView::<S>::nested(predictions@);
            assert(made.len() == predictions@.len());
            let outs = table@.positions(names_of(outputs_of(dataset@.features)))->0;
            table@.lemma_positions_within(names_of(outputs_of(dataset@.features)));
            assert(names_of(outputs_of(dataset@.features)).len() == outputs_of(
                dataset@.features,
            ).len());
            assert forall|i: int| 0 <= i < made.len() implies (#[trigger] made[i]).len()
                == outputs_of(dataset@.features).len() by {
                assert(y.skip(split as int)[i] == ys[order@[split + i] as int]);
                assert(ys[order@[split + i] as int] == table@.columns_at(outs).row(
                    order@[split + i] as int,
                ));
            }
        }
        match predictions_table(dataset, &predictions, &samples.ids, order, split) {
            Ok(predicted) => Ok((predicted, evaluation)),
            Err(error) => {
                assert(false);
                Err(error)
            },
        }
    }

    /// Trains and validates `network` on the samples that `table` holds for `dataset`,
    /// taken in a random order: see [`SplitTraining::run_on_table_in_order`]. Whatever the
    /// order that chance gives, it names each row of the table once.
    pub fn run_on_table<R: Fn(usize, EpochEvaluation<S>)>(
        &mut self,
        model: &Model,
        dataset: &Dataset,
        network: &mut Network<S>,
        table: &DataTable<S>,
        reporter: &Option<R>,
    ) -> (out: Result<(DataTable<S>, ModelEvaluation<S>), Error>)
        requires
            old(network).wf(),
            old(self).consistent(),
            reporter matches Some(report) ==> forall|epoch: usize, evaluation: EpochEvaluation<S>|
                call_requires(report, (epoch, evaluation)),
        ensures
            final(network).wf(),
            final(self).ratio == old(self).ratio,
            final(self).all_epochs_validation == old(self).all_epochs_validation,
            final(self).all_epochs_r2 == old(self).all_epochs_r2,
            exists|order: Seq<usize>|
                {
                    &&& crate::random::is_order_of(order, table@.rows)
                    &&& (out is Ok <==> (#[trigger] old(self).table_run_spec(
                        *model,
                        old(network)@,
                        dataset@.features,
                        table@,
                        order,
                    )) is Some)
                    &&& (out matches Ok(result) ==> result.1@.len() == 1 && (old(
                        self,
                    ).table_run_spec(*model, old(network)@, dataset@.features, table@, order)
                        matches Some(outcome) && outcome.network == final(network)@
                        && outcome.evaluations == result.1@[0] && result.0@ == old(
                        self,
                    ).table_predictions(dataset@.features, table@, order, outcome.predictions)))
                },
            out matches Ok(result) ==> result.0@.wf() && (final(self).model matches Some(params)
                && params@ == final(network)@.parameters()),
            out matches Err(error) ==> {
                &&& final(self).model == old(self).model
                &&& if samples_spec(dataset@.features, table@) is None {
                    error == Error::MissingRequiredColumn && final(network)@ == old(network)@
                } else {
                    error == Error::ShapeMismatch || error == Error::UninitializedState || error
                        == Error::NumericalDivergence
                }
            },
    {
        let order = crate::random::random_order(table.num_rows());
        self.run_on_table_in_order(model, dataset, network, table, &order, reporter)
    }
}

impl<S: Scalar> KFolds<S> {
    /// What a run on a table comes to when the samples are taken in the given order: what
    /// the run on the samples of the table comes to. Nothing where the table holds no
    /// samples for the dataset.
    pub open spec fn table_run_spec(
        &self,
        model: Model,
        networks: Seq<crate::network::NetworkView<S>>,
        features: Seq<FeatureView>,
        table: DataTableView<S>,
        order: Seq<usize>,
    ) -> Option<FoldsOutcome<S>> {
        match samples_spec(features, table) {
            Some(samples) => self.run_spec(model, networks, samples.x, samples.y, order),
            None => None,
        }
    }

    /// The rows of the table of the predictions of the first `n` folds: the rows of each
    /// fold, fold after fold.
    pub open spec fn rows_of_folds(
        &self,
        ids: Seq<S>,
        order: Seq<usize>,
        predictions: Seq<Seq<Seq<S>>>,
        n: nat,
    ) -> Seq<Seq<S>>
        decreases n,
    {
        if n == 0 {
            Seq::empty()
        } else {
            self.rows_of_folds(ids, order, predictions, (n - 1) as nat) + prediction_rows(
                predictions[n - 1],
                ids,
                fold_places(order, self.k as nat, (n - 1) as nat, true),
                0,
            )
        }
    }

    /// The table of the predictions of a run on a table.
    pub open spec fn table_predictions(
        &self,
        features: Seq<FeatureView>,
        table: DataTableView<S>,
        order: Seq<usize>,
        predictions: Seq<Seq<Seq<S>>>,
    ) -> DataTableView<S> {
        DataTableView::from_vectors(
            prediction_columns(features),
            self.rows_of_folds(
                samples_spec(features, table)->0.ids,
                order,
                predictions,
                self.k as nat,
            ),
        )
    }

    /// The rows of the predictions of one fold, each with what identifies its sample.
    fn rows_of_fold(
        predictions: &Vec<Vec<S>>,
        ids: &Vec<S>,
        validation: &Vec<usize>,
        rows: &mut Vec<Vec<S>>,
    )
        requires
            predictions@.len() <= validation@.len(),
            forall|i: int| 0 <= i < validation@.len() ==> (#[trigger] validation@[i]) < ids@.len(),
        ensures
            MatrixView::<S>::nested(final(rows)@) == MatrixView::<S>::nested(old(rows)@)
                + prediction_rows(MatrixView::<S>::nested(predictions@), ids@, validation@, 0),
    {
        let ghost before = MatrixView::<S>::nested(rows@);
        let ghost wanted = prediction_rows(
            MatrixView::<S>::nested(predictions@),
            ids@,
            validation@,
            0,
        );
        let mut i: usize = 0;
        while i < predictions.len()
            invariant
                i <= predictions@.len(),
                predictions@.len() <= validation@.len(),
                forall|i: int|
                    0 <= i < validation@.len() ==> (#[trigger] validation@[i]) < ids@.len(),
                wanted == prediction_rows(
                    MatrixView::<S>::nested(predictions@),
                    ids@,
                    validation@,
                    0,
                ),
                MatrixView::<S>::nested(rows@) == before + wanted.take(i as int),
            decreases predictions@.len() - i,
        {
            let mut row = crate::linalg::copied(&predictions[i]);
            row.push(ids[validation[i]]);
            assert(row@ =~= wanted[i as int]);
            let ghost so_far = rows@;
            rows.push(row);
            proof {
                so_far.lemma_push_map_commute(|vector: Vec<S>| vector@, row);
                assert(wanted.take(i + 1) =~= wanted.take(i as int).push(wanted[i as int]));
                assert(MatrixView::<S>::nested(rows@) =~= before + wanted.take(i + 1));
            }
            i += 1;
        }
        assert(wanted.take(i as int) =~= wanted);
    }

    /// Trains and validates a network for each fold on the samples that `table` holds for
    /// `dataset`, taken in the given order: see [`KFolds::run_in_order`]. Where the table
    /// holds no samples for the dataset, that is reported before any training. Returns the
    /// table of the predictions that the last epoch of each fold made for its validation
    /// samples, fold after fold, with what identifies each sample in the last column, and
    /// the records of the epochs of each fold.
    pub fn run_on_table_in_order<R: Fn(usize, EpochEvaluation<S>)>(
        &mut self,
        model: &Model,
        dataset: &Dataset,
        networks: &mut Vec<Network<S>>,
        table: &DataTable<S>,
        order: &Vec<usize>,
        reporter: &Option<R>,
    ) -> (out: Result<(DataTable<S>, ModelEvaluation<S>), Error>)
        requires
            forall|f: int| 0 <= f < old(networks)@.len() ==> (#[trigger] old(networks)@[f]).wf(),
            old(self).consistent(),
            reporter matches Some(report) ==> forall|epoch: usize, evaluation: EpochEvaluation<S>|
                call_requires(report, (epoch, evaluation)),
        ensures
            forall|f: int| 0 <= f < final(networks)@.len() ==> (#[trigger] final(networks)@[f]).wf(),
            final(networks)@.len() == old(networks)@.len(),
            final(self).k == old(self).k,
            final(self).return_best == old(self).return_best,
            final(self).return_avg == old(self).return_avg,
            final(self).all_epochs_validation == old(self).all_epochs_validation,
            final(self).all_epochs_r2 == old(self).all_epochs_r2,
            out is Ok <==> (old(self).table_run_spec(
                *model,
                Self::views(old(networks)@),
                dataset@.features,
                table@,
                order@,
            ) matches Some(outcome) && old(self).keeps(outcome)),
            out matches Ok(result) ==> {
                &&& old(self).table_run_spec(
                    *model,
                    Self::views(old(networks)@),
                    dataset@.features,
                    table@,
                    order@,
                ) matches Some(outcome) && outcome.networks == Self::views(final(networks)@)
                    && outcome.evaluations == result.1@ && result.0@ == old(
                    self,
                ).table_predictions(dataset@.features, table@, order@, outcome.predictions)
                &&& result.0@.wf()
            },
            out matches Err(error) ==> {
                &&& final(self).best == old(self).best
                &&& final(self).avg == old(self).avg
                &&& if samples_spec(dataset@.features, table@) is None {
                    error == Error::MissingRequiredColumn && Self::views(final(networks)@)
                        == Self::views(old(networks)@)
                } else {
                    error == Error::ShapeMismatch || error == Error::UninitializedState || error
                        == Error::NumericalDivergence || error == Error::ParameterCountMismatch
                }
            },
    {
        let samples = match samples_of(dataset, table) {
            Ok(samples) => samples,
            Err(error) => {
                return Err(error);
            },
        };
        let ghost start = Self::views(networks@);
        let ghost features = dataset@.features;
        let ghost before = *self;
        let (predictions, evaluation) = match self.run_in_order(
            model,
            networks,
            &samples.x,
            &samples.y,
            order,
            reporter,
        ) {
            Ok(result) => result,
            Err(error) => {
                return Err(error);
            },
        };
        let ghost made = Self::lists(predictions@);
        let ghost outs = table@.positions(names_of(outputs_of(features)))->0;
        proof {
            before.lemma_folds_outcome(
                *model,
                start,
                samples@.x,
                samples@.y,
                order@,
                before.k as nat,
            );
            table@.lemma_positions_within(names_of(outputs_of(features)));
            assert(names_of(outputs_of(features)).len() == outputs_of(features).len());
            assert(made.len() == predictions@.len());
        }
        let mut rows: Vec<Vec<S>> = Vec::new();
        assert(MatrixView::<S>::nested(rows@) =~= Seq::<Seq<S>>::empty());
        let mut fold: usize = 0;
        while fold < self.k
            invariant
                fold <= self.k,
                self.k == before.k,
                self.k > 0,
                predictions@.len() == self.k,
                start.len() == self.k,
                made == Self::lists(predictions@),
                features == dataset@.features,
                samples_spec(features, table@) == Some(samples@),
                samples.ids@.len() == table@.rows,
                samples.x@.len() == table@.rows,
                samples.y@.len() == table@.rows,
                table@.wf(),
                outs == table@.positions(names_of(outputs_of(features)))->0,
                outs.len() == outputs_of(features).len(),
                forall|i: int| 0 <= i < order@.len() ==> (#[trigger] order@[i]) < samples.x@.len(),
                forall|f: int|
                    0 <= f < self.k ==> ((#[trigger] before.fold_spec(
                        *model,
                        start[f],
                        samples@.x,
                        samples@.y,
                        order@,
                        f as nat,
                    )) matches Some(run) && run.predictions == made[f]),
                MatrixView::<S>::nested(rows@) == before.rows_of_folds(
                    samples.ids@,
                    order@,
                    made,
                    fold as nat,
                ),
                forall|r: int|
                    0 <= r < rows@.len() ==> (#[trigger] rows@[r])@.len() == outputs_of(
                        features,
                    ).len() + 1,
            decreases self.k - fold,
        {
            let validation = Self::fold_part(order, self.k, fold, true);
            proof {
                assert forall|i: int| 0 <= i < validation@.len() implies (
                #[trigger] validation@[i]) < samples.ids@.len() by {
                    assert(order@.contains(validation@[i]));
                }
                let training = fold_places(order@, self.k as nat, fold as nat, false);
                let at = fold as int;
                let run = before.fold_spec(
                    *model,
                    start[at],
                    samples@.x,
                    samples@.y,
                    order@,
                    at as nat,
                );
                assert(run matches Some(fold_run) && fold_run.predictions == made[fold as int]);
                before.plan_spec().lemma_predictions_shape(
                    *model,
                    start[fold as int],
                    crate::trainers::sampling::picked(samples@.x, training),
                    crate::trainers::sampling::picked(samples@.y, training),
                    crate::trainers::sampling::picked(samples@.x, validation@),
                    crate::trainers::sampling::picked(samples@.y, validation@),
                    model.epochs as nat,
                );
                assert(made[fold as int] == MatrixView::<S>::nested(predictions@[fold as int]@));
                assert(MatrixView::<S>::nested(predictions@[fold as int]@).len()
                    == predictions@[fold as int]@.len());
            }
            let ghost so_far = rows@;
            Self::rows_of_fold(&predictions[fold], &samples.ids, &validation, &mut rows);
            proof {
                let added = prediction_rows(
                    MatrixView::<S>::nested(predictions@[fold as int]@),
                    samples.ids@,
                    validation@,
                    0,
                );
                assert(MatrixView::<S>::nested(rows@) == MatrixView::<S>::nested(so_far) + added);
                assert forall|r: int| 0 <= r < rows@.len() implies (#[trigger] rows@[r])@.len()
                    == outputs_of(features).len() + 1 by {
                    assert(MatrixView::<S>::nested(rows@)[r] == rows@[r]@);
                    if r < so_far.len() {
                        assert(MatrixView::<S>::nested(so_far)[r] == so_far[r]@);
                    } else {
                        let i = r - so_far.len();
                        assert(MatrixView::<S>::nested(rows@)[r] == added[i]);
                        assert(crate::trainers::sampling::picked(samples@.y, validation@)[i]
                            == samples@.y[validation@[i] as int]);
                        assert(samples@.y[validation@[i] as int] == table@.columns_at(outs).row(
                            validation@[i] as int,
                        ));
                    }
                }
            }
            fold += 1;
        }
        let mut names = dataset.pred_out_features_names();
        proof {
            assert(texts(names@) =~= prediction_names_of(outputs_of(features)));
        }
        let id = match id_column(dataset) {
            Some(id) => id,
            None => {
                assert(false);
                return Err(Error::MissingRequiredColumn);
            },
        };
        names.push(id);
        proof {
            assert(texts(names@) =~= prediction_columns(features));
        }
        match DataTable::from_vectors(&names, &rows) {
            Ok(predicted) => Ok((predicted, evaluation)),
            Err(error) => {
                assert(false);
                Err(error)
            },
        }
    }

    /// Trains and validates a network for each fold on the samples that `table` holds for
    /// `dataset`, taken in a random order: see [`KFolds::run_on_table_in_order`]. Whatever
    /// the order that chance gives, it names each row of the table once.
    pub fn run_on_table<R: Fn(usize, EpochEvaluation<S>)>(
        &mut self,
        model: &Model,
        dataset: &Dataset,
        networks: &mut Vec<Network<S>>,
        table: &DataTable<S>,
        reporter: &Option<R>,
    ) -> (out: Result<(DataTable<S>, ModelEvaluation<S>), Error>)
        requires
            forall|f: int| 0 <= f < old(networks)@.len() ==> (#[trigger] old(networks)@[f]).wf(),
            old(self).consistent(),
            reporter matches Some(report) ==> forall|epoch: usize, evaluation: EpochEvaluation<S>|
                call_requires(report, (epoch, evaluation)),
        ensures
            forall|f: int| 0 <= f < final(networks)@.len() ==> (#[trigger] final(networks)@[f]).wf(),
            final(networks)@.len() == old(networks)@.len(),
            final(self).k == old(self).k,
            final(self).return_best == old(self).return_best,
            final(self).return_avg == old(self).return_avg,
            final(self).all_epochs_validation == old(self).all_epochs_validation,
            final(self).all_epochs_r2 == old(self).all_epochs_r2,
            exists|order: Seq<usize>|
                {
                    &&& crate::random::is_order_of(order, table@.rows)
                    &&& (out is Ok <==> ((#[trigger] old(self).table_run_spec(
                        *model,
                        Self::views(old(networks)@),
                        dataset@.features,
                        table@,
                        order,
                    )) matches Some(outcome) && old(self).keeps(outcome)))
                    &&& (out matches Ok(result) ==> (old(self).table_run_spec(
                        *model,
                        Self::views(old(networks)@),
                        dataset@.features,
                        table@,
                        order,
                    ) matches Some(outcome) && outcome.networks == Self::views(final(networks)@)
                        && outcome.evaluations == result.1@ && result.0@ == old(
                        self,
                    ).table_predictions(dataset@.features, table@, order, outcome.predictions)))
                },
            out matches Ok(result) ==> result.0@.wf(),
            out matches Err(error) ==> {
                &&& final(self).best == old(self).best
                &&& final(self).avg == old(self).avg
                &&& if samples_spec(dataset@.features, table@) is None {
                    error == Error::MissingRequiredColumn && Self::views(final(networks)@)
                        == Self::views(old(networks)@)
                } else {
                    error == Error::ShapeMismatch || error == Error::UninitializedState || error
                        == Error::NumericalDivergence || error == Error::ParameterCountMismatch
                }
            },
    {
        let order = crate::random::random_order(table.num_rows());
        self.run_on_table_in_order(model, dataset, networks, table, &order, reporter)
    }
}

} // verus!
