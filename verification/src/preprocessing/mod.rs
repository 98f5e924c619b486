//! Preparing tables for training: transformations, and pipelines of them.

pub mod map;
pub mod normalize;

use crate::dataset::{names_of, Dataset, Feature, FeatureView};
use crate::datatable::{borrowed_texts, DataTable, DataTableView};
use crate::error::Error;
use crate::preprocessing::map::{
    mapped_tables, without_mappings, MapOpView, MapSelectorView, ValueMap,
};
use crate::preprocessing::normalize::{
    denormalized_tables, fitted, normalized_features, normalized_tables, Normalize,
};
use crate::scalar::Scalar;
use vstd::prelude::*;

verus! {

/// Whether a pipeline keeps what it computes for later runs, and where.
#[derive(Debug)]
pub enum CachedConfig {
    /// Nothing is kept.
    NotCached,
    /// What is computed is kept in `working_dir`, under `id`.
    Cached { id: String, working_dir: String },
}

/// A transformation of a table and of the description of its dataset.
#[derive(Debug)]
pub enum Transformation<S: Scalar> {
    /// Maps the values of the features that ask for it.
    MapValues(ValueMap),
    /// Normalizes the columns of the features that ask for it.
    Normalize(Normalize<S>),
}

/// Mathematical model of a [`Transformation`]: what it keeps of its last run.
pub enum TransformationView<S: Scalar> {
    MapValues(Seq<(Seq<char>, (MapSelectorView, MapOpView))>),
    Normalize(Seq<(Seq<char>, (S, S))>),
}

/// A description of a dataset with the table of its samples.
pub struct Described<S: Scalar> {
    pub features: Seq<FeatureView>,
    pub table: DataTableView<S>,
}

impl<S: Scalar> View for Transformation<S> {
    type V = TransformationView<S>;

    open spec fn view(&self) -> TransformationView<S> {
        match self {
            Transformation::MapValues(map) => TransformationView::MapValues(map.mapped()),
            Transformation::Normalize(normalize) => TransformationView::Normalize(normalize@),
        }
    }
}

impl<S: Scalar> TransformationView<S> {
    /// What the transformation makes of a described table. Nothing where it fails.
    pub open spec fn transformed(self, data: Described<S>) -> Option<Described<S>> {
        match self {
            TransformationView::MapValues(_) => match mapped_tables(data.features, data.table) {
                Some(table) => Some(Described { features: without_mappings(data.features), table }),
                None => None,
            },
            TransformationView::Normalize(_) => match fitted(data.features, data.table) {
                Some(entries) => match normalized_tables(data.features, entries, data.table) {
                    Some(table) => Some(
                        Described { features: normalized_features(data.features), table },
                    ),
                    None => None,
                },
                None => None,
            },
        }
    }

    /// The transformation after it has transformed a described table: it keeps what it
    /// found of the table.
    pub open spec fn after(self, data: Described<S>) -> Self {
        match self {
            TransformationView::MapValues(_) => TransformationView::MapValues(
                crate::preprocessing::map::mappings_of(data.features),
            ),
            TransformationView::Normalize(_) => TransformationView::Normalize(
                fitted(data.features, data.table)->0,
            ),
        }
    }

    /// What the transformation makes of a table when it takes back what it did.
    pub open spec fn reverted(self, table: DataTableView<S>) -> DataTableView<S> {
        match self {
            TransformationView::MapValues(_) => table,
            TransformationView::Normalize(entries) => denormalized_tables(
                table,
                entries,
                entries.len(),
            ),
        }
    }
}

impl<S: Scalar> Transformation<S> {
    /// The name under which the transformation is known.
    pub fn get_name(&self) -> (name: String)
        ensures
            name@ == match self {
                Transformation::MapValues(_) => "map"@,
                Transformation::Normalize(_) => "norm"@,
            },
    {
        match self {
            Transformation::MapValues(map) => map.get_name(),
            Transformation::Normalize(normalize) => normalize.get_name(),
        }
    }

    /// Transforms the table, and the description of its dataset with it.
    pub fn transform(&mut self, dataset_config: &Dataset, data: &DataTable<S>) -> (out: Result<
        (Dataset, DataTable<S>),
        Error,
    >)
        ensures
            final(self)@ is MapValues <==> old(self)@ is MapValues,
            out is Ok <==> old(self)@.transformed(
                Described { features: dataset_config@.features, table: data@ },
            ) is Some,
            out matches Ok(done) ==> {
                &&& done.1@.wf()
                &&& done.0@.name == dataset_config@.name
                &&& old(self)@.transformed(
                    Described { features: dataset_config@.features, table: data@ },
                ) == Some(Described { features: done.0@.features, table: done.1@ })
                &&& final(self)@ == old(self)@.after(
                    Described { features: dataset_config@.features, table: data@ },
                )
            },
            out matches Err(error) ==> error == Error::MissingRequiredColumn || error
                == Error::ShapeMismatch || error == Error::UninitializedState,
            out is Err ==> final(self)@ == old(self)@,
    {
        match self {
            Transformation::MapValues(map) => map.transform(dataset_config, data),
            Transformation::Normalize(normalize) => normalize.transform(dataset_config, data),
        }
    }

    /// Takes back from the table what the last transformation did to it, as far as that
    /// can be taken back.
    pub fn reverse_columnswise(&self, data: &DataTable<S>) -> (out: DataTable<S>)
        ensures
            out@.wf(),
            out@ == self@.reverted(data@),
    {
        match self {
            Transformation::MapValues(map) => map.reverse_columnswise(data),
            Transformation::Normalize(normalize) => normalize.reverse_columnswise(data),
        }
    }
}

/// The models of a list of transformations.
pub open spec fn transformations_view<S: Scalar>(
    transformations: Seq<Transformation<S>>,
) -> Seq<TransformationView<S>> {
    transformations.map_values(|transformation: Transformation<S>| transformation@)
}

/// What the first `n` transformations make of a described table, one after the other.
/// Nothing where one of them fails.
pub open spec fn transformed_by<S: Scalar>(
    transformations: Seq<TransformationView<S>>,
    data: Described<S>,
    n: nat,
) -> Option<Described<S>>
    decreases n,
{
    if n == 0 {
        Some(data)
    } else {
        match transformed_by(transformations, data, (n - 1) as nat) {
            Some(so_far) => transformations[n - 1].transformed(so_far),
            None => None,
        }
    }
}

/// Once a transformation has failed, the pipeline has.
pub proof fn lemma_transformed_stays_failed<S: Scalar>(
    transformations: Seq<TransformationView<S>>,
    data: Described<S>,
    failed: nat,
    n: nat,
)
    requires
        failed <= n,
        transformed_by(transformations, data, failed) is None,
    ensures
        transformed_by(transformations, data, n) is None,
    decreases n,
{
    if failed < n {
        lemma_transformed_stays_failed(transformations, data, failed, (n - 1) as nat);
    }
}

/// What a transformation makes of a table depends on its kind, not on what it keeps.
pub proof fn lemma_transformed_by_kind<S: Scalar>(
    first: Seq<TransformationView<S>>,
    second: Seq<TransformationView<S>>,
    data: Described<S>,
    n: nat,
)
    requires
        n <= first.len(),
        n <= second.len(),
        forall|i: int| 0 <= i < n ==> ((#[trigger] first[i]) is MapValues <==> second[i] is MapValues),
    ensures
        transformed_by(first, data, n) == transformed_by(second, data, n),
    decreases n,
{
    if n > 0 {
        lemma_transformed_by_kind(first, second, data, (n - 1) as nat);
    }
}

/// What the transformations make of a table when they take back what they did, the last
/// `n` of them, last to first.
pub open spec fn reverted_by<S: Scalar>(
    transformations: Seq<TransformationView<S>>,
    table: DataTableView<S>,
    n: nat,
) -> DataTableView<S>
    decreases n,
{
    if n == 0 {
        table
    } else {
        transformations[transformations.len() - n].reverted(
            reverted_by(transformations, table, (n - 1) as nat),
        )
    }
}

/// The features that are used in the model, in order.
pub open spec fn used_features(features: Seq<FeatureView>) -> Seq<FeatureView> {
    features.filter(|feature: FeatureView| feature.used_in_model)
}

/// What a pipeline makes of a described table: the transformations are applied one after
/// the other, and the features that are used in the model are kept, with their columns.
/// Nothing where a transformation fails, or where the table lacks the column of a
/// feature that is kept.
pub open spec fn ran<S: Scalar>(
    transformations: Seq<TransformationView<S>>,
    data: Described<S>,
) -> Option<Described<S>> {
    match transformed_by(transformations, data, transformations.len()) {
        Some(done) => {
            let kept = used_features(done.features);
            match done.table.positions(names_of(kept)) {
                Some(places) => Some(
                    Described { features: kept, table: done.table.columns_at(places) },
                ),
                None => None,
            }
        },
        None => None,
    }
}

/// A list of transformations, with the table that they are to be applied to.
#[derive(Debug)]
pub struct Pipeline<S: Scalar> {
    /// The transformations, in the order in which they are applied.
    pub transformations: Vec<Transformation<S>>,
    /// Whether what is computed is kept for later runs.
    pub cached_config: CachedConfig,
    /// The description of the dataset, once data is loaded.
    pub dataset_config: Option<Dataset>,
    /// The table of the samples, once data is loaded.
    pub data: Option<DataTable<S>>,
}

impl<S: Scalar> Pipeline<S> {
    /// The models of the transformations of the pipeline.
    pub open spec fn steps(&self) -> Seq<TransformationView<S>> {
        transformations_view(self.transformations@)
    }

    /// A pipeline without transformations and without data, that keeps nothing.
    pub fn new() -> (out: Self)
        ensures
            out.steps() == Seq::<TransformationView<S>>::empty(),
            out.cached_config is NotCached,
            out.dataset_config is None,
            out.data is None,
    {
        let out = Pipeline {
            transformations: Vec::new(),
            cached_config: CachedConfig::NotCached,
            dataset_config: None,
            data: None,
        };
        assert(out.steps() =~= Seq::<TransformationView<S>>::empty());
        out
    }

    /// Asks the pipeline to keep what it computes in `working_dir`.
    pub fn cached(&mut self, working_dir: &str)
        ensures
            final(self).cached_config matches CachedConfig::Cached { id, working_dir: dir }
                && id@ == Seq::<char>::empty() && dir@ == working_dir@,
            final(self).transformations == old(self).transformations,
            final(self).dataset_config == old(self).dataset_config,
            final(self).data == old(self).data,
    {
        self.cached_config =
        CachedConfig::Cached { id: String::new(), working_dir: String::from_str(working_dir) };
    }

    /// A pipeline that applies each transformation once: first the mapping of values,
    /// then the normalization.
    pub fn basic_single_pass() -> (out: Self)
        ensures
            out.steps() == seq![
                TransformationView::<S>::MapValues(Seq::empty()),
                TransformationView::<S>::Normalize(Seq::empty()),
            ],
            out.cached_config is NotCached,
            out.dataset_config is None,
            out.data is None,
    {
        let mut out = Pipeline::new();
        out.push(Transformation::MapValues(ValueMap::new()));
        out.push(Transformation::Normalize(Normalize::new()));
        assert(out.steps() =~= seq![
            TransformationView::<S>::MapValues(Seq::empty()),
            TransformationView::<S>::Normalize(Seq::empty()),
        ]);
        out
    }

    /// Adds a transformation after the last one.
    pub fn push(&mut self, transformation: Transformation<S>)
        ensures
            final(self).steps() == old(self).steps().push(transformation@),
            final(self).cached_config == old(self).cached_config,
            final(self).dataset_config == old(self).dataset_config,
            final(self).data == old(self).data,
    {
        self.transformations.push(transformation);
        assert(self.steps() =~= old(self).steps().push(transformation@));
    }

    /// Adds a transformation after the last one.
    pub fn add(&mut self, transformation: Transformation<S>)
        ensures
            final(self).steps() == old(self).steps().push(transformation@),
            final(self).cached_config == old(self).cached_config,
            final(self).dataset_config == old(self).dataset_config,
            final(self).data == old(self).data,
    {
        self.push(transformation);
    }

    /// Adds a transformation before the first one.
    pub fn prepend(&mut self, transformation: Transformation<S>)
        ensures
            final(self).steps() == seq![transformation@] + old(self).steps(),
            final(self).cached_config == old(self).cached_config,
            final(self).dataset_config == old(self).dataset_config,
            final(self).data == old(self).data,
    {
        self.transformations.insert(0, transformation);
        assert(self.steps() =~= seq![transformation@] + old(self).steps());
    }

    /// Gives the pipeline the table to work on, with the description of its dataset: the
    /// columns of the features of the dataset are taken, in the order of the features.
    /// The table must have them all.
    pub fn load(&mut self, data: &DataTable<S>, dataset_config: &Dataset) -> (out: Result<
        (),
        Error,
    >)
        ensures
            final(self).transformations == old(self).transformations,
            final(self).cached_config == old(self).cached_config,
            out is Ok <==> data@.positions(names_of(dataset_config@.features)) is Some,
            out is Ok ==> {
                &&& final(self).dataset_config matches Some(kept) && kept@ == dataset_config@
                &&& final(self).data matches Some(table) && table@.wf() && table@
                    == data@.columns_at(data@.positions(names_of(dataset_config@.features))->0)
            },
            out matches Err(error) ==> {
                &&& error == Error::MissingRequiredColumn
                &&& final(self).dataset_config == old(self).dataset_config
                &&& final(self).data == old(self).data
            },
    {
        let names = dataset_config.feature_names();
        proof {
            assert(borrowed_texts(names@) =~= names_of(dataset_config@.features));
        }
        let table = match data.select_columns(names.as_slice()) {
            Ok(table) => table,
            Err(error) => {
                return Err(error);
            },
        };
        let kept = dataset_config.clone();
        assert(kept@ == dataset_config@);
        self.data = Some(table);
        self.dataset_config = Some(kept);
        Ok(())
    }

    /// Applies the transformations to the table that was loaded, one after the other, and
    /// keeps the features that are used in the model, with their columns. Returns the
    /// description of the dataset and the table that come of it. Data must have been
    /// loaded.
    pub fn run(&mut self) -> (out: Result<(Dataset, DataTable<S>), Error>)
        ensures
            final(self).cached_config == old(self).cached_config,
            final(self).dataset_config == old(self).dataset_config,
            final(self).data == old(self).data,
            final(self).steps().len() == old(self).steps().len(),
            forall|i: int|
                0 <= i < old(self).steps().len() ==> ((#[trigger] final(self).steps()[i]) is MapValues
                    <==> old(self).steps()[i] is MapValues),
            out is Ok ==> forall|i: int|
                0 <= i < old(self).steps().len() ==> (#[trigger] final(self).steps()[i]) == old(
                    self,
                ).steps()[i].after(
                    transformed_by(
                        old(self).steps(),
                        Described {
                            features: old(self).dataset_config->0@.features,
                            table: old(self).data->0@,
                        },
                        i as nat,
                    )->0,
                ),
            match (old(self).dataset_config, old(self).data) {
                (Some(dataset_config), Some(data)) => {
                    let start = Described { features: dataset_config@.features, table: data@ };
                    &&& out is Ok <==> ran(old(self).steps(), start) is Some
                    &&& out matches Ok(done) ==> done.1@.wf() && done.0@.name
                        == dataset_config@.name && ran(old(self).steps(), start) == Some(
                        Described { features: done.0@.features, table: done.1@ },
                    )
                    &&& out matches Err(error) ==> error == Error::MissingRequiredColumn || error
                        == Error::ShapeMismatch || error == Error::UninitializedState
                },
                _ => out matches Err(error) && error == Error::UninitializedState,
            },
    {
        let (start_config, start_data) = match (&self.dataset_config, &self.data) {
            (Some(dataset_config), Some(data)) => (dataset_config, data),
            _ => {
                return Err(Error::UninitializedState);
            },
        };
        let ghost steps = self.steps();
        let ghost start = Described { features: start_config@.features, table: start_data@ };
        let mut dataset_config = start_config.clone();
        let mut data = start_data.clone();
        assert(dataset_config@ == start_config@);
        let mut i: usize = 0;
        while i < self.transformations.len()
            invariant
                i <= self.transformations@.len(),
                steps == old(self).steps(),
                self.cached_config == old(self).cached_config,
                self.dataset_config == old(self).dataset_config,
                self.data == old(self).data,
                old(self).dataset_config matches Some(config) && start.features
                    == config@.features && dataset_config@.name == config@.name,
                old(self).data matches Some(table) && start.table == table@,
                self.steps().len() == steps.len(),
                forall|k: int|
                    0 <= k < steps.len() ==> ((#[trigger] self.steps()[k]) is MapValues
                        <==> steps[k] is MapValues),
                data@.wf(),
                transformed_by(steps, start, i as nat) == Some(
                    Described { features: dataset_config@.features, table: data@ },
                ),
                forall|k: int|
                    0 <= k < i ==> (#[trigger] self.steps()[k]) == steps[k].after(
                        transformed_by(steps, start, k as nat)->0,
                    ),
                forall|k: int| i <= k < steps.len() ==> (#[trigger] self.steps()[k]) == steps[k],
            decreases self.transformations@.len() - i,
        {
            let ghost before = self.steps();
            let ghost entering = Described::<S> { features: dataset_config@.features, table: data@ };
            proof {
                lemma_transformed_by_kind(before, steps, start, (i + 1) as nat);
                assert(before[i as int] == steps[i as int]);
            }
            let result = self.transformations[i].transform(&dataset_config, &data);
            proof {
                assert forall|k: int| 0 <= k < steps.len() && k != i implies (
                #[trigger] self.steps()[k]) == before[k] by {}
                if result is Ok {
                    assert(self.steps()[i as int] == steps[i as int].after(entering));
                }
                assert(self.steps().len() == steps.len());
                assert forall|k: int| 0 <= k < steps.len() implies ((#[trigger] self.steps()[k])
                    is MapValues <==> steps[k] is MapValues) by {
                    if k != i {
                        assert(self.steps()[k] == before[k]);
                    }
                }
            }
            match result {
                Ok(done) => {
                    dataset_config = done.0;
                    data = done.1;
                },
                Err(error) => {
                    proof {
                        lemma_transformed_stays_failed(
                            steps,
                            start,
                            (i + 1) as nat,
                            steps.len(),
                        );
                    }
                    return Err(error);
                },
            }
            i += 1;
        }
        let kept = Self::used(&dataset_config.features);
        let kept_config = Dataset { name: dataset_config.name.clone(), features: kept };
        let names = kept_config.feature_names();
        proof {
            assert(borrowed_texts(names@) =~= names_of(used_features(dataset_config@.features)));
        }
        match data.select_columns(names.as_slice()) {
            Ok(table) => Ok((kept_config, table)),
            Err(error) => Err(error),
        }
    }

    /// The features of a list that are used in the model, in order.
    fn used(features: &Vec<Feature>) -> (kept: Vec<Feature>)
        ensures
            crate::dataset::features_view(kept@) == used_features(
                crate::dataset::features_view(features@),
            ),
    {
        let ghost views = crate::dataset::features_view(features@);
        let mut kept: Vec<Feature> = Vec::new();
        let mut i: usize = 0;
        proof {
            assert(views.take(0) =~= Seq::<FeatureView>::empty());
            assert(crate::dataset::features_view(kept@) =~= Seq::<FeatureView>::empty());
        }
        while i < features.len()
            invariant
                i <= features@.len(),
                views == crate::dataset::features_view(features@),
                crate::dataset::features_view(kept@) == used_features(views.take(i as int)),
            decreases features@.len() - i,
        {
            let feature = &features[i];
            let ghost before = kept@;
            proof {
                let seen = views.take(i as int);
                assert(views.take(i + 1) =~= seen.push(feature@));
                seen.lemma_filter_push(feature@, |feature: FeatureView| feature.used_in_model);
            }
            if feature.used_in_model {
                kept.push(feature.clone());
                proof {
                    before.lemma_push_map_commute(|feature: Feature| feature@, kept@.last());
                }
            }
            i += 1;
        }
        assert(views.take(i as int) =~= views);
        kept
    }

    /// Takes back from the table what the transformations did on their last run, last
    /// transformation first.
    pub fn revert(&self, data: &DataTable<S>) -> (out: DataTable<S>)
        ensures
            out@.wf(),
            out@ == reverted_by(self.steps(), data@, self.steps().len()),
    {
        let mut table = data.clone();
        let count = self.transformations.len();
        let mut n: usize = 0;
        while n < count
            invariant
                n <= count,
                count == self.transformations@.len(),
                table@.wf(),
                table@ == reverted_by(self.steps(), data@, n as nat),
            decreases count - n,
        {
            let transformation = &self.transformations[count - 1 - n];
            assert(self.steps()[count - 1 - n] == transformation@);
            table = transformation.reverse_columnswise(&table);
            n += 1;
        }
        table
    }
}

} // verus!
