//! Bringing the columns of a table into the range between zero and one.
//!
//! A feature that asks for it has its column normalized by the smallest and the largest
//! number that the column holds. The two numbers are kept under the name of the feature, so
//! that predictions can be brought back into the range of the data.

use crate::dataset::{features_view, Dataset, DatasetView, Feature, FeatureView};
use crate::datatable::{DataTable, DataTableView};
use crate::error::Error;
use crate::scalar::Scalar;
use vstd::prelude::*;

verus! {

/// The smallest and the largest number of a column, kept under the name of its feature.
pub type Ends<S> = (String, (S, S));

/// The model of what is kept for a feature.
pub open spec fn ends_view<S: Scalar>(entry: Ends<S>) -> (Seq<char>, (S, S)) {
    (entry.0@, entry.1)
}

/// The place of the first entry kept under `name`, if there is one.
pub open spec fn place_of<S: Scalar>(entries: Seq<(Seq<char>, (S, S))>, name: Seq<char>) -> Option<
    int,
>
    decreases entries.len(),
{
    if entries.len() == 0 {
        None
    } else {
        match place_of(entries.drop_last(), name) {
            Some(place) => Some(place),
            None => if entries.last().0 == name {
                Some(entries.len() - 1)
            } else {
                None
            },
        }
    }
}

/// The place that is found is a place of the list, and holds the name.
pub proof fn lemma_place_of<S: Scalar>(entries: Seq<(Seq<char>, (S, S))>, name: Seq<char>)
    ensures
        place_of(entries, name) matches Some(place) ==> 0 <= place < entries.len()
            && entries[place].0 == name,
    decreases entries.len(),
{
    if entries.len() > 0 {
        lemma_place_of(entries.drop_last(), name);
    }
}

/// A place found among the first entries is the place found in the list.
pub proof fn lemma_place_stays<S: Scalar>(
    entries: Seq<(Seq<char>, (S, S))>,
    name: Seq<char>,
    n: int,
)
    requires
        0 <= n <= entries.len(),
        place_of(entries.take(n), name) is Some,
    ensures
        place_of(entries, name) == place_of(entries.take(n), name),
    decreases entries.len() - n,
{
    if n < entries.len() {
        assert(entries.take(n + 1).drop_last() =~= entries.take(n));
        lemma_place_stays(entries, name, n + 1);
    } else {
        assert(entries.take(n) =~= entries);
    }
}

/// The list with `ends` kept under `name`: in the place of the first entry of that name, or
/// at the end where there is none.
pub open spec fn kept_under<S: Scalar>(
    entries: Seq<(Seq<char>, (S, S))>,
    name: Seq<char>,
    ends: (S, S),
) -> Seq<(Seq<char>, (S, S))> {
    match place_of(entries, name) {
        Some(place) => entries.update(place, (name, ends)),
        None => entries.push((name, ends)),
    }
}

/// What is kept for the features of a list that ask to be normalized: for each of them, in
/// order, the smallest and the largest number of its column. Nothing where the table lacks
/// such a column, or has no rows.
pub open spec fn fitted<S: Scalar>(features: Seq<FeatureView>, table: DataTableView<S>) -> Option<
    Seq<(Seq<char>, (S, S))>,
>
    decreases features.len(),
{
    if features.len() == 0 {
        Some(Seq::empty())
    } else {
        match fitted(features.drop_last(), table) {
            Some(entries) => if features.last().normalized {
                if table.has(features.last().name) && table.rows > 0 {
                    Some(
                        kept_under(
                            entries,
                            features.last().name,
                            DataTableView::min_max(table.column(features.last().name)->0),
                        ),
                    )
                } else {
                    None
                }
            } else {
                Some(entries)
            },
            None => None,
        }
    }
}

/// Once a column is missing, nothing is fitted.
pub proof fn lemma_fitted_stays_failed<S: Scalar>(
    features: Seq<FeatureView>,
    table: DataTableView<S>,
    n: int,
)
    requires
        0 <= n <= features.len(),
        fitted(features.take(n), table) is None,
    ensures
        fitted(features, table) is None,
    decreases features.len() - n,
{
    if n < features.len() {
        assert(features.take(n + 1).drop_last() =~= features.take(n));
        lemma_fitted_stays_failed(features, table, n + 1);
    } else {
        assert(features.take(n) =~= features);
    }
}

/// The feature that takes the place of `feature` once its column is normalized: the one
/// that the feature names for it, or the feature itself, no longer asking. None where the
/// feature does not ask to be normalized.
pub open spec fn normalized_feature(feature: FeatureView) -> Option<FeatureView> {
    match feature.with_normalized {
        Some(named) => Some(*named),
        None => if feature.normalized {
            Some(FeatureView { normalized: false, ..feature })
        } else {
            None
        },
    }
}

/// The features with the normalized ones in the place of those that asked for it.
pub open spec fn normalized_features(features: Seq<FeatureView>) -> Seq<FeatureView> {
    features.map_values(
        |feature: FeatureView|
            match normalized_feature(feature) {
                Some(normalized) => normalized,
                None => feature,
            },
    )
}

/// The table after the normalization that `feature` asks for: its column is normalized by
/// what is kept for the feature, and takes the name of the feature that stands for it from
/// now on. The table as it is where the feature asks for none. Nothing where nothing is
/// kept for the feature, or the table lacks the column.
pub open spec fn normalized_table<S: Scalar>(
    table: DataTableView<S>,
    entries: Seq<(Seq<char>, (S, S))>,
    feature: FeatureView,
) -> Option<DataTableView<S>> {
    match normalized_feature(feature) {
        Some(normalized) => match (place_of(entries, feature.name), table.position(feature.name)) {
            (Some(place), Some(column)) => {
                let ends = entries[place].1;
                Some(
                    table.with_column(
                        feature.name,
                        DataTableView::normalized_column(table.columns[column], ends.0, ends.1),
                    ).renamed(column, normalized.name),
                )
            },
            _ => None,
        },
        None => Some(table),
    }
}

/// The table after the normalizations that the features ask for, feature after feature.
pub open spec fn normalized_tables<S: Scalar>(
    features: Seq<FeatureView>,
    entries: Seq<(Seq<char>, (S, S))>,
    table: DataTableView<S>,
) -> Option<DataTableView<S>>
    decreases features.len(),
{
    if features.len() == 0 {
        Some(table)
    } else {
        match normalized_tables(features.drop_last(), entries, table) {
            Some(so_far) => normalized_table(so_far, entries, features.last()),
            None => None,
        }
    }
}

/// Once a normalization has failed, the normalizations have.
pub proof fn lemma_normalized_stays_failed<S: Scalar>(
    features: Seq<FeatureView>,
    entries: Seq<(Seq<char>, (S, S))>,
    table: DataTableView<S>,
    n: int,
)
    requires
        0 <= n <= features.len(),
        normalized_tables(features.take(n), entries, table) is None,
    ensures
        normalized_tables(features, entries, table) is None,
    decreases features.len() - n,
{
    if n < features.len() {
        assert(features.take(n + 1).drop_last() =~= features.take(n));
        lemma_normalized_stays_failed(features, entries, table, n + 1);
    } else {
        assert(features.take(n) =~= features);
    }
}

/// The table with each column for which something is kept brought back from the range
/// between zero and one, entry after entry, for the first `n` entries. Entries for columns
/// that the table lacks are passed over.
pub open spec fn denormalized_tables<S: Scalar>(
    table: DataTableView<S>,
    entries: Seq<(Seq<char>, (S, S))>,
    n: nat,
) -> DataTableView<S>
    decreases n,
{
    if n == 0 {
        table
    } else {
        let so_far = denormalized_tables(table, entries, (n - 1) as nat);
        let (name, ends) = entries[n - 1];
        match so_far.column(name) {
            Some(column) => so_far.with_column(
                name,
                DataTableView::denormalized_column(column, ends.0, ends.1),
            ),
            None => so_far,
        }
    }
}

/// The transformation that normalizes the columns of the features that ask for it.
#[derive(Debug)]
pub struct Normalize<S: Scalar> {
    /// The smallest and the largest number of each normalized column, under the name of
    /// its feature.
    pub features_min_max: Vec<Ends<S>>,
}

impl<S: Scalar> View for Normalize<S> {
    type V = Seq<(Seq<char>, (S, S))>;

    open spec fn view(&self) -> Seq<(Seq<char>, (S, S))> {
        self.features_min_max@.map_values(|entry: Ends<S>| ends_view(entry))
    }
}

impl<S: Scalar> Normalize<S> {
    /// A transformation that keeps nothing yet.
    pub fn new() -> (out: Self)
        ensures
            out@ == Seq::<(Seq<char>, (S, S))>::empty(),
    {
        let out = Normalize { features_min_max: Vec::new() };
        assert(out@ =~= Seq::<(Seq<char>, (S, S))>::empty());
        out
    }

    /// The name under which the transformation is known.
    pub fn get_name(&self) -> (name: String)
        ensures
            name@ == "norm"@,
    {
        String::from_str("norm")
    }

    /// The place of the first entry of `entries` kept under `name`, if there is one.
    fn find(entries: &Vec<Ends<S>>, name: &str) -> (out: Option<usize>)
        ensures
            match out {
                Some(place) => place_of(
                    entries@.map_values(|entry: Ends<S>| ends_view(entry)),
                    name@,
                ) == Some(place as int) && place < entries@.len(),
                None => place_of(entries@.map_values(|entry: Ends<S>| ends_view(entry)), name@)
                    is None,
            },
    {
        let ghost views = entries@.map_values(|entry: Ends<S>| ends_view(entry));
        let wanted = String::from_str(name);
        let mut i: usize = 0;
        while i < entries.len()
            invariant
                i <= entries@.len(),
                wanted@ == name@,
                views == entries@.map_values(|entry: Ends<S>| ends_view(entry)),
                place_of(views.take(i as int), name@) is None,
            decreases entries@.len() - i,
        {
            proof {
                assert(views.take(i + 1).drop_last() =~= views.take(i as int));
                assert(views.take(i + 1).last() == ends_view(entries@[i as int]));
            }
            if entries[i].0 == wanted {
                proof {
                    lemma_place_stays(views, name@, i + 1);
                }
                return Some(i);
            }
            i += 1;
        }
        assert(views.take(i as int) =~= views);
        None
    }

    /// What is kept under `name`, if anything is.
    pub fn get(&self, name: &str) -> (out: Option<(S, S)>)
        ensures
            match out {
                Some(ends) => place_of(self@, name@) matches Some(place) && self@[place].1 == ends,
                None => place_of(self@, name@) is None,
            },
    {
        match Self::find(&self.features_min_max, name) {
            Some(place) => Some(self.features_min_max[place].1),
            None => None,
        }
    }

    /// Keeps `ends` under `name` in `entries`.
    fn keep(entries: &mut Vec<Ends<S>>, name: &str, ends: (S, S))
        ensures
            final(entries)@.map_values(|entry: Ends<S>| ends_view(entry)) == kept_under(
                old(entries)@.map_values(|entry: Ends<S>| ends_view(entry)),
                name@,
                ends,
            ),
    {
        let ghost before = entries@.map_values(|entry: Ends<S>| ends_view(entry));
        match Self::find(entries, name) {
            Some(place) => {
                entries[place] = (String::from_str(name), ends);
                assert(entries@.map_values(|entry: Ends<S>| ends_view(entry)) =~= before.update(
                    place as int,
                    (name@, ends),
                ));
            },
            None => {
                entries.push((String::from_str(name), ends));
                assert(entries@.map_values(|entry: Ends<S>| ends_view(entry)) =~= before.push(
                    (name@, ends),
                ));
            },
        }
    }

    /// Keeps under `new_feature` what is kept under `old_feature`, so that the two are
    /// brought back in the same way. Something must be kept under `old_feature`.
    pub fn same_normalization(&mut self, new_feature: &str, old_feature: &str) -> (out: Result<
        (),
        Error,
    >)
        ensures
            out is Ok <==> place_of(old(self)@, old_feature@) is Some,
            out is Ok ==> final(self)@ == kept_under(
                old(self)@,
                new_feature@,
                old(self)@[place_of(old(self)@, old_feature@)->0].1,
            ),
            out matches Err(error) ==> error == Error::UninitializedState && final(self)@ == old(
                self,
            )@,
    {
        match self.get(old_feature) {
            Some(ends) => {
                Self::keep(&mut self.features_min_max, new_feature, ends);
                Ok(())
            },
            None => Err(Error::UninitializedState),
        }
    }

    /// The table with each column for which something is kept brought back from the range
    /// between zero and one.
    pub fn denormalize_data(&self, data: &DataTable<S>) -> (out: DataTable<S>)
        ensures
            out@.wf(),
            out@ == denormalized_tables(data@, self@, self@.len()),
    {
        let mut table = data.clone();
        let mut i: usize = 0;
        while i < self.features_min_max.len()
            invariant
                i <= self.features_min_max@.len(),
                table@.wf(),
                table@ == denormalized_tables(data@, self@, i as nat),
            decreases self.features_min_max@.len() - i,
        {
            let entry = &self.features_min_max[i];
            assert(self@[i as int] == ends_view(*entry));
            if table.has_column(entry.0.as_str()) {
                proof {
                    table@.lemma_position_within(entry.0@);
                }
                table = match table.denormalize_column(entry.0.as_str(), entry.1) {
                    Ok(table) => table,
                    Err(error) => {
                        assert(false);
                        table
                    },
                };
            } else {
                proof {
                    table@.lemma_position_within(entry.0@);
                }
            }
            i += 1;
        }
        table
    }

    /// The smallest and the largest number of the column of each feature that asks to be
    /// normalized.
    pub fn fit(dataset_config: &Dataset, data: &DataTable<S>) -> (out: Result<Vec<Ends<S>>, Error>)
        ensures
            out is Ok <==> fitted(dataset_config@.features, data@) is Some,
            out matches Ok(entries) ==> fitted(dataset_config@.features, data@) == Some(
                entries@.map_values(|entry: Ends<S>| ends_view(entry)),
            ),
            out matches Err(error) ==> error == Error::MissingRequiredColumn || error
                == Error::ShapeMismatch,
    {
        let ghost features = dataset_config@.features;
        let mut entries: Vec<Ends<S>> = Vec::new();
        let mut i: usize = 0;
        proof {
            assert(features.take(0) =~= Seq::<FeatureView>::empty());
            assert(entries@.map_values(|entry: Ends<S>| ends_view(entry)) =~= Seq::<
                (Seq<char>, (S, S)),
            >::empty());
        }
        while i < dataset_config.features.len()
            invariant
                i <= dataset_config.features@.len(),
                features == dataset_config@.features,
                fitted(features.take(i as int), data@) == Some(
                    entries@.map_values(|entry: Ends<S>| ends_view(entry)),
                ),
            decreases dataset_config.features@.len() - i,
        {
            let feature = &dataset_config.features[i];
            proof {
                assert(features.take(i + 1).drop_last() =~= features.take(i as int));
                assert(features.take(i + 1).last() == feature@);
            }
            if feature.normalized {
                match data.min_max_column(feature.name.as_str()) {
                    Ok(ends) => {
                        Self::keep(&mut entries, feature.name.as_str(), ends);
                    },
                    Err(error) => {
                        proof {
                            lemma_fitted_stays_failed(features, data@, i + 1);
                        }
                        return Err(error);
                    },
                }
            }
            i += 1;
        }
        assert(features.take(i as int) =~= features);
        Ok(entries)
    }

    /// The feature that takes the place of `feature` once its column is normalized.
    pub fn normalized_feature(feature: &Feature) -> (out: Option<Feature>)
        ensures
            match out {
                Some(normalized) => normalized_feature(feature@) == Some(normalized@),
                None => normalized_feature(feature@) is None,
            },
    {
        match &feature.with_normalized {
            Some(named) => Some((**named).clone()),
            None => {
                if feature.normalized {
                    let mut normalized = feature.clone();
                    normalized.normalized = false;
                    Some(normalized)
                } else {
                    None
                }
            },
        }
    }

    /// Normalizes the columns of the features that ask for it, feature after feature, each
    /// by the smallest and the largest number that its column holds in `data`: see
    /// [`normalized_table`]. Returns the description of the dataset with the normalized
    /// features, and the table with the normalized columns. What was found of the columns
    /// is kept.
    pub fn transform(&mut self, dataset_config: &Dataset, data: &DataTable<S>) -> (out: Result<
        (Dataset, DataTable<S>),
        Error,
    >)
        ensures
            out is Ok <==> (fitted(dataset_config@.features, data@) matches Some(entries)
                && normalized_tables(dataset_config@.features, entries, data@) is Some),
            out matches Ok(done) ==> {
                &&& done.1@.wf()
                &&& fitted(dataset_config@.features, data@) == Some(final(self)@)
                &&& normalized_tables(dataset_config@.features, final(self)@, data@) == Some(
                    done.1@,
                )
                &&& done.0@ == (DatasetView {
                    name: dataset_config@.name,
                    features: normalized_features(dataset_config@.features),
                })
            },
            out matches Err(error) ==> error == Error::MissingRequiredColumn || error
                == Error::ShapeMismatch || error == Error::UninitializedState,
            out is Err ==> final(self)@ == old(self)@,
    {
        let ghost features = dataset_config@.features;
        let entries = match Self::fit(dataset_config, data) {
            Ok(entries) => entries,
            Err(error) => {
                return Err(error);
            },
        };
        let ghost kept = entries@.map_values(|entry: Ends<S>| ends_view(entry));
        let mut done: Vec<Feature> = Vec::new();
        let mut table = data.clone();
        let mut i: usize = 0;
        proof {
            assert(features.take(0) =~= Seq::<FeatureView>::empty());
        }
        while i < dataset_config.features.len()
            invariant
                i <= dataset_config.features@.len(),
                features == dataset_config@.features,
                kept == entries@.map_values(|entry: Ends<S>| ends_view(entry)),
                fitted(features, data@) == Some(kept),
                *self == *old(self),
                table@.wf(),
                normalized_tables(features.take(i as int), kept, data@) == Some(table@),
                done@.len() == i,
                forall|k: int|
                    0 <= k < i ==> (#[trigger] done@[k])@ == match normalized_feature(features[k]) {
                        Some(normalized) => normalized,
                        None => features[k],
                    },
            decreases dataset_config.features@.len() - i,
        {
            let feature = &dataset_config.features[i];
            proof {
                assert(features.take(i + 1).drop_last() =~= features.take(i as int));
                assert(features.take(i + 1).last() == feature@);
            }
            match Self::normalized_feature(feature) {
                Some(normalized) => {
                    let name = feature.name.as_str();
                    let place = match Self::find(&entries, name) {
                        Some(place) => place,
                        None => {
                            proof {
                                lemma_normalized_stays_failed(features, kept, data@, i + 1);
                            }
                            return Err(Error::UninitializedState);
                        },
                    };
                    let ends = entries[place].1;
                    assert(kept[place as int] == ends_view(entries@[place as int]));
                    let scaled = match table.normalize_column(name, ends) {
                        Ok(scaled) => scaled,
                        Err(error) => {
                            proof {
                                table@.lemma_position_within(name@);
                                lemma_normalized_stays_failed(features, kept, data@, i + 1);
                            }
                            return Err(error);
                        },
                    };
                    proof {
                        table@.lemma_position_within(name@);
                        scaled@.lemma_position(name@, table@.position(name@)->0);
                    }
                    table = match scaled.rename_column(name, normalized.name.as_str()) {
                        Ok(renamed) => renamed,
                        Err(error) => {
                            assert(false);
                            scaled
                        },
                    };
                    done.push(normalized);
                },
                None => {
                    done.push(feature.clone());
                },
            }
            i += 1;
        }
        proof {
            assert(features.take(i as int) =~= features);
            assert(features_view(done@) =~= normalized_features(features));
        }
        self.features_min_max = entries;
        Ok((Dataset { name: dataset_config.name.clone(), features: done }, table))
    }

    /// The table with the normalized columns brought back.
    pub fn reverse_columnswise(&self, data: &DataTable<S>) -> (out: DataTable<S>)
        ensures
            out@.wf(),
            out@ == denormalized_tables(data@, self@, self@.len()),
    {
        self.denormalize_data(data)
    }
}

} // verus!
