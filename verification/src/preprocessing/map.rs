//! Value mapping: which rows of a column are selected, and what replaces them.

use crate::dataset::{features_view, Dataset, DatasetView, Feature, FeatureView};
use crate::datatable::{DataTable, DataTableView};
use crate::error::Error;
use crate::scalar::Scalar;
use vstd::prelude::*;

verus! {

/// Where a replacement value comes from.
#[derive(Debug, Hash)]
pub enum MapValue {
    /// The number zero.
    Zero,
    /// A constant, kept as its decimal text.
    ConstantScalar(String),
    /// The value that another column holds in the same row.
    Feature(String),
}

/// Mathematical model of a [`MapValue`].
pub enum MapValueView {
    Zero,
    ConstantScalar(Seq<char>),
    Feature(Seq<char>),
}

impl View for MapValue {
    type V = MapValueView;

    open spec fn view(&self) -> MapValueView {
        match self {
            MapValue::Zero => MapValueView::Zero,
            MapValue::ConstantScalar(text) => MapValueView::ConstantScalar(text@),
            MapValue::Feature(name) => MapValueView::Feature(name@),
        }
    }
}

impl Clone for MapValue {
    fn clone(&self) -> (res: Self)
        ensures
            res == *self,
    {
        match self {
            MapValue::Zero => MapValue::Zero,
            MapValue::ConstantScalar(text) => MapValue::ConstantScalar(text.clone()),
            MapValue::Feature(name) => MapValue::Feature(name.clone()),
        }
    }
}

impl Default for MapValue {
    fn default() -> (res: Self)
        ensures
            res == MapValue::Zero,
    {
        MapValue::Zero
    }
}

impl MapValue {
    /// The value zero.
    pub fn zero() -> (res: Self)
        ensures
            res == MapValue::Zero,
    {
        MapValue::Zero
    }

    /// The value found in the column `feature_name`, row by row.
    pub fn take_from_feature(feature_name: &str) -> (res: Self)
        ensures
            res@ == MapValueView::Feature(feature_name@),
    {
        MapValue::Feature(String::from_str(feature_name))
    }
}

/// Which rows of a column a mapping applies to.
#[derive(Debug, Hash)]
pub enum MapSelector {
    /// Every row.
    All,
    /// The rows whose value equals the given one.
    Equal(MapValue),
}

/// Mathematical model of a [`MapSelector`].
pub enum MapSelectorView {
    All,
    Equal(MapValueView),
}

impl View for MapSelector {
    type V = MapSelectorView;

    open spec fn view(&self) -> MapSelectorView {
        match self {
            MapSelector::All => MapSelectorView::All,
            MapSelector::Equal(value) => MapSelectorView::Equal(value@),
        }
    }
}

impl Clone for MapSelector {
    fn clone(&self) -> (res: Self)
        ensures
            res == *self,
    {
        match self {
            MapSelector::All => MapSelector::All,
            MapSelector::Equal(value) => MapSelector::Equal(value.clone()),
        }
    }
}

impl Default for MapSelector {
    fn default() -> (res: Self)
        ensures
            res == MapSelector::All,
    {
        MapSelector::All
    }
}

impl MapSelector {
    /// Selects every row.
    pub fn all() -> (res: Self)
        ensures
            res == MapSelector::All,
    {
        MapSelector::All
    }

    /// Selects the rows whose value equals `value`.
    pub fn equal(value: MapValue) -> (res: Self)
        ensures
            res == MapSelector::Equal(value),
    {
        MapSelector::Equal(value)
    }
}

/// What happens to the selected rows.
#[derive(Debug, Hash)]
pub enum MapOp {
    /// They are kept as they are.
    Keep,
    /// They are replaced by the given value.
    ReplaceWith(MapValue),
}

/// Mathematical model of a [`MapOp`].
pub enum MapOpView {
    Keep,
    ReplaceWith(MapValueView),
}

impl View for MapOp {
    type V = MapOpView;

    open spec fn view(&self) -> MapOpView {
        match self {
            MapOp::Keep => MapOpView::Keep,
            MapOp::ReplaceWith(value) => MapOpView::ReplaceWith(value@),
        }
    }
}

impl Clone for MapOp {
    fn clone(&self) -> (res: Self)
        ensures
            res == *self,
    {
        match self {
            MapOp::Keep => MapOp::Keep,
            MapOp::ReplaceWith(value) => MapOp::ReplaceWith(value.clone()),
        }
    }
}

impl Default for MapOp {
    fn default() -> (res: Self)
        ensures
            res == MapOp::Keep,
    {
        MapOp::Keep
    }
}

impl MapOp {
    /// Replaces the selected rows by `value`.
    pub fn replace_with(value: MapValue) -> (res: Self)
        ensures
            res == MapOp::ReplaceWith(value),
    {
        MapOp::ReplaceWith(value)
    }

    /// Replaces the selected rows by what the column `feature_name` holds.
    pub fn replace_with_feature(feature_name: &str) -> (res: Self)
        ensures
            res@ == MapOpView::ReplaceWith(MapValueView::Feature(feature_name@)),
    {
        MapOp::ReplaceWith(MapValue::take_from_feature(feature_name))
    }
}

/// The smaller of two lengths.
pub open spec fn shorter(a: nat, b: nat) -> nat {
    if a <= b {
        a
    } else {
        b
    }
}

impl MapValueView {
    /// The value for each row of `table`: zero, the number that the constant's text stands
    /// for, or what the named column holds. Nothing where the text stands for no number, or
    /// where the table lacks the column.
    pub open spec fn values<S: Scalar>(self, table: DataTableView<S>) -> Option<Seq<S>> {
        match self {
            MapValueView::Zero => Some(Seq::new(table.rows, |r: int| S::zero_spec())),
            MapValueView::ConstantScalar(text) => match S::from_text_spec(text) {
                Some(value) => Some(Seq::new(table.rows, |r: int| value)),
                None => None,
            },
            MapValueView::Feature(name) => table.column(name),
        }
    }
}

impl MapSelectorView {
    /// For each row of `table`, a value and whether the row is selected. Where every row is
    /// selected, the value is what the column holds. Where the rows that equal a value are
    /// selected, it is the value that the row is compared with. Nothing where a value or
    /// the column is missing.
    pub open spec fn corresponding<S: Scalar>(
        self,
        table: DataTableView<S>,
        column: Seq<char>,
    ) -> Option<Seq<(S, bool)>> {
        match self {
            MapSelectorView::All => match table.column(column) {
                Some(held) => Some(held.map_values(|value: S| (value, true))),
                None => None,
            },
            MapSelectorView::Equal(value) => match (value.values(table), table.column(column)) {
                (Some(values), Some(held)) => Some(
                    Seq::new(
                        shorter(values.len(), held.len()),
                        |r: int| (values[r], values[r].equals_spec(held[r])),
                    ),
                ),
                _ => None,
            },
        }
    }
}

impl MapOpView {
    /// The new value for each row: the value that came with the row, or, for a selected
    /// row under a replacement, the value that replaces it. Nothing where the replacement
    /// is missing.
    pub open spec fn applied<S: Scalar>(
        self,
        table: DataTableView<S>,
        corresponding: Seq<(S, bool)>,
    ) -> Option<Seq<S>> {
        match self {
            MapOpView::Keep => Some(corresponding.map_values(|pair: (S, bool)| pair.0)),
            MapOpView::ReplaceWith(value) => match value.values(table) {
                Some(values) => Some(
                    Seq::new(
                        shorter(values.len(), corresponding.len()),
                        |r: int|
                            if corresponding[r].1 {
                                values[r]
                            } else {
                                corresponding[r].0
                            },
                    ),
                ),
                None => None,
            },
        }
    }
}

impl MapValue {
    /// The value for each row of `data`. A constant whose text stands for no number, or a
    /// column that the table lacks, is reported as missing.
    pub fn find_all_corresponding<S: Scalar>(&self, data: &DataTable<S>) -> (out: Result<
        Vec<S>,
        Error,
    >)
        ensures
            out is Ok <==> self@.values(data@) is Some,
            out matches Ok(values) ==> self@.values(data@) == Some(values@),
            out matches Err(error) ==> error == Error::MissingRequiredColumn,
    {
        match self {
            MapValue::Zero => Ok(crate::linalg::filled(data.num_rows(), S::zero())),
            MapValue::ConstantScalar(text) => match S::from_text(text.as_str()) {
                Some(value) => Ok(crate::linalg::filled(data.num_rows(), value)),
                None => Err(Error::MissingRequiredColumn),
            },
            MapValue::Feature(name) => data.column_to_vector(name.as_str()),
        }
    }
}

impl MapSelector {
    /// For each row of `data`, a value and whether the row is selected in the column
    /// called `column`.
    pub fn find_all_corresponding<S: Scalar>(&self, data: &DataTable<S>, column: &str) -> (out:
        Result<Vec<(S, bool)>, Error>)
        ensures
            out is Ok <==> self@.corresponding(data@, column@) is Some,
            out matches Ok(values) ==> self@.corresponding(data@, column@) == Some(values@),
            out matches Err(error) ==> error == Error::MissingRequiredColumn,
    {
        let mut values: Vec<(S, bool)> = Vec::new();
        match self {
            MapSelector::All => {
                let held = match data.column_to_vector(column) {
                    Ok(held) => held,
                    Err(error) => {
                        return Err(error);
                    },
                };
                let mut r: usize = 0;
                while r < held.len()
                    invariant
                        r <= held@.len(),
                        values@.len() == r,
                        forall|k: int| 0 <= k < r ==> (#[trigger] values@[k]) == (held@[k], true),
                    decreases held@.len() - r,
                {
                    values.push((held[r], true));
                    r += 1;
                }
                assert(values@ =~= held@.map_values(|value: S| (value, true)));
            },
            MapSelector::Equal(value) => {
                let wanted = match value.find_all_corresponding(data) {
                    Ok(wanted) => wanted,
                    Err(error) => {
                        return Err(error);
                    },
                };
                let held = match data.column_to_vector(column) {
                    Ok(held) => held,
                    Err(error) => {
                        return Err(error);
                    },
                };
                let mut r: usize = 0;
                while r < wanted.len() && r < held.len()
                    invariant
                        r <= shorter(wanted@.len(), held@.len()),
                        values@.len() == r,
                        forall|k: int|
                            0 <= k < r ==> (#[trigger] values@[k]) == (
                                wanted@[k],
                                wanted@[k].equals_spec(held@[k]),
                            ),
                    decreases wanted@.len() - r,
                {
                    values.push((wanted[r], wanted[r].equals(held[r])));
                    r += 1;
                }
                assert(values@ =~= Seq::new(
                    shorter(wanted@.len(), held@.len()),
                    |r: int| (wanted@[r], wanted@[r].equals_spec(held@[r])),
                ));
            },
        }
        Ok(values)
    }
}

impl MapOp {
    /// The new value for each row, from what [`MapSelector::find_all_corresponding`] gave
    /// for the rows.
    pub fn apply<S: Scalar>(&self, data: &DataTable<S>, corresponding_in: Vec<(S, bool)>) -> (out:
        Result<Vec<S>, Error>)
        ensures
            out is Ok <==> self@.applied(data@, corresponding_in@) is Some,
            out matches Ok(values) ==> self@.applied(data@, corresponding_in@) == Some(values@),
            out matches Err(error) ==> error == Error::MissingRequiredColumn,
    {
        let mut values: Vec<S> = Vec::new();
        match self {
            MapOp::Keep => {
                let mut r: usize = 0;
                while r < corresponding_in.len()
                    invariant
                        r <= corresponding_in@.len(),
                        values@.len() == r,
                        forall|k: int| 0 <= k < r ==> (#[trigger] values@[k]) == corresponding_in@[k].0,
                    decreases corresponding_in@.len() - r,
                {
                    values.push(corresponding_in[r].0);
                    r += 1;
                }
                assert(values@ =~= corresponding_in@.map_values(|pair: (S, bool)| pair.0));
            },
            MapOp::ReplaceWith(value) => {
                let wanted = match value.find_all_corresponding(data) {
                    Ok(wanted) => wanted,
                    Err(error) => {
                        return Err(error);
                    },
                };
                let mut r: usize = 0;
                while r < wanted.len() && r < corresponding_in.len()
                    invariant
                        r <= shorter(wanted@.len(), corresponding_in@.len()),
                        values@.len() == r,
                        forall|k: int|
                            0 <= k < r ==> (#[trigger] values@[k]) == if corresponding_in@[k].1 {
                                wanted@[k]
                            } else {
                                corresponding_in@[k].0
                            },
                    decreases wanted@.len() - r,
                {
                    let pair = corresponding_in[r];
                    if pair.1 {
                        values.push(wanted[r]);
                    } else {
                        values.push(pair.0);
                    }
                    r += 1;
                }
                assert(values@ =~= Seq::new(
                    shorter(wanted@.len(), corresponding_in@.len()),
                    |r: int|
                        if corresponding_in@[r].1 {
                            wanted@[r]
                        } else {
                            corresponding_in@[r].0
                        },
                ));
            },
        }
        Ok(values)
    }
}

/// In a table whose columns have one number for each row, so have the values of a mapping.
pub proof fn lemma_mapping_lengths<S: Scalar>(
    table: DataTableView<S>,
    selector: MapSelectorView,
    op: MapOpView,
    column: Seq<char>,
)
    requires
        table.wf(),
    ensures
        selector.corresponding(table, column) matches Some(corresponding) ==> {
            &&& corresponding.len() == table.rows
            &&& op.applied(table, corresponding) matches Some(values) ==> values.len()
                == table.rows
        },
{
    table.lemma_position_within(column);
    match selector {
        MapSelectorView::Equal(MapValueView::Feature(name)) => {
            table.lemma_position_within(name);
        },
        _ => {},
    }
    match op {
        MapOpView::ReplaceWith(MapValueView::Feature(name)) => {
            table.lemma_position_within(name);
        },
        _ => {},
    }
}

/// The features of a list that ask for a mapping, each by its name with its mapping.
pub open spec fn mappings_of(features: Seq<FeatureView>) -> Seq<
    (Seq<char>, (MapSelectorView, MapOpView)),
>
    decreases features.len(),
{
    if features.len() == 0 {
        Seq::empty()
    } else {
        match features.last().mapped {
            Some(mapping) => mappings_of(features.drop_last()).push(
                (features.last().name, mapping),
            ),
            None => mappings_of(features.drop_last()),
        }
    }
}

/// The table after the mapping that `feature` asks for: the column of the feature leaves
/// its place, and stands with its new values after the last column. The table as it is
/// where the feature asks for none. Nothing where the table lacks the column, or a value
/// of the mapping is missing.
pub open spec fn mapped_table<S: Scalar>(table: DataTableView<S>, feature: FeatureView) -> Option<
    DataTableView<S>,
> {
    match feature.mapped {
        Some(mapping) => match mapping.0.corresponding(table, feature.name) {
            Some(corresponding) => match mapping.1.applied(table, corresponding) {
                Some(values) => Some(
                    table.without(table.position(feature.name)->0).with_column(
                        feature.name,
                        values,
                    ),
                ),
                None => None,
            },
            None => None,
        },
        None => Some(table),
    }
}

/// The table after the mappings that the features ask for, feature after feature.
pub open spec fn mapped_tables<S: Scalar>(
    features: Seq<FeatureView>,
    table: DataTableView<S>,
) -> Option<DataTableView<S>>
    decreases features.len(),
{
    if features.len() == 0 {
        Some(table)
    } else {
        match mapped_tables(features.drop_last(), table) {
            Some(so_far) => mapped_table(so_far, features.last()),
            None => None,
        }
    }
}

/// Once a mapping has failed, the mappings have.
pub proof fn lemma_mappings_stay_failed<S: Scalar>(
    features: Seq<FeatureView>,
    table: DataTableView<S>,
    n: int,
)
    requires
        0 <= n <= features.len(),
        mapped_tables(features.take(n), table) is None,
    ensures
        mapped_tables(features, table) is None,
    decreases features.len() - n,
{
    if n < features.len() {
        assert(features.take(n + 1).drop_last() =~= features.take(n));
        lemma_mappings_stay_failed(features, table, n + 1);
    } else {
        assert(features.take(n) =~= features);
    }
}

/// The features with their mappings done: none asks for a mapping any more.
pub open spec fn without_mappings(features: Seq<FeatureView>) -> Seq<FeatureView> {
    features.map_values(|feature: FeatureView| FeatureView { mapped: None, ..feature })
}

/// The model of a mapping that is kept under the name of its feature.
pub open spec fn mapping_view(entry: (String, (MapSelector, MapOp))) -> (
    Seq<char>,
    (MapSelectorView, MapOpView),
) {
    let (name, mapping) = entry;
    (name@, (mapping.0@, mapping.1@))
}

/// The transformation that maps the values of the features that ask for it.
#[derive(Debug)]
pub struct ValueMap {
    mapped_features: Vec<(String, (MapSelector, MapOp))>,
}

impl ValueMap {
    /// The mappings that the last transformation has done: the name of each feature with
    /// its mapping.
    pub closed spec fn mapped(&self) -> Seq<(Seq<char>, (MapSelectorView, MapOpView))> {
        self.mapped_features@.map_values(
            |entry: (String, (MapSelector, MapOp))| mapping_view(entry),
        )
    }

    /// A transformation that has done no mapping yet.
    pub fn new() -> (out: Self)
        ensures
            out.mapped() == Seq::<(Seq<char>, (MapSelectorView, MapOpView))>::empty(),
    {
        let out = ValueMap { mapped_features: Vec::new() };
        assert(out.mapped() =~= Seq::<(Seq<char>, (MapSelectorView, MapOpView))>::empty());
        out
    }

    /// The name under which the transformation is known.
    pub fn get_name(&self) -> (name: String)
        ensures
            name@ == "map"@,
    {
        String::from_str("map")
    }

    /// The number of mappings that the last transformation has done.
    pub fn mapped_count(&self) -> (count: usize)
        ensures
            count == self.mapped().len(),
    {
        self.mapped_features.len()
    }

    /// The table after the mapping that `feature` asks for.
    pub fn map_feature<S: Scalar>(feature: &Feature, data: &DataTable<S>) -> (out: Result<
        DataTable<S>,
        Error,
    >)
        ensures
            out is Ok <==> mapped_table(data@, feature@) is Some,
            out matches Ok(table) ==> table@.wf() && mapped_table(data@, feature@) == Some(table@),
            out matches Err(error) ==> error == Error::MissingRequiredColumn,
    {
        let _rows = data.num_rows();
        match &feature.mapped {
            Some(mapping) => {
                let name = feature.name.as_str();
                let corresponding = match mapping.0.find_all_corresponding(data, name) {
                    Ok(corresponding) => corresponding,
                    Err(error) => {
                        return Err(error);
                    },
                };
                let ghost pairs = corresponding@;
                let values = match mapping.1.apply(data, corresponding) {
                    Ok(values) => values,
                    Err(error) => {
                        return Err(error);
                    },
                };
                proof {
                    lemma_mapping_lengths(data@, mapping.0@, mapping.1@, name@);
                    data@.lemma_position_within(name@);
                }
                let dropped = match data.drop_column(name) {
                    Ok(dropped) => dropped,
                    Err(error) => {
                        return Err(error);
                    },
                };
                match dropped.with_column(name, &values) {
                    Ok(table) => Ok(table),
                    Err(error) => {
                        assert(false);
                        Err(Error::MissingRequiredColumn)
                    },
                }
            },
            None => Ok(data.clone()),
        }
    }

    /// Maps the values of the features that ask for it, feature after feature: see
    /// [`mapped_table`]. Returns the description of the dataset with the mappings done, and
    /// the table with the new values. The mappings that were done are kept.
    pub fn transform<S: Scalar>(&mut self, dataset_config: &Dataset, data: &DataTable<S>) -> (out:
        Result<(Dataset, DataTable<S>), Error>)
        ensures
            out is Ok <==> mapped_tables(dataset_config@.features, data@) is Some,
            out matches Ok(done) ==> {
                &&& done.1@.wf()
                &&& mapped_tables(dataset_config@.features, data@) == Some(done.1@)
                &&& done.0@ == (DatasetView {
                    name: dataset_config@.name,
                    features: without_mappings(dataset_config@.features),
                })
                &&& final(self).mapped() == mappings_of(dataset_config@.features)
            },
            out matches Err(error) ==> error == Error::MissingRequiredColumn,
            out is Err ==> final(self).mapped() == old(self).mapped(),
    {
        let ghost features = dataset_config@.features;
        let mut mapped: Vec<(String, (MapSelector, MapOp))> = Vec::new();
        let mut done: Vec<Feature> = Vec::new();
        let mut table = data.clone();
        let mut i: usize = 0;
        proof {
            assert(features.take(0) =~= Seq::<FeatureView>::empty());
        }
        while i < dataset_config.features.len()
            invariant
                i <= dataset_config.features@.len(),
                features == dataset_config@.features,
                *self == *old(self),
                table@.wf(),
                mapped_tables(features.take(i as int), data@) == Some(table@),
                mapped@.map_values(|entry: (String, (MapSelector, MapOp))| mapping_view(entry))
                    == mappings_of(features.take(i as int)),
                done@.len() == i,
                forall|k: int|
                    0 <= k < i ==> (#[trigger] done@[k])@ == (FeatureView {
                        mapped: None,
                        ..features[k]
                    }),
            decreases dataset_config.features@.len() - i,
        {
            let feature = &dataset_config.features[i];
            proof {
                assert(features.take(i + 1).drop_last() =~= features.take(i as int));
                assert(features.take(i + 1).last() == feature@);
            }
            table = match Self::map_feature(feature, &table) {
                Ok(table) => table,
                Err(error) => {
                    proof {
                        lemma_mappings_stay_failed(features, data@, i + 1);
                    }
                    return Err(error);
                },
            };
            let ghost before = mapped@;
            match &feature.mapped {
                Some(mapping) => {
                    mapped.push((feature.name.clone(), (mapping.0.clone(), mapping.1.clone())));
                    proof {
                        before.lemma_push_map_commute(
                            |entry: (String, (MapSelector, MapOp))| mapping_view(entry),
                            mapped@.last(),
                        );
                    }
                },
                None => {},
            }
            let mut copy = feature.clone();
            copy.mapped = None;
            done.push(copy);
            i += 1;
        }
        proof {
            assert(features.take(i as int) =~= features);
            assert(features_view(done@) =~= without_mappings(features));
        }
        self.mapped_features = mapped;
        Ok((Dataset { name: dataset_config.name.clone(), features: done }, table))
    }

    /// The table as it is: a mapping is not taken back.
    pub fn reverse_columnswise<S: Scalar>(&self, data: &DataTable<S>) -> (out: DataTable<S>)
        ensures
            out@.wf(),
            out@ == data@,
    {
        data.clone()
    }
}

} // verus!
