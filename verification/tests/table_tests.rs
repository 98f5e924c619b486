use jiro_nn::benchmarking::EpochEvaluation;
use jiro_nn::dataset::{Dataset, Feature, FeatureOptions};
use jiro_nn::datatable::DataTable;
use jiro_nn::error::Error;
use jiro_nn::layer::activation_layer::{Activation, ActivationLayer};
use jiro_nn::layer::dense_layer::DenseLayer;
use jiro_nn::linalg::Matrix;
use jiro_nn::loss::Losses;
use jiro_nn::model::Model;
use jiro_nn::network::{Network, NetworkLayer};
use jiro_nn::optimizer::sgd::SGD;
use jiro_nn::optimizer::Optimizers;
use jiro_nn::preprocessing::map::{MapOp, MapSelector, MapValue, ValueMap};
use jiro_nn::preprocessing::normalize::Normalize;
use jiro_nn::preprocessing::{CachedConfig, Pipeline, Transformation};
use jiro_nn::scalar::Scalar;
use jiro_nn::trainers::kfolds::KFolds;
use jiro_nn::trainers::sampling::split_at;
use jiro_nn::trainers::split::SplitTraining;
use jiro_nn::trainers::table::{id_column, predictions_table, samples_of};

#[derive(Clone, Copy, Debug, PartialEq)]
struct Real(f64);

impl Scalar for Real {
    fn zero() -> Self {
        Real(0.0)
    }

    fn one() -> Self {
        Real(1.0)
    }

    fn from_count(n: usize) -> Self {
        Real(n as f64)
    }

    fn to_count(self) -> usize {
        self.0 as usize
    }

    fn add(self, rhs: Self) -> Self {
        Real(self.0 + rhs.0)
    }

    fn sub(self, rhs: Self) -> Self {
        Real(self.0 - rhs.0)
    }

    fn mul(self, rhs: Self) -> Self {
        Real(self.0 * rhs.0)
    }

    fn div(self, rhs: Self) -> Self {
        Real(self.0 / rhs.0)
    }

    fn sqrt(self) -> Self {
        Real(self.0.sqrt())
    }

    fn exp(self) -> Self {
        Real(self.0.exp())
    }

    fn lt(self, rhs: Self) -> bool {
        self.0 < rhs.0
    }

    fn is_finite(self) -> bool {
        self.0.is_finite()
    }

    fn equals(self, rhs: Self) -> bool {
        self.0 == rhs.0
    }

    fn from_text(text: &str) -> Option<Self> {
        text.parse::<f64>().ok().map(Real)
    }
}

type Reporter = fn(usize, EpochEvaluation<Real>);

fn reals(values: &[f64]) -> Vec<Real> {
    values.iter().map(|v| Real(*v)).collect()
}

fn floats(values: &[Real]) -> Vec<f64> {
    values.iter().map(|v| v.0).collect()
}

fn names(names: &[&str]) -> Vec<String> {
    names.iter().map(|name| name.to_string()).collect()
}

/// Four rows under the columns a, b and c.
fn table() -> DataTable<Real> {
    DataTable::from_columns(
        names(&["a", "b", "c"]),
        vec![reals(&[1.0, 2.0, 3.0, 4.0]), reals(&[10.0, 20.0, 30.0, 40.0]), reals(&[0.0, 2.0, 0.0, 4.0])],
    )
    .unwrap()
}

fn column(table: &DataTable<Real>, name: &str) -> Vec<f64> {
    floats(&table.column_to_vector(name).unwrap())
}

fn linear_network(rate: f64) -> Network<Real> {
    let weights = Matrix::from_column_leading_vector2(&vec![reals(&[0.1]), reals(&[-0.2])]).unwrap();
    let biases = Matrix::from_column_vector(&reals(&[0.05]));
    let optimizer = || Optimizers::SGD(SGD::with_const_lr(Real(rate)));
    Network::new(vec![
        NetworkLayer::Dense(DenseLayer::from_parameters(weights, biases, optimizer(), optimizer()).unwrap()),
        NetworkLayer::Activation(ActivationLayer::new(Activation::Linear)),
    ])
}

/// Ten rows: an identifier, two inputs, and their sum.
fn sums_table() -> DataTable<Real> {
    let id: Vec<Real> = (0..10).map(|i| Real(100.0 + i as f64)).collect();
    let x0: Vec<Real> = (0..10).map(|i| Real((i % 4) as f64 * 0.5)).collect();
    let x1: Vec<Real> = (0..10).map(|i| Real((i / 4) as f64 * 0.5)).collect();
    let y: Vec<Real> = (0..10).map(|i| Real(x0[i].0 + x1[i].0)).collect();
    DataTable::from_columns(names(&["x0", "id", "sum", "x1"]), vec![x0, id, y, x1]).unwrap()
}

fn sums_dataset() -> Dataset {
    Dataset::from_features_options(
        "sums",
        &[
            vec![FeatureOptions::Name("id"), FeatureOptions::IsId],
            vec![FeatureOptions::Name("x0")],
            vec![FeatureOptions::Name("x1")],
            vec![FeatureOptions::Name("sum"), FeatureOptions::Out],
        ],
    )
}

#[test]
fn a_table_is_built_from_columns_of_one_length() {
    let built = table();
    assert_eq!(built.num_rows(), 4);
    assert_eq!(built.num_columns(), 3);
    assert_eq!(built.column_names(), names(&["a", "b", "c"]));
    assert_eq!(built.columns_to_vec()[1], reals(&[10.0, 20.0, 30.0, 40.0]));
    assert_eq!(floats(&built.flatten()), vec![1.0, 2.0, 3.0, 4.0, 10.0, 20.0, 30.0, 40.0, 0.0, 2.0, 0.0, 4.0]);
    let copy = built.clone();
    assert_eq!(copy.to_vectors(), built.to_vectors());

    let ragged = DataTable::from_columns(names(&["a", "b"]), vec![reals(&[1.0]), reals(&[1.0, 2.0])]);
    assert_eq!(ragged.err(), Some(Error::ShapeMismatch));
    let unnamed = DataTable::from_columns(names(&["a"]), vec![reals(&[1.0]), reals(&[2.0])]);
    assert_eq!(unnamed.err(), Some(Error::ShapeMismatch));
    let empty: DataTable<Real> = DataTable::new_empty();
    assert_eq!((empty.num_rows(), empty.num_columns()), (0, 0));
    let none: DataTable<Real> = DataTable::from_columns(vec![], vec![]).unwrap();
    assert_eq!((none.num_rows(), none.num_columns()), (0, 0));
}

#[test]
fn a_table_turns_into_rows_and_back() {
    let built = table();
    let rows = built.to_vectors();
    assert_eq!(rows.len(), 4);
    assert_eq!(rows[0], reals(&[1.0, 10.0, 0.0]));
    assert_eq!(rows[3], reals(&[4.0, 40.0, 4.0]));
    let back = DataTable::from_vectors(&names(&["a", "b", "c"]), &rows).unwrap();
    assert_eq!(back.columns_to_vec(), built.columns_to_vec());
    assert_eq!(back.column_names(), built.column_names());
    let short = DataTable::from_vectors(&names(&["a", "b"]), &rows);
    assert_eq!(short.err(), Some(Error::ShapeMismatch));
    let no_rows: DataTable<Real> = DataTable::from_vectors(&names(&["a", "b"]), &vec![]).unwrap();
    assert_eq!((no_rows.num_rows(), no_rows.num_columns()), (0, 2));
    assert_eq!(no_rows.column_to_vector("b").unwrap(), vec![]);
}

#[test]
fn columns_are_found_by_name() {
    let built = table();
    assert_eq!(built.position("a"), Some(0));
    assert_eq!(built.position("c"), Some(2));
    assert_eq!(built.position("d"), None);
    assert!(built.has_column("b"));
    assert!(!built.has_column("B"));
    assert_eq!(column(&built, "b"), vec![10.0, 20.0, 30.0, 40.0]);
    assert_eq!(built.column_to_vector("d").err(), Some(Error::MissingRequiredColumn));
    assert_eq!(built.positions(&["c", "a", "c"]), Some(vec![2, 0, 2]));
    assert_eq!(built.positions(&["c", "x", "a"]), None);
    assert_eq!(built.positions(&[]), Some(vec![]));
    // Of two columns of one name, the first one is meant.
    let twice =
        DataTable::from_columns(names(&["a", "b", "a"]), vec![reals(&[1.0]), reals(&[2.0]), reals(&[3.0])]).unwrap();
    assert_eq!(twice.position("a"), Some(0));
    assert_eq!(column(&twice, "a"), vec![1.0]);
}

#[test]
fn columns_are_selected_dropped_added_and_renamed() {
    let built = table();
    let selected = built.select_columns(&["c", "a"]).unwrap();
    assert_eq!(selected.column_names(), names(&["c", "a"]));
    assert_eq!(selected.to_vectors()[1], reals(&[2.0, 2.0]));
    assert_eq!(built.select_columns(&["a", "z"]).err(), Some(Error::MissingRequiredColumn));
    assert_eq!(built.select_columns(&[]).unwrap().num_rows(), 4);

    let dropped = built.drop_column("b").unwrap();
    assert_eq!(dropped.column_names(), names(&["a", "c"]));
    assert_eq!(column(&dropped, "c"), vec![0.0, 2.0, 0.0, 4.0]);
    assert_eq!(built.drop_column("z").err(), Some(Error::MissingRequiredColumn));
    assert_eq!(built.drop_column("a").unwrap().column_names(), names(&["b", "c"]));
    assert_eq!(built.drop_column("c").unwrap().column_names(), names(&["a", "b"]));

    let replaced = built.with_column("b", &reals(&[5.0, 6.0, 7.0, 8.0])).unwrap();
    assert_eq!(replaced.column_names(), names(&["a", "b", "c"]));
    assert_eq!(column(&replaced, "b"), vec![5.0, 6.0, 7.0, 8.0]);
    let added = built.with_column("d", &reals(&[5.0, 6.0, 7.0, 8.0])).unwrap();
    assert_eq!(added.column_names(), names(&["a", "b", "c", "d"]));
    assert_eq!(column(&added, "d"), vec![5.0, 6.0, 7.0, 8.0]);
    assert_eq!(built.with_column("d", &reals(&[5.0])).err(), Some(Error::ShapeMismatch));
    let first = DataTable::new_empty().with_column("only", &reals(&[1.0, 2.0])).unwrap();
    assert_eq!((first.num_rows(), first.num_columns()), (2, 1));

    let renamed = built.rename_column("b", "beta").unwrap();
    assert_eq!(renamed.column_names(), names(&["a", "beta", "c"]));
    assert_eq!(column(&renamed, "beta"), vec![10.0, 20.0, 30.0, 40.0]);
    assert_eq!(built.rename_column("z", "b").err(), Some(Error::MissingRequiredColumn));
    // The table itself stays as it was.
    assert_eq!(built.column_names(), names(&["a", "b", "c"]));
}

#[test]
fn rows_are_picked_and_split() {
    let built = table();
    let picked = built.rows_at(&vec![3, 0, 0]);
    assert_eq!(column(&picked, "a"), vec![4.0, 1.0, 1.0]);
    assert_eq!(column(&picked, "c"), vec![4.0, 0.0, 0.0]);
    assert_eq!(built.rows_at(&vec![]).num_rows(), 0);
    assert_eq!(built.columns_at(&vec![2, 2]).column_names(), names(&["c", "c"]));
    assert_eq!(DataTable::<Real>::span(2, 5), vec![2, 3, 4]);
    assert_eq!(column(&built.rows_between(1, 3), "a"), vec![2.0, 3.0]);

    let (head, tail) = built.split(3, 2);
    assert_eq!(column(&head, "a"), vec![1.0, 2.0, 3.0]);
    assert_eq!(column(&tail, "a"), vec![3.0, 4.0]);
    let (head, tail) = built.split(9, 0);
    assert_eq!(head.num_rows(), 4);
    assert_eq!(tail.num_rows(), 0);
    let (head, tail) = built.split(0, 9);
    assert_eq!(head.num_rows(), 0);
    assert_eq!(column(&tail, "b"), vec![10.0, 20.0, 30.0, 40.0]);

    assert_eq!(split_at(Real(0.8), 4), 3);
    assert_eq!(split_at(Real(0.5), 4), 2);
    assert_eq!(split_at(Real(3.0), 4), 4);
    assert_eq!(split_at(Real(-1.0), 4), 0);
    let (first, rest) = built.split_ratio(Real(0.8));
    assert_eq!(column(&first, "a"), vec![1.0, 2.0, 3.0]);
    assert_eq!(column(&rest, "a"), vec![4.0]);
}

#[test]
fn shuffling_and_sampling_keep_rows_whole() {
    let rows: Vec<Vec<Real>> = (0..40).map(|i| reals(&[i as f64, 2.0 * i as f64])).collect();
    let built = DataTable::from_vectors(&names(&["i", "twice"]), &rows).unwrap();

    let shuffled = built.shuffled();
    assert_eq!(shuffled.num_rows(), 40);
    let mut seen = column(&shuffled, "i");
    assert!(shuffled.to_vectors().iter().all(|row| row[1].0 == 2.0 * row[0].0));
    seen.sort_by(|a, b| a.partial_cmp(b).unwrap());
    assert_eq!(seen, (0..40).map(|i| i as f64).collect::<Vec<f64>>());
    assert!((0..20).any(|_| column(&built.shuffled(), "i") != column(&built, "i")));

    let sample = built.sample(Some(10), true).unwrap();
    assert_eq!(sample.num_rows(), 10);
    let mut chosen = column(&sample, "i");
    chosen.sort_by(|a, b| a.partial_cmp(b).unwrap());
    chosen.dedup();
    assert_eq!(chosen.len(), 10);
    assert!(sample.to_vectors().iter().all(|row| row[1].0 == 2.0 * row[0].0));

    // Without shuffling the chosen rows keep the order of the table.
    let ordered = built.sample(Some(15), false).unwrap();
    let chosen = column(&ordered, "i");
    assert_eq!(chosen.len(), 15);
    assert!(chosen.windows(2).all(|pair| pair[0] < pair[1]));
    assert_eq!(column(&built.sample(None, false).unwrap(), "i"), column(&built, "i"));
    assert_eq!(built.sample(None, true).unwrap().num_rows(), 40);
    assert_eq!(built.sample(Some(0), true).unwrap().num_rows(), 0);
    assert_eq!(built.sample(Some(41), false).err(), Some(Error::ShapeMismatch));

    assert_eq!(DataTable::<Real>::kept(&vec![4, 1, 4, 0], 6), vec![0, 1, 4]);
    assert_eq!(DataTable::<Real>::kept(&vec![], 6), Vec::<usize>::new());
}

#[test]
fn columns_are_normalized_by_their_ends() {
    let built = table();
    assert_eq!(built.min_max_column("b").unwrap(), (Real(10.0), Real(40.0)));
    assert_eq!(built.min_max_column("c").unwrap(), (Real(0.0), Real(4.0)));
    assert_eq!(built.min_max_column("z").err(), Some(Error::MissingRequiredColumn));
    let no_rows: DataTable<Real> = DataTable::from_vectors(&names(&["a"]), &vec![]).unwrap();
    assert_eq!(no_rows.min_max_column("a").err(), Some(Error::ShapeMismatch));

    let scaled = built.normalize_column("b", (Real(10.0), Real(40.0))).unwrap();
    assert_eq!(column(&scaled, "b"), vec![0.0, 1.0 / 3.0, 2.0 / 3.0, 1.0]);
    assert_eq!(column(&scaled, "a"), vec![1.0, 2.0, 3.0, 4.0]);
    assert_eq!(scaled.column_names(), names(&["a", "b", "c"]));
    assert_eq!(built.normalize_column("z", (Real(0.0), Real(1.0))).err(), Some(Error::MissingRequiredColumn));

    let back = scaled.denormalize_column("b", (Real(10.0), Real(40.0))).unwrap();
    assert_eq!(column(&back, "b"), vec![10.0, 20.0, 30.0, 40.0]);
    assert_eq!(column(&built.denormalize_column("c", (Real(-1.0), Real(1.0))).unwrap(), "c"), vec![-1.0, 3.0, -1.0, 7.0]);
    assert_eq!(built.denormalize_column("z", (Real(0.0), Real(1.0))).err(), Some(Error::MissingRequiredColumn));

    assert_eq!(
        floats(&DataTable::normalized_column(&reals(&[2.0, 4.0, 6.0]), Real(2.0), Real(6.0))),
        vec![0.0, 0.5, 1.0]
    );
    assert_eq!(
        floats(&DataTable::denormalized_column(&reals(&[0.0, 0.5, 1.0]), Real(2.0), Real(6.0))),
        vec![2.0, 4.0, 6.0]
    );

    let all = built.normalize(&["a"]);
    assert_eq!(column(&all, "a"), vec![1.0, 2.0, 3.0, 4.0]);
    assert_eq!(column(&all, "b"), vec![0.0, 1.0 / 3.0, 2.0 / 3.0, 1.0]);
    assert_eq!(column(&all, "c"), vec![0.0, 0.5, 0.0, 1.0]);
    assert_eq!(all.column_names(), built.column_names());
    assert_eq!(column(&built.normalize(&[]), "a"), vec![0.0, 1.0 / 3.0, 2.0 / 3.0, 1.0]);
    assert_eq!(no_rows.normalize(&[]).num_rows(), 0);
}

#[test]
fn a_map_value_is_found_for_each_row() {
    let built = table();
    assert_eq!(MapValue::zero().find_all_corresponding(&built).unwrap(), reals(&[0.0; 4]));
    assert_eq!(
        MapValue::ConstantScalar("2.5".to_string()).find_all_corresponding(&built).unwrap(),
        reals(&[2.5; 4])
    );
    assert_eq!(
        MapValue::take_from_feature("b").find_all_corresponding(&built).unwrap(),
        reals(&[10.0, 20.0, 30.0, 40.0])
    );
    assert_eq!(
        MapValue::ConstantScalar("two".to_string()).find_all_corresponding::<Real>(&built).err(),
        Some(Error::MissingRequiredColumn)
    );
    assert_eq!(
        MapValue::take_from_feature("z").find_all_corresponding::<Real>(&built).err(),
        Some(Error::MissingRequiredColumn)
    );
}

#[test]
fn a_selector_marks_the_rows_it_selects() {
    let built = table();
    let all = MapSelector::all().find_all_corresponding(&built, "a").unwrap();
    assert_eq!(all, vec![(Real(1.0), true), (Real(2.0), true), (Real(3.0), true), (Real(4.0), true)]);
    let zeros = MapSelector::equal(MapValue::zero()).find_all_corresponding(&built, "c").unwrap();
    assert_eq!(zeros, vec![(Real(0.0), true), (Real(0.0), false), (Real(0.0), true), (Real(0.0), false)]);
    let twos =
        MapSelector::equal(MapValue::ConstantScalar("2".to_string())).find_all_corresponding(&built, "a").unwrap();
    assert_eq!(twos, vec![(Real(2.0), false), (Real(2.0), true), (Real(2.0), false), (Real(2.0), false)]);
    let same = MapSelector::equal(MapValue::take_from_feature("a")).find_all_corresponding(&built, "c").unwrap();
    assert_eq!(same, vec![(Real(1.0), false), (Real(2.0), true), (Real(3.0), false), (Real(4.0), true)]);
    assert_eq!(
        MapSelector::all().find_all_corresponding::<Real>(&built, "z").err(),
        Some(Error::MissingRequiredColumn)
    );
    assert_eq!(
        MapSelector::equal(MapValue::take_from_feature("z")).find_all_corresponding::<Real>(&built, "a").err(),
        Some(Error::MissingRequiredColumn)
    );
}

#[test]
fn an_operation_replaces_the_selected_rows() {
    let built = table();
    let marked = vec![(Real(1.0), true), (Real(2.0), false), (Real(3.0), true), (Real(4.0), false)];
    assert_eq!(MapOp::Keep.apply(&built, marked.clone()).unwrap(), reals(&[1.0, 2.0, 3.0, 4.0]));
    assert_eq!(
        MapOp::replace_with(MapValue::zero()).apply(&built, marked.clone()).unwrap(),
        reals(&[0.0, 2.0, 0.0, 4.0])
    );
    assert_eq!(
        MapOp::replace_with_feature("b").apply(&built, marked.clone()).unwrap(),
        reals(&[10.0, 2.0, 30.0, 4.0])
    );
    // A shorter list of rows gives as many values.
    assert_eq!(
        MapOp::replace_with_feature("b").apply(&built, marked[..2].to_vec()).unwrap(),
        reals(&[10.0, 2.0])
    );
    assert_eq!(MapOp::Keep.apply(&built, vec![]).unwrap(), vec![]);
    assert_eq!(
        MapOp::replace_with_feature("z").apply::<Real>(&built, marked).err(),
        Some(Error::MissingRequiredColumn)
    );
}

fn mapped_dataset() -> Dataset {
    Dataset::from_features_options(
        "mapped",
        &[
            vec![FeatureOptions::Name("a")],
            vec![
                FeatureOptions::Name("c"),
                FeatureOptions::Mapped(MapSelector::equal(MapValue::zero()), MapOp::replace_with_feature("b")),
            ],
            vec![FeatureOptions::Name("b"), FeatureOptions::Out],
        ],
    )
}

#[test]
fn the_map_transformation_maps_the_features_that_ask_for_it() {
    let built = table();
    let dataset = mapped_dataset();
    let mut map = ValueMap::new();
    assert_eq!(map.get_name(), "map");
    assert_eq!(map.mapped_count(), 0);
    let (described, mapped) = map.transform(&dataset, &built).unwrap();
    assert_eq!(map.mapped_count(), 1);
    // The rows that hold zero take the value of column b; the others take the value that
    // they were compared with. The column stands last from now on.
    assert_eq!(mapped.column_names(), names(&["a", "b", "c"]));
    assert_eq!(column(&mapped, "c"), vec![10.0, 0.0, 30.0, 0.0]);
    assert_eq!(column(&mapped, "a"), vec![1.0, 2.0, 3.0, 4.0]);
    assert_eq!(described.name, "mapped");
    assert_eq!(described.feature_names(), vec!["a", "c", "b"]);
    assert!(described.features.iter().all(|feature| feature.mapped.is_none()));
    assert!(described.features[2].out);
    assert!(dataset.features[1].mapped.is_some());
    assert_eq!(map.reverse_columnswise(&mapped).to_vectors(), mapped.to_vectors());

    // The single feature at work.
    let alone = ValueMap::map_feature(&dataset.features[1], &built).unwrap();
    assert_eq!(alone.to_vectors(), mapped.to_vectors());
    let untouched = ValueMap::map_feature(&dataset.features[0], &built).unwrap();
    assert_eq!(untouched.to_vectors(), built.to_vectors());

    // A table that lacks a column of a mapping.
    let lacking = built.drop_column("b").unwrap();
    let mut other = ValueMap::new();
    assert_eq!(other.transform(&dataset, &lacking).err(), Some(Error::MissingRequiredColumn));
    assert_eq!(other.mapped_count(), 0);
}

fn normalized_dataset() -> Dataset {
    Dataset::from_features_options(
        "normalized",
        &[
            vec![FeatureOptions::Name("a"), FeatureOptions::Normalized],
            vec![FeatureOptions::Name("b"), FeatureOptions::Out, FeatureOptions::Normalized],
            vec![FeatureOptions::Name("c")],
        ],
    )
}

#[test]
fn the_normalization_keeps_the_ends_of_each_column() {
    let built = table();
    let dataset = normalized_dataset();
    let mut normalize: Normalize<Real> = Normalize::new();
    assert_eq!(normalize.get_name(), "norm");
    assert!(normalize.get("a").is_none());
    let (described, scaled) = normalize.transform(&dataset, &built).unwrap();
    assert_eq!(normalize.get("a"), Some((Real(1.0), Real(4.0))));
    assert_eq!(normalize.get("b"), Some((Real(10.0), Real(40.0))));
    assert_eq!(normalize.get("c"), None);
    assert_eq!(normalize.features_min_max.len(), 2);
    assert_eq!(column(&scaled, "a"), vec![0.0, 1.0 / 3.0, 2.0 / 3.0, 1.0]);
    assert_eq!(column(&scaled, "b"), vec![0.0, 1.0 / 3.0, 2.0 / 3.0, 1.0]);
    assert_eq!(column(&scaled, "c"), vec![0.0, 2.0, 0.0, 4.0]);
    assert_eq!(scaled.column_names(), names(&["a", "b", "c"]));
    assert_eq!(described.feature_names(), vec!["a", "b", "c"]);
    assert!(described.features.iter().all(|feature| !feature.normalized));
    assert!(described.features[1].out);

    // Predictions are brought back by what is kept for their feature.
    normalize.same_normalization("pred_b", "b").unwrap();
    assert_eq!(normalize.get("pred_b"), Some((Real(10.0), Real(40.0))));
    assert_eq!(normalize.same_normalization("pred_z", "z").err(), Some(Error::UninitializedState));
    normalize.same_normalization("pred_b", "a").unwrap();
    assert_eq!(normalize.get("pred_b"), Some((Real(1.0), Real(4.0))));
    assert_eq!(normalize.features_min_max.len(), 3);
    normalize.same_normalization("pred_b", "b").unwrap();
    let predictions =
        DataTable::from_columns(names(&["pred_b", "id"]), vec![reals(&[0.0, 0.5, 1.0]), reals(&[7.0, 8.0, 9.0])])
            .unwrap();
    let back = normalize.denormalize_data(&predictions);
    assert_eq!(column(&back, "pred_b"), vec![10.0, 25.0, 40.0]);
    assert_eq!(column(&back, "id"), vec![7.0, 8.0, 9.0]);
    let whole = normalize.reverse_columnswise(&scaled);
    assert_eq!(column(&whole, "a"), vec![1.0, 2.0, 3.0, 4.0]);
    assert_eq!(column(&whole, "b"), vec![10.0, 20.0, 30.0, 40.0]);

    // What is fitted, by itself.
    let ends = Normalize::fit(&dataset, &built).unwrap();
    assert_eq!(ends, vec![("a".to_string(), (Real(1.0), Real(4.0))), ("b".to_string(), (Real(10.0), Real(40.0)))]);
    let lacking = built.drop_column("a").unwrap();
    assert_eq!(Normalize::<Real>::fit(&dataset, &lacking).err(), Some(Error::MissingRequiredColumn));
    let mut fresh: Normalize<Real> = Normalize::new();
    assert_eq!(fresh.transform(&dataset, &lacking).err(), Some(Error::MissingRequiredColumn));
    assert!(fresh.features_min_max.is_empty());
    let no_rows: DataTable<Real> = DataTable::from_vectors(&names(&["a", "b", "c"]), &vec![]).unwrap();
    assert_eq!(fresh.transform(&dataset, &no_rows).err(), Some(Error::ShapeMismatch));
}

#[test]
fn a_normalized_feature_takes_the_name_it_is_given() {
    let built = table();
    let dataset = Dataset::from_features_options(
        "named",
        &[
            vec![
                FeatureOptions::Name("a"),
                FeatureOptions::Normalized,
                FeatureOptions::AddFeatureNormalized(vec![FeatureOptions::Name("a_scaled"), FeatureOptions::Out]),
            ],
            vec![FeatureOptions::Name("b")],
        ],
    );
    let named = Normalize::<Real>::normalized_feature(&dataset.features[0]).unwrap();
    assert_eq!(named.name, "a_scaled");
    assert!(named.out);
    assert!(Normalize::<Real>::normalized_feature(&dataset.features[1]).is_none());
    let mut normalize: Normalize<Real> = Normalize::new();
    let (described, scaled) = normalize.transform(&dataset, &built).unwrap();
    assert_eq!(scaled.column_names(), names(&["a_scaled", "b", "c"]));
    assert_eq!(column(&scaled, "a_scaled"), vec![0.0, 1.0 / 3.0, 2.0 / 3.0, 1.0]);
    assert_eq!(described.feature_names(), vec!["a_scaled", "b"]);
    // A feature that names a normalized feature without asking to be normalized has
    // nothing kept for it.
    let unasked = Dataset::from_features_options(
        "unasked",
        &[vec![FeatureOptions::Name("a"), FeatureOptions::AddNormalized]],
    );
    assert_eq!(normalize.transform(&unasked, &built).err(), Some(Error::UninitializedState));
    assert_eq!(normalize.get("a"), Some((Real(1.0), Real(4.0))));
}

#[test]
fn a_pipeline_applies_its_transformations_in_order() {
    let built = table();
    let dataset = Dataset::from_features_options(
        "piped",
        &[
            vec![
                FeatureOptions::Name("c"),
                FeatureOptions::Mapped(MapSelector::equal(MapValue::zero()), MapOp::replace_with_feature("a")),
                FeatureOptions::Normalized,
            ],
            vec![FeatureOptions::Name("a"), FeatureOptions::Not(&FeatureOptions::UsedInModel)],
            vec![FeatureOptions::Name("b"), FeatureOptions::Out],
        ],
    );
    let mut pipeline: Pipeline<Real> = Pipeline::basic_single_pass();
    assert_eq!(pipeline.transformations.len(), 2);
    assert_eq!(pipeline.transformations[0].get_name(), "map");
    assert_eq!(pipeline.transformations[1].get_name(), "norm");
    assert!(matches!(pipeline.cached_config, CachedConfig::NotCached));
    assert_eq!(pipeline.run().err(), Some(Error::UninitializedState));
    pipeline.load(&built, &dataset).unwrap();
    assert_eq!(pipeline.data.as_ref().unwrap().column_names(), names(&["c", "a", "b"]));
    let (described, data) = pipeline.run().unwrap();
    // Mapped: c = [1, 0, 3, 0]; normalized by 0 and 3; a is not used in the model.
    assert_eq!(described.feature_names(), vec!["c", "b"]);
    assert_eq!(data.column_names(), names(&["c", "b"]));
    assert_eq!(column(&data, "c"), vec![1.0 / 3.0, 0.0, 1.0, 0.0]);
    assert_eq!(column(&data, "b"), vec![10.0, 20.0, 30.0, 40.0]);
    assert_eq!(described.name, "piped");
    // What was done is taken back as far as it can be.
    let back = pipeline.revert(&data);
    assert_eq!(column(&back, "c"), vec![1.0, 0.0, 3.0, 0.0]);
    assert_eq!(column(&back, "b"), vec![10.0, 20.0, 30.0, 40.0]);

    // The order of the transformations counts.
    let mut other: Pipeline<Real> = Pipeline::new();
    other.add(Transformation::MapValues(ValueMap::new()));
    other.prepend(Transformation::Normalize(Normalize::new()));
    assert_eq!(other.transformations[0].get_name(), "norm");
    other.load(&built, &dataset).unwrap();
    let (_, data) = other.run().unwrap();
    // Normalized by 0 and 4 first: c = [0, 0.5, 0, 1]; then the zeros take the value of a.
    assert_eq!(column(&data, "c"), vec![1.0, 0.0, 3.0, 0.0]);

    other.cached("work");
    match &other.cached_config {
        CachedConfig::Cached { id, working_dir } => {
            assert_eq!(id, "");
            assert_eq!(working_dir, "work");
        }
        CachedConfig::NotCached => panic!("the pipeline was asked to keep what it computes"),
    }
    let lacking = built.drop_column("a").unwrap();
    assert_eq!(other.load(&lacking, &dataset).err(), Some(Error::MissingRequiredColumn));
    assert_eq!(other.data.as_ref().unwrap().num_columns(), 3);
}

#[test]
fn the_samples_of_a_table_follow_the_dataset() {
    let table = sums_table();
    let dataset = sums_dataset();
    assert_eq!(id_column(&dataset), Some("id".to_string()));
    let samples = samples_of(&dataset, &table).unwrap();
    assert_eq!(samples.ids, (0..10).map(|i| Real(100.0 + i as f64)).collect::<Vec<Real>>());
    assert_eq!(samples.x.len(), 10);
    assert_eq!(samples.x[5], reals(&[0.5, 0.5]));
    assert_eq!(samples.y[5], reals(&[1.0]));

    let no_id = Dataset::from_features_options(
        "sums",
        &[vec![FeatureOptions::Name("x0")], vec![FeatureOptions::Name("sum"), FeatureOptions::Out]],
    );
    assert_eq!(id_column(&no_id), None);
    assert_eq!(samples_of(&no_id, &table).err(), Some(Error::MissingRequiredColumn));
    let no_target = Dataset::from_features_options(
        "sums",
        &[vec![FeatureOptions::Name("id"), FeatureOptions::IsId], vec![FeatureOptions::Name("x0")]],
    );
    assert_eq!(samples_of(&no_target, &table).err(), Some(Error::MissingRequiredColumn));
    for missing in ["id", "x1", "sum"] {
        let lacking = table.drop_column(missing).unwrap();
        assert_eq!(samples_of(&dataset, &lacking).err(), Some(Error::MissingRequiredColumn));
    }
    // Dates and identifiers are no inputs.
    let dated = dataset.with_added_feature(Feature::from_options(&[
        FeatureOptions::Name("when"),
        FeatureOptions::DateFormat("%Y"),
    ]));
    assert_eq!(samples_of(&dated, &table).unwrap().x[5], reals(&[0.5, 0.5]));
}

#[test]
fn predictions_are_tabled_with_what_identifies_their_sample() {
    let dataset = sums_dataset();
    let ids = reals(&[100.0, 101.0, 102.0, 103.0]);
    let order = vec![2usize, 0, 3, 1];
    let predictions = vec![reals(&[0.5]), reals(&[0.75])];
    let table = predictions_table(&dataset, &predictions, &ids, &order, 2).unwrap();
    assert_eq!(table.column_names(), names(&["pred_sum", "id"]));
    assert_eq!(column(&table, "pred_sum"), vec![0.5, 0.75]);
    assert_eq!(column(&table, "id"), vec![103.0, 101.0]);
    let none = predictions_table(&dataset, &vec![], &ids, &order, 4).unwrap();
    assert_eq!((none.num_rows(), none.num_columns()), (0, 2));
    let wide = predictions_table(&dataset, &vec![reals(&[0.5, 0.6])], &ids, &order, 0);
    assert_eq!(wide.err(), Some(Error::ShapeMismatch));
}

#[test]
fn a_table_is_trained_on_like_its_samples() {
    let table = sums_table();
    let dataset = sums_dataset();
    let model = Model { epochs: 60, batch_size: Some(4), loss: Losses::MSE };
    let order: Vec<usize> = vec![9, 0, 8, 1, 7, 2, 6, 3, 5, 4];
    let no_reporter: Option<Reporter> = None;

    let mut network = linear_network(0.1);
    let mut trainer = SplitTraining::new(Real(0.7));
    let (predicted, evaluation) =
        trainer.run_on_table_in_order(&model, &dataset, &mut network, &table, &order, &no_reporter).unwrap();
    assert_eq!(predicted.column_names(), names(&["pred_sum", "id"]));
    assert_eq!(column(&predicted, "id"), vec![103.0, 105.0, 104.0]);
    assert_eq!(evaluation.len(), 1);

    // The same run on the samples themselves.
    let samples = samples_of(&dataset, &table).unwrap();
    let mut by_hand = linear_network(0.1);
    let mut other = SplitTraining::new(Real(0.7));
    let (predictions, records) =
        other.run_in_order(&model, &mut by_hand, &samples.x, &samples.y, &order, &no_reporter).unwrap();
    assert_eq!(column(&predicted, "pred_sum"), predictions.iter().map(|p| p[0].0).collect::<Vec<f64>>());
    assert_eq!(
        evaluation.get_final_epoch_of(0).unwrap().train_loss,
        records.get_final_epoch_of(0).unwrap().train_loss
    );
    assert_eq!(trainer.take_model().0, other.take_model().0);
    assert_eq!(network.get_params().0, by_hand.get_params().0);
}

#[test]
fn a_table_without_its_columns_is_refused_before_training() {
    let table = sums_table();
    let model = Model { epochs: 5, batch_size: None, loss: Losses::MSE };
    let order: Vec<usize> = (0..10).collect();
    let no_reporter: Option<Reporter> = None;
    let mut network = linear_network(0.1);
    let before = network.get_params().0;
    let mut trainer = SplitTraining::new(Real(0.7));

    let no_id = Dataset::from_features_options(
        "sums",
        &[
            vec![FeatureOptions::Name("x0")],
            vec![FeatureOptions::Name("x1")],
            vec![FeatureOptions::Name("sum"), FeatureOptions::Out],
        ],
    );
    let refused = trainer.run_on_table_in_order(&model, &no_id, &mut network, &table, &order, &no_reporter);
    assert_eq!(refused.err(), Some(Error::MissingRequiredColumn));
    let lacking = table.drop_column("sum").unwrap();
    let refused =
        trainer.run_on_table_in_order(&model, &sums_dataset(), &mut network, &lacking, &order, &no_reporter);
    assert_eq!(refused.err(), Some(Error::MissingRequiredColumn));
    let refused = trainer.run_on_table(&model, &no_id, &mut network, &table, &no_reporter);
    assert_eq!(refused.err(), Some(Error::MissingRequiredColumn));
    assert_eq!(network.get_params().0, before);
    assert!(trainer.model.is_none());

    // Samples that the network does not take are refused as before.
    let wide = sums_dataset().with_added_feature(Feature::from_options(&[FeatureOptions::Name("id")]));
    let refused = trainer.run_on_table_in_order(&model, &wide, &mut network, &table, &order, &no_reporter);
    assert_eq!(refused.err(), Some(Error::ShapeMismatch));
}

#[test]
fn a_table_is_trained_on_in_a_random_order() {
    let table = sums_table();
    let dataset = sums_dataset();
    let model = Model { epochs: 400, batch_size: Some(4), loss: Losses::MSE };
    let no_reporter: Option<Reporter> = None;
    let mut network = linear_network(0.1);
    let mut trainer = SplitTraining::new(Real(0.8));
    let (predicted, evaluation) = trainer.run_on_table(&model, &dataset, &mut network, &table, &no_reporter).unwrap();
    assert_eq!(predicted.num_rows(), 2);
    assert!(evaluation.get_final_epoch_of(0).unwrap().test_loss_avg.0 < 1e-2);
    // Each prediction stands beside what identifies its sample.
    let samples = samples_of(&dataset, &table).unwrap();
    for row in predicted.to_vectors() {
        let sample = (row[1].0 - 100.0) as usize;
        assert!((row[0].0 - samples.y[sample][0].0).abs() < 0.1);
        assert_eq!(row[0], network.predict(&samples.x[sample]).unwrap()[0]);
    }
}

#[test]
fn rows_are_appended_under_the_same_names() {
    let built = table();
    let more = DataTable::from_columns(names(&["a", "b", "c"]), vec![reals(&[5.0]), reals(&[50.0]), reals(&[6.0])])
        .unwrap();
    let both = built.append(&more).unwrap();
    assert_eq!(both.num_rows(), 5);
    assert_eq!(column(&both, "a"), vec![1.0, 2.0, 3.0, 4.0, 5.0]);
    assert_eq!(column(&both, "c"), vec![0.0, 2.0, 0.0, 4.0, 6.0]);
    assert_eq!(both.column_names(), names(&["a", "b", "c"]));
    // A table without columns takes any rows.
    let first = DataTable::new_empty().append(&more).unwrap();
    assert_eq!(first.to_vectors(), more.to_vectors());
    assert_eq!(first.column_names(), more.column_names());
    // Other names, or the names in another order, are refused.
    let other = more.rename_column("c", "d").unwrap();
    assert_eq!(built.append(&other).err(), Some(Error::ShapeMismatch));
    let swapped = more.select_columns(&["b", "a", "c"]).unwrap();
    assert_eq!(built.append(&swapped).err(), Some(Error::ShapeMismatch));
    assert_eq!(built.append(&DataTable::new_empty()).err(), Some(Error::ShapeMismatch));
    let no_rows = built.rows_between(0, 0);
    assert_eq!(built.append(&no_rows).unwrap().to_vectors(), built.to_vectors());
}

#[test]
fn folds_are_trained_on_a_table_like_on_its_samples() {
    let table = sums_table();
    let dataset = sums_dataset();
    let model = Model { epochs: 30, batch_size: Some(3), loss: Losses::MSE };
    let order: Vec<usize> = vec![9, 0, 8, 1, 7, 2, 6, 3, 5, 4];
    let no_reporter: Option<Reporter> = None;

    let mut networks = vec![linear_network(0.1), linear_network(0.1), linear_network(0.1)];
    let mut trainer = KFolds::new(3);
    trainer.compute_best_model();
    let (predicted, evaluation) =
        trainer.run_on_table_in_order(&model, &dataset, &mut networks, &table, &order, &no_reporter).unwrap();
    assert_eq!(evaluation.len(), 3);
    assert_eq!(predicted.column_names(), names(&["pred_sum", "id"]));
    // Fold after fold, each sample stands once, beside the prediction of its fold.
    assert_eq!(column(&predicted, "id"), vec![109.0, 101.0, 106.0, 104.0, 100.0, 107.0, 103.0, 108.0, 102.0, 105.0]);

    let samples = samples_of(&dataset, &table).unwrap();
    let mut by_hand = vec![linear_network(0.1), linear_network(0.1), linear_network(0.1)];
    let mut other = KFolds::new(3);
    other.compute_best_model();
    let (predictions, _) =
        other.run_in_order(&model, &mut by_hand, &samples.x, &samples.y, &order, &no_reporter).unwrap();
    let flat: Vec<f64> = predictions.iter().flatten().map(|prediction| prediction[0].0).collect();
    assert_eq!(column(&predicted, "pred_sum"), flat);
    assert_eq!(trainer.take_best_model().0, other.take_best_model().0);

    // A table that lacks a column is refused before any training.
    let lacking = table.drop_column("id").unwrap();
    let before = networks[0].get_params().0;
    let refused = trainer.run_on_table_in_order(&model, &dataset, &mut networks, &lacking, &order, &no_reporter);
    assert_eq!(refused.err(), Some(Error::MissingRequiredColumn));
    assert_eq!(networks[0].get_params().0, before);
    let refused = trainer.run_on_table(&model, &dataset, &mut networks, &lacking, &no_reporter);
    assert_eq!(refused.err(), Some(Error::MissingRequiredColumn));

    // In a random order each sample is still predicted for once.
    let (predicted, _) = trainer.run_on_table(&model, &dataset, &mut networks, &table, &no_reporter).unwrap();
    let mut ids = column(&predicted, "id");
    ids.sort_by(|a, b| a.partial_cmp(b).unwrap());
    assert_eq!(ids, (0..10).map(|i| 100.0 + i as f64).collect::<Vec<f64>>());
}

#[test]
fn tables_are_joined_on_a_key() {
    let data = DataTable::from_columns(
        names(&["id", "x"]),
        vec![reals(&[3.0, 1.0, 2.0, 9.0, 1.0]), reals(&[30.0, 10.0, 20.0, 90.0, 11.0])],
    )
    .unwrap();
    let predictions = DataTable::from_columns(
        names(&["pred", "id", "fold"]),
        vec![reals(&[0.1, 0.2, 0.3, 0.4]), reals(&[1.0, 2.0, 3.0, 1.0]), reals(&[0.0, 1.0, 2.0, 3.0])],
    )
    .unwrap();
    let joined = data.join(&predictions, "id").unwrap();
    // The rows of the data that have a match, in their order, each beside its first match.
    assert_eq!(joined.column_names(), names(&["id", "x", "pred", "fold"]));
    assert_eq!(column(&joined, "id"), vec![3.0, 1.0, 2.0, 1.0]);
    assert_eq!(column(&joined, "x"), vec![30.0, 10.0, 20.0, 11.0]);
    assert_eq!(column(&joined, "pred"), vec![0.3, 0.1, 0.2, 0.1]);
    assert_eq!(column(&joined, "fold"), vec![2.0, 0.0, 1.0, 0.0]);
    // The other way round, the predictions lead.
    let turned = predictions.join(&data, "id").unwrap();
    assert_eq!(turned.column_names(), names(&["pred", "id", "fold", "x"]));
    assert_eq!(column(&turned, "x"), vec![10.0, 20.0, 30.0, 10.0]);
    // A key that one of the two lacks.
    assert_eq!(data.join(&predictions, "x").err(), Some(Error::MissingRequiredColumn));
    assert_eq!(data.join(&predictions, "fold").err(), Some(Error::MissingRequiredColumn));
    // No match at all.
    let strangers = DataTable::from_columns(names(&["id"]), vec![reals(&[7.0, 8.0])]).unwrap();
    let none = data.join(&strangers, "id").unwrap();
    assert_eq!((none.num_rows(), none.num_columns()), (0, 2));

    assert_eq!(DataTable::first_match(&reals(&[5.0, 6.0, 5.0]), Real(5.0)), Some(0));
    assert_eq!(DataTable::first_match(&reals(&[5.0, 6.0, 5.0]), Real(6.0)), Some(1));
    assert_eq!(DataTable::first_match(&reals(&[5.0, 6.0, 5.0]), Real(7.0)), None);
    assert_eq!(DataTable::first_match(&reals(&[f64::NAN]), Real(f64::NAN)), None);

    let beside = data.rows_between(0, 4).with_columns_of(&predictions).unwrap();
    assert_eq!(beside.column_names(), names(&["id", "x", "pred", "id", "fold"]));
    assert_eq!(beside.num_rows(), 4);
    assert_eq!(data.with_columns_of(&predictions).err(), Some(Error::ShapeMismatch));
}
