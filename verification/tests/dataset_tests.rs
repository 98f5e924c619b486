use jiro_nn::dataset::{Dataset, Feature, FeatureOptions};
use jiro_nn::preprocessing::map::{MapOp, MapSelector, MapValue};

fn feature(options: &[FeatureOptions]) -> Feature {
    Feature::from_options(options)
}

#[test]
fn a_feature_from_no_options_is_used_in_the_model() {
    let fresh = feature(&[]);
    assert_eq!(fresh.name, "");
    assert!(fresh.used_in_model);
    assert!(!fresh.out && !fresh.is_id && !fresh.normalized && !fresh.log10 && !fresh.squared);
    assert!(fresh.date_format.is_none() && fresh.mapped.is_none());
    assert!(fresh.with_log10.is_none() && fresh.with_squared.is_none());
    assert!(!Feature::default().used_in_model);
}

#[test]
fn plain_options_set_their_field() {
    let built = feature(&[
        FeatureOptions::Name("price"),
        FeatureOptions::Out,
        FeatureOptions::DateFormat("%Y"),
        FeatureOptions::ToTimestamp,
        FeatureOptions::ExtractMonth,
        FeatureOptions::Log10,
        FeatureOptions::Normalized,
        FeatureOptions::FilterOutliers,
        FeatureOptions::Squared,
        FeatureOptions::IsId,
    ]);
    assert_eq!(built.name, "price");
    assert_eq!(built.date_format.as_deref(), Some("%Y"));
    assert!(built.out && built.to_timestamp && built.extract_month && built.log10);
    assert!(built.normalized && built.filter_outliers && built.squared && built.is_id);
    assert!(built.used_in_model);
}

#[test]
fn not_inverts_the_option_it_holds() {
    let built = feature(&[
        FeatureOptions::Normalized,
        FeatureOptions::Not(&FeatureOptions::Normalized),
        FeatureOptions::Not(&FeatureOptions::UsedInModel),
        FeatureOptions::Not(&FeatureOptions::Not(&FeatureOptions::Out)),
    ]);
    assert!(!built.normalized);
    assert!(!built.used_in_model);
    assert!(built.out);
}

#[test]
fn derived_extractions_are_named_after_the_feature() {
    let built = feature(&[
        FeatureOptions::Name("date"),
        FeatureOptions::AddExtractedMonth,
        FeatureOptions::AddExtractedTimestamp,
        FeatureOptions::AddLog10,
        FeatureOptions::AddNormalized,
        FeatureOptions::AddSquared,
    ]);
    assert_eq!(built.with_extracted_month.as_ref().unwrap().name, "date_month");
    assert_eq!(built.with_extracted_timestamp.as_ref().unwrap().name, "date_timestamp");
    assert_eq!(built.with_log10.as_ref().unwrap().name, "log10(date)");
    assert_eq!(built.with_normalized.as_ref().unwrap().name, "date_normalized");
    assert_eq!(built.with_squared.as_ref().unwrap().name, "date^2");
    assert!(built.with_squared.as_ref().unwrap().used_in_model);
    assert!(!built.with_squared.as_ref().unwrap().squared);
}

#[test]
fn described_extractions_are_built_from_their_options() {
    let built = feature(&[
        FeatureOptions::Name("area"),
        FeatureOptions::AddFeatureLog10(vec![FeatureOptions::Name("log_area"), FeatureOptions::Normalized]),
        FeatureOptions::AddFeatureSquared(vec![FeatureOptions::Name("area2")]),
        FeatureOptions::AddFeatureNormalized(vec![]),
        FeatureOptions::AddFeatureExtractedMonth(vec![FeatureOptions::Out]),
        FeatureOptions::AddFeatureExtractedTimestamp(vec![FeatureOptions::AddFeatureLog10(vec![
            FeatureOptions::Name("deep"),
        ])]),
    ]);
    let log = built.with_log10.as_ref().unwrap();
    assert_eq!(log.name, "log_area");
    assert!(log.normalized && log.used_in_model);
    assert_eq!(built.with_squared.as_ref().unwrap().name, "area2");
    assert_eq!(built.with_normalized.as_ref().unwrap().name, "");
    assert!(built.with_extracted_month.as_ref().unwrap().out);
    let deep = built.with_extracted_timestamp.as_ref().unwrap().with_log10.as_ref().unwrap();
    assert_eq!(deep.name, "deep");
}

#[test]
fn except_and_only_go_by_the_feature_name() {
    let names = ["a", "b"];
    let normalized = FeatureOptions::Normalized;
    let mut a = feature(&[FeatureOptions::Name("a")]);
    let mut c = feature(&[FeatureOptions::Name("c")]);
    normalized.except(&names).apply(&mut a);
    normalized.except(&names).apply(&mut c);
    assert!(!a.normalized && c.normalized);
    let squared = FeatureOptions::Squared;
    squared.only(&names).apply(&mut a);
    squared.only(&names).apply(&mut c);
    assert!(a.squared && !c.squared);
    let empty: [&str; 0] = [];
    let mut d = feature(&[FeatureOptions::Name("d")]);
    FeatureOptions::Out.only(&empty).apply(&mut d);
    assert!(!d.out);
    FeatureOptions::Out.except(&empty).apply(&mut d);
    assert!(d.out);
}

#[test]
fn options_can_reach_the_extracted_features() {
    let mut built = feature(&[
        FeatureOptions::Name("x"),
        FeatureOptions::AddLog10,
        FeatureOptions::AddFeatureSquared(vec![FeatureOptions::Name("x2"), FeatureOptions::AddNormalized]),
    ]);
    FeatureOptions::Normalized.incl_added_features().apply(&mut built);
    assert!(built.normalized);
    assert!(built.with_log10.as_ref().unwrap().normalized);
    let squared = built.with_squared.as_ref().unwrap();
    assert!(squared.normalized);
    assert!(squared.with_normalized.as_ref().unwrap().normalized);
    assert_eq!(squared.with_normalized.as_ref().unwrap().name, "x2_normalized");

    let not_used = FeatureOptions::Not(&FeatureOptions::UsedInModel);
    not_used.incl_added_features().apply(&mut built);
    assert!(!built.used_in_model);
    assert!(!built.with_log10.as_ref().unwrap().used_in_model);

    // The extracted features are reached before the option adds new ones.
    let mut grows = feature(&[FeatureOptions::Name("y"), FeatureOptions::AddLog10]);
    FeatureOptions::AddSquared.incl_added_features().apply(&mut grows);
    assert_eq!(grows.with_squared.as_ref().unwrap().name, "y^2");
    let log = grows.with_log10.as_ref().unwrap();
    assert_eq!(log.with_squared.as_ref().unwrap().name, "log10(y)^2");
    assert!(grows.with_squared.as_ref().unwrap().with_squared.is_none());
}

#[test]
fn mapped_keeps_selector_and_operation() {
    let built = feature(&[FeatureOptions::Mapped(
        MapSelector::equal(MapValue::take_from_feature("other")),
        MapOp::replace_with(MapValue::zero()),
    )]);
    match built.mapped {
        Some((MapSelector::Equal(MapValue::Feature(name)), MapOp::ReplaceWith(MapValue::Zero))) => {
            assert_eq!(name, "other")
        }
        other => panic!("unexpected mapping {:?}", other),
    }
    assert!(matches!(MapSelector::all(), MapSelector::All));
    assert!(matches!(MapSelector::default(), MapSelector::All));
    assert!(matches!(MapOp::default(), MapOp::Keep));
    assert!(matches!(MapValue::default(), MapValue::Zero));
    match MapOp::replace_with_feature("source") {
        MapOp::ReplaceWith(MapValue::Feature(name)) => assert_eq!(name, "source"),
        other => panic!("unexpected operation {:?}", other),
    }
    let copy = MapOp::replace_with_feature("source").clone();
    assert!(matches!(copy, MapOp::ReplaceWith(MapValue::Feature(_))));
}

fn housing() -> Dataset {
    Dataset::from_features_options(
        "housing",
        &[
            vec![FeatureOptions::Name("id"), FeatureOptions::IsId],
            vec![FeatureOptions::Name("date"), FeatureOptions::DateFormat("%Y%m%d")],
            vec![FeatureOptions::Name("sqft"), FeatureOptions::Log10],
            vec![FeatureOptions::Name("price"), FeatureOptions::Out],
            vec![FeatureOptions::Name("rooms")],
            vec![FeatureOptions::Name("rent"), FeatureOptions::Out],
        ],
    )
}

#[test]
fn dataset_lists_its_features_by_role() {
    let dataset = housing();
    assert_eq!(dataset.name, "housing");
    assert_eq!(dataset.feature_names(), vec!["id", "date", "sqft", "price", "rooms", "rent"]);
    assert_eq!(dataset.in_features_names(), vec!["sqft", "rooms"]);
    assert_eq!(dataset.out_features_names(), vec!["price", "rent"]);
    assert_eq!(dataset.pred_out_features_names(), vec!["pred_price".to_string(), "pred_rent".to_string()]);
    let empty = Dataset::default();
    assert_eq!(empty.name, "");
    assert!(empty.feature_names().is_empty());
    assert!(empty.pred_out_features_names().is_empty());
}

#[test]
fn dataset_copies_with_added_and_replaced_features() {
    let dataset = housing();
    let added = dataset.with_added_feature(feature(&[FeatureOptions::Name("garden"), FeatureOptions::Squared]));
    assert_eq!(added.feature_names(), vec!["id", "date", "sqft", "price", "rooms", "rent", "garden"]);
    assert!(added.features[6].squared);
    assert_eq!(dataset.features.len(), 6);
    let replaced = added.with_replaced_feature("sqft", feature(&[FeatureOptions::Name("area")]));
    assert_eq!(replaced.feature_names(), vec!["id", "date", "area", "price", "rooms", "rent", "garden"]);
    assert!(!replaced.features[2].log10);
    assert_eq!(replaced.name, "housing");
    // Only the first feature of that name is replaced.
    let twice = Dataset::new(
        "twice",
        &[feature(&[FeatureOptions::Name("a")]), feature(&[FeatureOptions::Name("a"), FeatureOptions::Out])],
    );
    let once = twice.with_replaced_feature("a", feature(&[FeatureOptions::Name("b")]));
    assert_eq!(once.feature_names(), vec!["b", "a"]);
    assert!(once.features[1].out);
    let copy = twice.clone();
    assert_eq!(copy.feature_names(), vec!["a", "a"]);
}

#[test]
fn dataset_from_column_names_has_fresh_features() {
    let dataset = Dataset::from_column_names("table", &["a".to_string(), "b".to_string()]);
    assert_eq!(dataset.name, "table");
    assert_eq!(dataset.feature_names(), vec!["a", "b"]);
    assert!(dataset.features.iter().all(|f| f.used_in_model && !f.out));
    assert_eq!(dataset.in_features_names(), vec!["a", "b"]);
}

#[test]
fn dataset_removes_features_by_name() {
    let mut dataset = housing();
    dataset.remove_features(&["date", "rooms", "absent"]);
    assert_eq!(dataset.feature_names(), vec!["id", "sqft", "price", "rent"]);
    assert_eq!(dataset.name, "housing");
    dataset.remove_features(&[]);
    assert_eq!(dataset.features.len(), 4);
}

#[test]
fn dataset_applies_options_to_some_or_all_features() {
    let mut dataset = housing();
    dataset.add_opt_to("sqft", FeatureOptions::AddSquared);
    assert_eq!(dataset.features[2].with_squared.as_ref().unwrap().name, "sqft^2");
    assert!(dataset.features[4].with_squared.is_none());
    dataset.add_opt_to("absent", FeatureOptions::Out);
    assert_eq!(dataset.out_features_names(), vec!["price", "rent"]);
    dataset.add_opt(FeatureOptions::Normalized.except(&["id", "date"]));
    let normalized: Vec<bool> = dataset.features.iter().map(|f| f.normalized).collect();
    assert_eq!(normalized, vec![false, false, true, true, true, true]);
    dataset.add_opt(FeatureOptions::Not(&FeatureOptions::Normalized));
    assert!(dataset.features.iter().all(|f| !f.normalized));
    dataset.add_opt(FeatureOptions::FilterOutliers.only(&["price"]).incl_added_features());
    let filtered: Vec<bool> = dataset.features.iter().map(|f| f.filter_outliers).collect();
    assert_eq!(filtered, vec![false, false, false, true, false, false]);
}

#[test]
fn extracted_features_are_counted_in_the_order_of_their_places() {
    let mut built = feature(&[
        FeatureOptions::Name("when"),
        FeatureOptions::AddSquared,
        FeatureOptions::AddExtractedTimestamp,
        FeatureOptions::AddNormalized,
    ]);
    assert_eq!(built.count_extracted_features(), 3);
    assert_eq!(built.place_of_extracted(0), Some(1));
    assert_eq!(built.place_of_extracted(1), Some(3));
    assert_eq!(built.place_of_extracted(2), Some(4));
    assert_eq!(built.place_of_extracted(3), None);
    let names: Vec<String> =
        (0..3).map(|number| built.get_extracted_features_mut(number).unwrap().name.clone()).collect();
    assert_eq!(names, vec!["when_timestamp", "when_normalized", "when^2"]);
    assert!(built.get_extracted_features_mut(3).is_none());

    // What is changed through the accessor is changed in the feature.
    built.get_extracted_features_mut(1).unwrap().out = true;
    built.get_extracted_features_mut(2).unwrap().name = "when_squared".to_string();
    assert!(built.with_normalized.as_ref().unwrap().out);
    assert!(!built.with_extracted_timestamp.as_ref().unwrap().out);
    assert_eq!(built.with_squared.as_ref().unwrap().name, "when_squared");
    assert_eq!(built.name, "when");

    let mut all = feature(&[
        FeatureOptions::Name("x"),
        FeatureOptions::AddExtractedMonth,
        FeatureOptions::AddExtractedTimestamp,
        FeatureOptions::AddLog10,
        FeatureOptions::AddNormalized,
        FeatureOptions::AddSquared,
    ]);
    assert_eq!(all.count_extracted_features(), 5);
    for number in 0..5 {
        assert_eq!(all.place_of_extracted(number), Some(number));
        assert!(all.get_extracted_features_mut(number).is_some());
    }
    assert!(all.get_extracted_features_mut(5).is_none());
    let mut none = feature(&[FeatureOptions::Name("x")]);
    assert_eq!(none.count_extracted_features(), 0);
    assert!(none.get_extracted_features_mut(0).is_none());
}
