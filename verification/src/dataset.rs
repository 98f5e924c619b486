//! The description of a dataset: its columns, and what is asked of each.

use crate::preprocessing::map::{MapOp, MapOpView, MapSelector, MapSelectorView};
use vstd::prelude::*;

pub mod extracted;

verus! {

/// One column of a dataset, with the treatment it asks for.
#[derive(Debug, Hash)]
pub struct Feature {
    pub name: String,
    /// The column is a target of the model.
    pub out: bool,
    /// Set when the column holds dates written in this format.
    pub date_format: Option<String>,
    pub to_timestamp: bool,
    pub extract_month: bool,
    pub log10: bool,
    pub normalized: bool,
    pub filter_outliers: bool,
    pub mapped: Option<(MapSelector, MapOp)>,
    pub squared: bool,
    pub with_extracted_timestamp: Option<Box<Feature>>,
    pub with_extracted_month: Option<Box<Feature>>,
    pub with_log10: Option<Box<Feature>>,
    pub with_normalized: Option<Box<Feature>>,
    pub with_squared: Option<Box<Feature>>,
    /// The column is kept when the pipeline ends.
    pub used_in_model: bool,
    /// The column identifies the row.
    pub is_id: bool,
}

/// Mathematical model of a [`Feature`]: texts are sequences of characters.
pub struct FeatureView {
    pub name: Seq<char>,
    pub out: bool,
    pub date_format: Option<Seq<char>>,
    pub to_timestamp: bool,
    pub extract_month: bool,
    pub log10: bool,
    pub normalized: bool,
    pub filter_outliers: bool,
    pub mapped: Option<(MapSelectorView, MapOpView)>,
    pub squared: bool,
    pub with_extracted_timestamp: Option<Box<FeatureView>>,
    pub with_extracted_month: Option<Box<FeatureView>>,
    pub with_log10: Option<Box<FeatureView>>,
    pub with_normalized: Option<Box<FeatureView>>,
    pub with_squared: Option<Box<FeatureView>>,
    pub used_in_model: bool,
    pub is_id: bool,
}

impl FeatureView {
    /// The feature without a name that asks for nothing.
    pub open spec fn blank() -> FeatureView {
        FeatureView {
            name: Seq::empty(),
            out: false,
            date_format: None,
            to_timestamp: false,
            extract_month: false,
            log10: false,
            normalized: false,
            filter_outliers: false,
            mapped: None,
            squared: false,
            with_extracted_timestamp: None,
            with_extracted_month: None,
            with_log10: None,
            with_normalized: None,
            with_squared: None,
            used_in_model: false,
            is_id: false,
        }
    }

    /// The feature that a list of options starts from: blank, and used in the model.
    pub open spec fn fresh() -> FeatureView {
        FeatureView { used_in_model: true, ..FeatureView::blank() }
    }

    /// A fresh feature that has only a name.
    pub open spec fn named(name: Seq<char>) -> FeatureView {
        FeatureView { name, ..FeatureView::fresh() }
    }
}

/// The model of an optional nested feature.
pub open spec fn nested_view(nested: Option<Box<Feature>>) -> Option<Box<FeatureView>>
    decreases nested,
{
    match nested {
        Some(inner) => Some(Box::new(inner.model())),
        None => None,
    }
}

impl Feature {
    /// What the feature holds, as a mathematical value.
    pub open spec fn model(&self) -> FeatureView
        decreases self,
    {
        FeatureView {
            name: self.name@,
            out: self.out,
            date_format: match self.date_format {
                Some(format) => Some(format@),
                None => None,
            },
            to_timestamp: self.to_timestamp,
            extract_month: self.extract_month,
            log10: self.log10,
            normalized: self.normalized,
            filter_outliers: self.filter_outliers,
            mapped: match self.mapped {
                Some(pair) => Some((pair.0@, pair.1@)),
                None => None,
            },
            squared: self.squared,
            with_extracted_timestamp: nested_view(self.with_extracted_timestamp),
            with_extracted_month: nested_view(self.with_extracted_month),
            with_log10: nested_view(self.with_log10),
            with_normalized: nested_view(self.with_normalized),
            with_squared: nested_view(self.with_squared),
            used_in_model: self.used_in_model,
            is_id: self.is_id,
        }
    }
}

impl View for Feature {
    type V = FeatureView;

    open spec fn view(&self) -> FeatureView {
        self.model()
    }
}

/// One thing asked of a feature.
#[derive(Debug)]
pub enum FeatureOptions<'a> {
    Name(&'a str),
    Out,
    DateFormat(&'a str),
    ToTimestamp,
    ExtractMonth,
    Log10,
    Normalized,
    FilterOutliers,
    Squared,
    UsedInModel,
    IsId,
    AddExtractedMonth,
    AddExtractedTimestamp,
    AddLog10,
    AddNormalized,
    AddSquared,
    AddFeatureExtractedMonth(Vec<FeatureOptions<'a>>),
    AddFeatureExtractedTimestamp(Vec<FeatureOptions<'a>>),
    AddFeatureLog10(Vec<FeatureOptions<'a>>),
    AddFeatureNormalized(Vec<FeatureOptions<'a>>),
    AddFeatureSquared(Vec<FeatureOptions<'a>>),
    Mapped(MapSelector, MapOp),
    /// The option that follows, with the opposite effect.
    Not(&'a FeatureOptions<'a>),
    /// The option that follows, on the feature and on the features extracted from it.
    RecurseAdded(&'a FeatureOptions<'a>),
    /// The option that follows, but on the features that are named.
    ExceptFeatures(&'a FeatureOptions<'a>, &'a [&'a str]),
    /// The option that follows, on the features that are named only.
    OnlyFeatures(&'a FeatureOptions<'a>, &'a [&'a str]),
}

/// Mathematical model of a [`FeatureOptions`].
pub enum FeatureOptionsView {
    Name(Seq<char>),
    Out,
    DateFormat(Seq<char>),
    ToTimestamp,
    ExtractMonth,
    Log10,
    Normalized,
    FilterOutliers,
    Squared,
    UsedInModel,
    IsId,
    AddExtractedMonth,
    AddExtractedTimestamp,
    AddLog10,
    AddNormalized,
    AddSquared,
    AddFeatureExtractedMonth(Seq<FeatureOptionsView>),
    AddFeatureExtractedTimestamp(Seq<FeatureOptionsView>),
    AddFeatureLog10(Seq<FeatureOptionsView>),
    AddFeatureNormalized(Seq<FeatureOptionsView>),
    AddFeatureSquared(Seq<FeatureOptionsView>),
    Mapped(MapSelectorView, MapOpView),
    Not(Box<FeatureOptionsView>),
    RecurseAdded(Box<FeatureOptionsView>),
    ExceptFeatures(Box<FeatureOptionsView>, Seq<Seq<char>>),
    OnlyFeatures(Box<FeatureOptionsView>, Seq<Seq<char>>),
}

/// The models of a list of names.
pub open spec fn names_view(names: &[&str]) -> Seq<Seq<char>> {
    Seq::new(names@.len(), |i: int| names@[i]@)
}

/// The models of a list of options.
pub open spec fn options_view(options: Vec<FeatureOptions>) -> Seq<FeatureOptionsView>
    decreases options,
{
    Seq::new(
        options@.len(),
        |i: int|
            if 0 <= i < options@.len() {
                options@[i].model()
            } else {
                FeatureOptionsView::Out
            },
    )
}

impl<'a> FeatureOptions<'a> {
    /// What the option says, as a mathematical value.
    pub open spec fn model(&self) -> FeatureOptionsView
        decreases self,
    {
        match self {
            FeatureOptions::Name(name) => FeatureOptionsView::Name(name@),
            FeatureOptions::Out => FeatureOptionsView::Out,
            FeatureOptions::DateFormat(format) => FeatureOptionsView::DateFormat(format@),
            FeatureOptions::ToTimestamp => FeatureOptionsView::ToTimestamp,
            FeatureOptions::ExtractMonth => FeatureOptionsView::ExtractMonth,
            FeatureOptions::Log10 => FeatureOptionsView::Log10,
            FeatureOptions::Normalized => FeatureOptionsView::Normalized,
            FeatureOptions::FilterOutliers => FeatureOptionsView::FilterOutliers,
            FeatureOptions::Squared => FeatureOptionsView::Squared,
            FeatureOptions::UsedInModel => FeatureOptionsView::UsedInModel,
            FeatureOptions::IsId => FeatureOptionsView::IsId,
            FeatureOptions::AddExtractedMonth => FeatureOptionsView::AddExtractedMonth,
            FeatureOptions::AddExtractedTimestamp => FeatureOptionsView::AddExtractedTimestamp,
            FeatureOptions::AddLog10 => FeatureOptionsView::AddLog10,
            FeatureOptions::AddNormalized => FeatureOptionsView::AddNormalized,
            FeatureOptions::AddSquared => FeatureOptionsView::AddSquared,
            FeatureOptions::AddFeatureExtractedMonth(list) => {
                FeatureOptionsView::AddFeatureExtractedMonth(options_view(*list))
            },
            FeatureOptions::AddFeatureExtractedTimestamp(list) => {
                FeatureOptionsView::AddFeatureExtractedTimestamp(options_view(*list))
            },
            FeatureOptions::AddFeatureLog10(list) => {
                FeatureOptionsView::AddFeatureLog10(options_view(*list))
            },
            FeatureOptions::AddFeatureNormalized(list) => {
                FeatureOptionsView::AddFeatureNormalized(options_view(*list))
            },
            FeatureOptions::AddFeatureSquared(list) => {
                FeatureOptionsView::AddFeatureSquared(options_view(*list))
            },
            FeatureOptions::Mapped(selector, op) => FeatureOptionsView::Mapped(selector@, op@),
            FeatureOptions::Not(inner) => FeatureOptionsView::Not(Box::new(inner.model())),
            FeatureOptions::RecurseAdded(inner) => {
                FeatureOptionsView::RecurseAdded(Box::new(inner.model()))
            },
            FeatureOptions::ExceptFeatures(inner, names) => {
                FeatureOptionsView::ExceptFeatures(Box::new(inner.model()), names_view(names))
            },
            FeatureOptions::OnlyFeatures(inner, names) => {
                FeatureOptionsView::OnlyFeatures(Box::new(inner.model()), names_view(names))
            },
        }
    }
}

impl<'a> View for FeatureOptions<'a> {
    type V = FeatureOptionsView;

    open spec fn view(&self) -> FeatureOptionsView {
        self.model()
    }
}


/// The models of a borrowed list of options.
pub open spec fn slice_options_view(options: &[FeatureOptions]) -> Seq<FeatureOptionsView> {
    Seq::new(options@.len(), |i: int| options@[i].model())
}

/// What remains of an optional nested feature once `option` has been applied to it.
pub open spec fn apply_nested(
    option: FeatureOptionsView,
    nested: Option<Box<FeatureView>>,
    value: bool,
) -> Option<Box<FeatureView>>
    decreases option, nested,
{
    match nested {
        Some(inner) => Some(Box::new(apply_spec(option, *inner, value))),
        None => None,
    }
}

/// The feature with `option` applied to each of the features extracted from it.
pub open spec fn apply_to_extracted(
    option: FeatureOptionsView,
    feature: FeatureView,
    value: bool,
) -> FeatureView
    decreases option, feature, 0nat,
{
    FeatureView {
        with_extracted_month: apply_nested(option, feature.with_extracted_month, value),
        with_extracted_timestamp: apply_nested(option, feature.with_extracted_timestamp, value),
        with_log10: apply_nested(option, feature.with_log10, value),
        with_normalized: apply_nested(option, feature.with_normalized, value),
        with_squared: apply_nested(option, feature.with_squared, value),
        ..feature
    }
}

/// The feature that results from applying `option` to `feature`.
///
/// `value` is what a flag is set to; `Not` inverts it for the option it holds.
pub open spec fn apply_spec(
    option: FeatureOptionsView,
    feature: FeatureView,
    value: bool,
) -> FeatureView
    decreases option, feature, 1nat,
{
    match option {
        FeatureOptionsView::Name(name) => FeatureView { name, ..feature },
        FeatureOptionsView::Out => FeatureView { out: value, ..feature },
        FeatureOptionsView::DateFormat(format) => FeatureView {
            date_format: Some(format),
            ..feature
        },
        FeatureOptionsView::ToTimestamp => FeatureView { to_timestamp: value, ..feature },
        FeatureOptionsView::ExtractMonth => FeatureView { extract_month: value, ..feature },
        FeatureOptionsView::Log10 => FeatureView { log10: value, ..feature },
        FeatureOptionsView::Normalized => FeatureView { normalized: value, ..feature },
        FeatureOptionsView::FilterOutliers => FeatureView { filter_outliers: value, ..feature },
        FeatureOptionsView::Squared => FeatureView { squared: value, ..feature },
        FeatureOptionsView::UsedInModel => FeatureView { used_in_model: value, ..feature },
        FeatureOptionsView::IsId => FeatureView { is_id: value, ..feature },
        FeatureOptionsView::AddExtractedMonth => FeatureView {
            with_extracted_month: Some(Box::new(FeatureView::named(feature.name + "_month"@))),
            ..feature
        },
        FeatureOptionsView::AddExtractedTimestamp => FeatureView {
            with_extracted_timestamp: Some(
                Box::new(FeatureView::named(feature.name + "_timestamp"@)),
            ),
            ..feature
        },
        FeatureOptionsView::AddLog10 => FeatureView {
            with_log10: Some(Box::new(FeatureView::named("log10("@ + feature.name + ")"@))),
            ..feature
        },
        FeatureOptionsView::AddNormalized => FeatureView {
            with_normalized: Some(Box::new(FeatureView::named(feature.name + "_normalized"@))),
            ..feature
        },
        FeatureOptionsView::AddSquared => FeatureView {
            with_squared: Some(Box::new(FeatureView::named(feature.name + "^2"@))),
            ..feature
        },
        FeatureOptionsView::AddFeatureExtractedMonth(list) => FeatureView {
            with_extracted_month: Some(Box::new(apply_all_spec(list, FeatureView::fresh()))),
            ..feature
        },
        FeatureOptionsView::AddFeatureExtractedTimestamp(list) => FeatureView {
            with_extracted_timestamp: Some(Box::new(apply_all_spec(list, FeatureView::fresh()))),
            ..feature
        },
        FeatureOptionsView::AddFeatureLog10(list) => FeatureView {
            with_log10: Some(Box::new(apply_all_spec(list, FeatureView::fresh()))),
            ..feature
        },
        FeatureOptionsView::AddFeatureNormalized(list) => FeatureView {
            with_normalized: Some(Box::new(apply_all_spec(list, FeatureView::fresh()))),
            ..feature
        },
        FeatureOptionsView::AddFeatureSquared(list) => FeatureView {
            with_squared: Some(Box::new(apply_all_spec(list, FeatureView::fresh()))),
            ..feature
        },
        FeatureOptionsView::Mapped(selector, op) => FeatureView {
            mapped: Some((selector, op)),
            ..feature
        },
        FeatureOptionsView::Not(inner) => apply_spec(*inner, feature, !value),
        FeatureOptionsView::RecurseAdded(inner) => apply_spec(
            *inner,
            apply_to_extracted(option, feature, value),
            value,
        ),
        FeatureOptionsView::ExceptFeatures(inner, names) => if names.contains(feature.name) {
            feature
        } else {
            apply_spec(*inner, feature, value)
        },
        FeatureOptionsView::OnlyFeatures(inner, names) => if names.contains(feature.name) {
            apply_spec(*inner, feature, value)
        } else {
            feature
        },
    }
}

/// The feature that results from applying the options of a list, first to last.
pub open spec fn apply_all_spec(
    options: Seq<FeatureOptionsView>,
    feature: FeatureView,
) -> FeatureView
    decreases options, feature, 2nat,
{
    if options.len() == 0 {
        feature
    } else {
        apply_spec(options.last(), apply_all_spec(options.drop_last(), feature), true)
    }
}

/// Whether `name` is one of `names`.
fn contains_name(names: &[&str], name: &String) -> (found: bool)
    ensures
        found == names_view(names).contains(name@),
{
    let mut i: usize = 0;
    while i < names.len()
        invariant
            i <= names@.len(),
            forall|k: int| 0 <= k < i ==> names@[k]@ != name@,
        decreases names@.len() - i,
    {
        let candidate = String::from_str(names[i]);
        if candidate == *name {
            assert(names_view(names)[i as int] == name@);
            return true;
        }
        i += 1;
    }
    false
}

/// A copy of an optional nested feature.
fn clone_nested(nested: &Option<Box<Feature>>) -> (res: Option<Box<Feature>>)
    ensures
        res == *nested,
    decreases *nested,
{
    match nested {
        Some(inner) => Some(Box::new((**inner).clone())),
        None => None,
    }
}

impl Clone for Feature {
    fn clone(&self) -> (res: Self)
        ensures
            res == *self,
        decreases *self,
    {
        Feature {
            name: self.name.clone(),
            out: self.out,
            date_format: match &self.date_format {
                Some(format) => Some(format.clone()),
                None => None,
            },
            to_timestamp: self.to_timestamp,
            extract_month: self.extract_month,
            log10: self.log10,
            normalized: self.normalized,
            filter_outliers: self.filter_outliers,
            mapped: match &self.mapped {
                Some(pair) => Some((pair.0.clone(), pair.1.clone())),
                None => None,
            },
            squared: self.squared,
            with_extracted_timestamp: clone_nested(&self.with_extracted_timestamp),
            with_extracted_month: clone_nested(&self.with_extracted_month),
            with_log10: clone_nested(&self.with_log10),
            with_normalized: clone_nested(&self.with_normalized),
            with_squared: clone_nested(&self.with_squared),
            used_in_model: self.used_in_model,
            is_id: self.is_id,
        }
    }
}

impl Default for Feature {
    fn default() -> (res: Self)
        ensures
            res@ == FeatureView::blank(),
    {
        Feature {
            name: String::new(),
            out: false,
            date_format: None,
            to_timestamp: false,
            extract_month: false,
            log10: false,
            normalized: false,
            filter_outliers: false,
            mapped: None,
            squared: false,
            with_extracted_timestamp: None,
            with_extracted_month: None,
            with_log10: None,
            with_normalized: None,
            with_squared: None,
            used_in_model: false,
            is_id: false,
        }
    }
}

/// A fresh feature that has only a name.
fn named_feature(name: String) -> (res: Feature)
    ensures
        res@ == FeatureView::named(name@),
{
    let mut feature = Feature::default();
    feature.used_in_model = true;
    feature.name = name;
    feature
}

impl Feature {
    /// Builds a feature by applying `feature_options`, first to last, to a feature that is
    /// blank but for being used in the model.
    pub fn from_options(feature_options: &[FeatureOptions]) -> (feature: Feature)
        ensures
            feature@ == apply_all_spec(
                slice_options_view(feature_options),
                FeatureView::fresh(),
            ),
        decreases feature_options@,
    {
        let mut feature = Feature::default();
        feature.used_in_model = true;
        let ghost all = slice_options_view(feature_options);
        let mut i: usize = 0;
        while i < feature_options.len()
            invariant
                i <= feature_options@.len(),
                all == slice_options_view(feature_options),
                feature@ == apply_all_spec(all.take(i as int), FeatureView::fresh()),
            decreases feature_options@.len() - i,
        {
            let ghost before = feature@;
            feature_options[i].apply_bool(&mut feature, true);
            proof {
                let prefix = all.take(i + 1);
                assert(prefix.drop_last() == all.take(i as int));
                assert(prefix.last() == feature_options@[i as int].model());
            }
            i += 1;
        }
        assert(all.take(i as int) == all);
        feature
    }
}

impl<'a> FeatureOptions<'a> {
    /// Applies the option to `feature`.
    pub fn apply(&self, feature: &mut Feature)
        ensures
            final(feature)@ == apply_spec(self@, old(feature)@, true),
    {
        self.apply_bool(feature, true)
    }

    /// The option, for every feature but those named in `exceptions`.
    pub fn except(&'a self, exceptions: &'a [&'a str]) -> (res: FeatureOptions<'a>)
        ensures
            res@ == FeatureOptionsView::ExceptFeatures(Box::new(self@), names_view(exceptions)),
    {
        FeatureOptions::ExceptFeatures(self, exceptions)
    }

    /// The option, for the features named in `features` and no others.
    pub fn only(&'a self, features: &'a [&'a str]) -> (res: FeatureOptions<'a>)
        ensures
            res@ == FeatureOptionsView::OnlyFeatures(Box::new(self@), names_view(features)),
    {
        FeatureOptions::OnlyFeatures(self, features)
    }

    /// The option, for a feature and for the features extracted from it.
    pub fn incl_added_features(&'a self) -> (res: FeatureOptions<'a>)
        ensures
            res@ == FeatureOptionsView::RecurseAdded(Box::new(self@)),
    {
        FeatureOptions::RecurseAdded(self)
    }

    /// Applies the option to an optional nested feature.
    fn apply_to_nested(&self, nested: Option<Box<Feature>>, value: bool) -> (res: Option<
        Box<Feature>,
    >)
        ensures
            nested_view(res) == apply_nested(self@, nested_view(nested), value),
        decreases *self, nested,
    {
        match nested {
            Some(inner) => {
                let mut feature = *inner;
                self.apply_bool(&mut feature, value);
                Some(Box::new(feature))
            },
            None => None,
        }
    }

    /// Applies the option to each of the features extracted from `feature`.
    fn apply_to_extracted_features(&self, feature: &mut Feature, value: bool)
        ensures
            final(feature)@ == apply_to_extracted(self@, old(feature)@, value),
        decreases *self, *old(feature), 0nat,
    {
        let month = feature.with_extracted_month.take();
        let timestamp = feature.with_extracted_timestamp.take();
        let log10 = feature.with_log10.take();
        let normalized = feature.with_normalized.take();
        let squared = feature.with_squared.take();
        feature.with_extracted_month = self.apply_to_nested(month, value);
        feature.with_extracted_timestamp = self.apply_to_nested(timestamp, value);
        feature.with_log10 = self.apply_to_nested(log10, value);
        feature.with_normalized = self.apply_to_nested(normalized, value);
        feature.with_squared = self.apply_to_nested(squared, value);
    }

    /// Whether the option writes one field of the feature from what it holds itself.
    pub open spec fn is_plain(&self) -> bool {
        match self {
            FeatureOptions::Name(_)
            | FeatureOptions::Out
            | FeatureOptions::DateFormat(_)
            | FeatureOptions::ToTimestamp
            | FeatureOptions::ExtractMonth
            | FeatureOptions::Log10
            | FeatureOptions::Normalized
            | FeatureOptions::FilterOutliers
            | FeatureOptions::Squared
            | FeatureOptions::UsedInModel
            | FeatureOptions::IsId
            | FeatureOptions::Mapped(_, _) => true,
            _ => false,
        }
    }

    /// Whether the option gives the feature an extracted feature under a derived name.
    pub open spec fn is_derived_extraction(&self) -> bool {
        match self {
            FeatureOptions::AddExtractedMonth
            | FeatureOptions::AddExtractedTimestamp
            | FeatureOptions::AddLog10
            | FeatureOptions::AddNormalized
            | FeatureOptions::AddSquared => true,
            _ => false,
        }
    }

    /// Whether the option gives the feature an extracted feature that it describes itself.
    pub open spec fn is_described_extraction(&self) -> bool {
        match self {
            FeatureOptions::AddFeatureExtractedMonth(_)
            | FeatureOptions::AddFeatureExtractedTimestamp(_)
            | FeatureOptions::AddFeatureLog10(_)
            | FeatureOptions::AddFeatureNormalized(_)
            | FeatureOptions::AddFeatureSquared(_) => true,
            _ => false,
        }
    }

    /// Applies an option that writes one field.
    fn apply_plain(&self, feature: &mut Feature, value: bool)
        requires
            self.is_plain(),
        ensures
            final(feature)@ == apply_spec(self@, old(feature)@, value),
    {
        match self {
            FeatureOptions::Name(name) => {
                feature.name = String::from_str(name);
            },
            FeatureOptions::Out => {
                feature.out = value;
            },
            FeatureOptions::DateFormat(format) => {
                feature.date_format = Some(String::from_str(format));
            },
            FeatureOptions::ToTimestamp => {
                feature.to_timestamp = value;
            },
            FeatureOptions::ExtractMonth => {
                feature.extract_month = value;
            },
            FeatureOptions::Log10 => {
                feature.log10 = value;
            },
            FeatureOptions::Normalized => {
                feature.normalized = value;
            },
            FeatureOptions::FilterOutliers => {
                feature.filter_outliers = value;
            },
            FeatureOptions::Squared => {
                feature.squared = value;
            },
            FeatureOptions::UsedInModel => {
                feature.used_in_model = value;
            },
            FeatureOptions::IsId => {
                feature.is_id = value;
            },
            FeatureOptions::Mapped(selector, op) => {
                feature.mapped = Some((selector.clone(), op.clone()));
            },
            _ => {},
        }
    }

    /// Applies an option that adds an extracted feature named after the feature.
    fn apply_derived_extraction(&self, feature: &mut Feature, value: bool)
        requires
            self.is_derived_extraction(),
        ensures
            final(feature)@ == apply_spec(self@, old(feature)@, value),
    {
        match self {
            FeatureOptions::AddExtractedMonth => {
                let name = feature.name.clone().concat("_month");
                feature.with_extracted_month = Some(Box::new(named_feature(name)));
            },
            FeatureOptions::AddExtractedTimestamp => {
                let name = feature.name.clone().concat("_timestamp");
                feature.with_extracted_timestamp = Some(Box::new(named_feature(name)));
            },
            FeatureOptions::AddLog10 => {
                let name = String::from_str("log10(").concat(feature.name.as_str()).concat(")");
                feature.with_log10 = Some(Box::new(named_feature(name)));
            },
            FeatureOptions::AddNormalized => {
                let name = feature.name.clone().concat("_normalized");
                feature.with_normalized = Some(Box::new(named_feature(name)));
            },
            FeatureOptions::AddSquared => {
                let name = feature.name.clone().concat("^2");
                feature.with_squared = Some(Box::new(named_feature(name)));
            },
            _ => {},
        }
    }

    /// The feature that a list of options describes, boxed as an extracted feature.
    fn described(list: &Vec<FeatureOptions>) -> (res: Option<Box<Feature>>)
        ensures
            nested_view(res) == Some(
                Box::new(apply_all_spec(options_view(*list), FeatureView::fresh())),
            ),
        decreases *list,
    {
        let items = list.as_slice();
        assert(options_view(*list) == slice_options_view(items));
        Some(Box::new(Feature::from_options(items)))
    }

    /// Applies an option that adds an extracted feature built from a list of options.
    fn apply_described_extraction(&self, feature: &mut Feature, value: bool)
        requires
            self.is_described_extraction(),
        ensures
            final(feature)@ == apply_spec(self@, old(feature)@, value),
        decreases *self, *old(feature), 0nat,
    {
        match self {
            FeatureOptions::AddFeatureExtractedMonth(list) => {
                let extracted = FeatureOptions::described(list);
                feature.with_extracted_month = extracted;
                assert(self@ == FeatureOptionsView::AddFeatureExtractedMonth(options_view(*list)));
                assert(feature@ == (FeatureView {
                    with_extracted_month: nested_view(extracted),
                    ..old(feature)@
                }));
            },
            FeatureOptions::AddFeatureExtractedTimestamp(list) => {
                let extracted = FeatureOptions::described(list);
                feature.with_extracted_timestamp = extracted;
                assert(self@ == FeatureOptionsView::AddFeatureExtractedTimestamp(options_view(*list)));
                assert(feature@ == (FeatureView {
                    with_extracted_timestamp: nested_view(extracted),
                    ..old(feature)@
                }));
            },
            FeatureOptions::AddFeatureLog10(list) => {
                let extracted = FeatureOptions::described(list);
                feature.with_log10 = extracted;
                assert(self@ == FeatureOptionsView::AddFeatureLog10(options_view(*list)));
                assert(feature@ == (FeatureView {
                    with_log10: nested_view(extracted),
                    ..old(feature)@
                }));
            },
            FeatureOptions::AddFeatureNormalized(list) => {
                let extracted = FeatureOptions::described(list);
                feature.with_normalized = extracted;
                assert(self@ == FeatureOptionsView::AddFeatureNormalized(options_view(*list)));
                assert(feature@ == (FeatureView {
                    with_normalized: nested_view(extracted),
                    ..old(feature)@
                }));
            },
            FeatureOptions::AddFeatureSquared(list) => {
                let extracted = FeatureOptions::described(list);
                feature.with_squared = extracted;
                assert(self@ == FeatureOptionsView::AddFeatureSquared(options_view(*list)));
                assert(feature@ == (FeatureView {
                    with_squared: nested_view(extracted),
                    ..old(feature)@
                }));
            },
            _ => {},
        }
    }

    /// Applies the option to `feature`; a flag that the option sets becomes `value`.
    fn apply_bool(&self, feature: &mut Feature, value: bool)
        ensures
            final(feature)@ == apply_spec(self@, old(feature)@, value),
        decreases *self, *old(feature), 1nat,
    {
        match self {
            FeatureOptions::Not(inner) => {
                inner.apply_bool(feature, !value);
            },
            FeatureOptions::ExceptFeatures(inner, exceptions) => {
                if !contains_name(exceptions, &feature.name) {
                    inner.apply_bool(feature, value);
                }
            },
            FeatureOptions::OnlyFeatures(inner, inclusions) => {
                if contains_name(inclusions, &feature.name) {
                    inner.apply_bool(feature, value);
                }
            },
            FeatureOptions::RecurseAdded(inner) => {
                self.apply_to_extracted_features(feature, value);
                inner.apply_bool(feature, value);
            },
            FeatureOptions::AddExtractedMonth
            | FeatureOptions::AddExtractedTimestamp
            | FeatureOptions::AddLog10
            | FeatureOptions::AddNormalized
            | FeatureOptions::AddSquared => {
                self.apply_derived_extraction(feature, value);
            },
            FeatureOptions::AddFeatureExtractedMonth(_)
            | FeatureOptions::AddFeatureExtractedTimestamp(_)
            | FeatureOptions::AddFeatureLog10(_)
            | FeatureOptions::AddFeatureNormalized(_)
            | FeatureOptions::AddFeatureSquared(_) => {
                self.apply_described_extraction(feature, value);
            },
            _ => {
                self.apply_plain(feature, value);
            },
        }
    }
}

/// The description of a dataset: a name, and its features in column order.
#[derive(Debug, Hash)]
pub struct Dataset {
    pub name: String,
    pub features: Vec<Feature>,
}

/// Mathematical model of a [`Dataset`].
pub struct DatasetView {
    pub name: Seq<char>,
    pub features: Seq<FeatureView>,
}

impl View for Dataset {
    type V = DatasetView;

    open spec fn view(&self) -> DatasetView {
        DatasetView { name: self.name@, features: features_view(self.features@) }
    }
}

/// The models of a list of features.
pub open spec fn features_view(features: Seq<Feature>) -> Seq<FeatureView> {
    features.map_values(|feature: Feature| feature@)
}

/// The texts of a list of borrowed strings.
pub open spec fn strs_view(strs: Seq<&str>) -> Seq<Seq<char>> {
    strs.map_values(|s: &str| s@)
}

/// The texts of a list of strings.
pub open spec fn strings_view(strings: Seq<String>) -> Seq<Seq<char>> {
    strings.map_values(|s: String| s@)
}

/// The names of a list of features, in order.
pub open spec fn names_of(features: Seq<FeatureView>) -> Seq<Seq<char>> {
    features.map_values(|feature: FeatureView| feature.name)
}

/// Whether a feature is an input of the model: no target, no identifier, no date.
pub open spec fn is_input(feature: FeatureView) -> bool {
    !feature.out && !feature.is_id && feature.date_format is None
}

/// The input features of a list, in order.
pub open spec fn inputs_of(features: Seq<FeatureView>) -> Seq<FeatureView> {
    features.filter(|feature: FeatureView| is_input(feature))
}

/// The target features of a list, in order.
pub open spec fn outputs_of(features: Seq<FeatureView>) -> Seq<FeatureView> {
    features.filter(|feature: FeatureView| feature.out)
}

/// The names under which the predictions of a list of features are stored.
pub open spec fn prediction_names_of(features: Seq<FeatureView>) -> Seq<Seq<char>> {
    features.map_values(|feature: FeatureView| "pred_"@ + feature.name)
}

/// The features of a list whose name is none of `names`, in order.
pub open spec fn without_names(features: Seq<FeatureView>, names: Seq<Seq<char>>) -> Seq<
    FeatureView,
> {
    features.filter(|feature: FeatureView| !names.contains(feature.name))
}

/// The list with `option` applied to each feature called `name`.
pub open spec fn with_option_on(
    features: Seq<FeatureView>,
    name: Seq<char>,
    option: FeatureOptionsView,
) -> Seq<FeatureView> {
    features.map_values(
        |feature: FeatureView|
            if feature.name == name {
                apply_spec(option, feature, true)
            } else {
                feature
            },
    )
}

/// The list with `option` applied to each feature.
pub open spec fn with_option(features: Seq<FeatureView>, option: FeatureOptionsView) -> Seq<
    FeatureView,
> {
    features.map_values(|feature: FeatureView| apply_spec(option, feature, true))
}

/// The place of the first feature called `name`, or the length of the list if there is none.
pub open spec fn position_of(features: Seq<FeatureView>, name: Seq<char>) -> int
    decreases features.len(),
{
    if features.len() == 0 {
        0
    } else if features.first().name == name {
        0
    } else {
        1 + position_of(features.drop_first(), name)
    }
}

/// `position_of` is the place of the first feature with the name: none stands before it.
pub proof fn lemma_position_of(features: Seq<FeatureView>, name: Seq<char>, k: int)
    requires
        0 <= k <= features.len(),
        forall|j: int| 0 <= j < k ==> features[j].name != name,
        k < features.len() ==> features[k].name == name,
    ensures
        position_of(features, name) == k,
    decreases features.len(),
{
    if features.len() > 0 && k > 0 {
        let rest = features.drop_first();
        assert forall|j: int| 0 <= j < k - 1 implies rest[j].name != name by {
            assert(rest[j] == features[j + 1]);
        }
        lemma_position_of(rest, name, k - 1);
    }
}

/// Each of the list functions above takes a list that grows at its end to its own result
/// grown, or left as it was, accordingly.
pub proof fn lemma_feature_lists_push(features: Seq<FeatureView>, feature: FeatureView)
    ensures
        names_of(features.push(feature)) == names_of(features).push(feature.name),
        prediction_names_of(features.push(feature)) == prediction_names_of(features).push(
            "pred_"@ + feature.name,
        ),
        inputs_of(features.push(feature)) == if is_input(feature) {
            inputs_of(features).push(feature)
        } else {
            inputs_of(features)
        },
        outputs_of(features.push(feature)) == if feature.out {
            outputs_of(features).push(feature)
        } else {
            outputs_of(features)
        },
        forall|names: Seq<Seq<char>>| #[trigger]
            without_names(features.push(feature), names) == if names.contains(feature.name) {
                without_names(features, names)
            } else {
                without_names(features, names).push(feature)
            },
{
    features.lemma_push_map_commute(|feature: FeatureView| feature.name, feature);
    features.lemma_push_map_commute(|feature: FeatureView| "pred_"@ + feature.name, feature);
    features.lemma_filter_push(feature, |feature: FeatureView| is_input(feature));
    features.lemma_filter_push(feature, |feature: FeatureView| feature.out);
    assert forall|names: Seq<Seq<char>>| #[trigger]
        without_names(features.push(feature), names) == if names.contains(feature.name) {
            without_names(features, names)
        } else {
            without_names(features, names).push(feature)
        } by {
        features.lemma_filter_push(
            feature,
            |feature: FeatureView| !names.contains(feature.name),
        );
    }
}

/// A copy of a list of features.
fn clone_features(features: &[Feature]) -> (res: Vec<Feature>)
    ensures
        res@ == features@,
{
    let mut res: Vec<Feature> = Vec::new();
    let mut i: usize = 0;
    while i < features.len()
        invariant
            i <= features@.len(),
            res@ == features@.take(i as int),
        decreases features@.len() - i,
    {
        res.push(features[i].clone());
        assert(res@ == features@.take(i + 1));
        i += 1;
    }
    assert(features@.take(i as int) == features@);
    res
}

impl Clone for Dataset {
    fn clone(&self) -> (res: Self)
        ensures
            res.name == self.name,
            res.features@ == self.features@,
    {
        let features = clone_features(self.features.as_slice());
        Dataset { name: self.name.clone(), features }
    }
}

impl Default for Dataset {
    fn default() -> (res: Self)
        ensures
            res@ == (DatasetView { name: Seq::empty(), features: Seq::empty() }),
    {
        let res = Dataset { name: String::new(), features: Vec::new() };
        assert(res@.features =~= Seq::<FeatureView>::empty());
        res
    }
}

impl Dataset {
    /// A dataset called `name` with copies of `features`.
    pub fn new(name: &str, features: &[Feature]) -> (res: Self)
        ensures
            res@ == (DatasetView { name: name@, features: features_view(features@) }),
    {
        Dataset { name: String::from_str(name), features: clone_features(features) }
    }

    /// A dataset called `name` with one feature for each column, named after it and
    /// otherwise fresh.
    pub fn from_column_names(name: &str, column_names: &[String]) -> (res: Self)
        ensures
            res@.name == name@,
            res@.features == strings_view(column_names@).map_values(
                |column: Seq<char>| FeatureView::named(column),
            ),
    {
        let mut features: Vec<Feature> = Vec::new();
        let ghost wanted = strings_view(column_names@).map_values(
            |column: Seq<char>| FeatureView::named(column),
        );
        let mut i: usize = 0;
        while i < column_names.len()
            invariant
                i <= column_names@.len(),
                wanted == strings_view(column_names@).map_values(
                    |column: Seq<char>| FeatureView::named(column),
                ),
                features_view(features@) == wanted.take(i as int),
            decreases column_names@.len() - i,
        {
            let ghost before = features@;
            features.push(named_feature(column_names[i].clone()));
            proof {
                before.lemma_push_map_commute(|feature: Feature| feature@, features@.last());
                assert(wanted.take(i + 1) =~= wanted.take(i as int).push(wanted[i as int]));
            }
            i += 1;
        }
        assert(wanted.take(i as int) == wanted);
        Dataset { name: String::from_str(name), features }
    }

    /// A dataset called `name` with one feature for each list of options.
    pub fn from_features_options(name: &str, features: &[Vec<FeatureOptions>]) -> (res: Self)
        ensures
            res@.name == name@,
            res@.features == features@.map_values(
                |options: Vec<FeatureOptions>|
                    apply_all_spec(options_view(options), FeatureView::fresh()),
            ),
    {
        let mut built: Vec<Feature> = Vec::new();
        let ghost wanted = features@.map_values(
            |options: Vec<FeatureOptions>|
                apply_all_spec(options_view(options), FeatureView::fresh()),
        );
        let mut i: usize = 0;
        while i < features.len()
            invariant
                i <= features@.len(),
                wanted == features@.map_values(
                    |options: Vec<FeatureOptions>|
                        apply_all_spec(options_view(options), FeatureView::fresh()),
                ),
                features_view(built@) == wanted.take(i as int),
            decreases features@.len() - i,
        {
            let items = features[i].as_slice();
            assert(options_view(features@[i as int]) == slice_options_view(items));
            let ghost before = built@;
            built.push(Feature::from_options(items));
            proof {
                before.lemma_push_map_commute(|feature: Feature| feature@, built@.last());
                assert(wanted.take(i + 1) =~= wanted.take(i as int).push(wanted[i as int]));
            }
            i += 1;
        }
        assert(wanted.take(i as int) == wanted);
        Dataset { name: String::from_str(name), features: built }
    }

    /// The dataset with `feature` added after the others.
    pub fn with_added_feature(&self, feature: Feature) -> (res: Self)
        ensures
            res@ == (DatasetView { name: self@.name, features: self@.features.push(feature@) }),
    {
        let mut features = clone_features(self.features.as_slice());
        features.push(feature);
        assert(features_view(features@) =~= self@.features.push(feature@));
        Dataset { name: self.name.clone(), features }
    }

    /// The dataset with `feature` in the place of the first feature called
    /// `old_feature_name`.
    pub fn with_replaced_feature(&self, old_feature_name: &str, feature: Feature) -> (res: Self)
        requires
            names_of(self@.features).contains(old_feature_name@),
        ensures
            res@ == (DatasetView {
                name: self@.name,
                features: self@.features.update(
                    position_of(self@.features, old_feature_name@),
                    feature@,
                ),
            }),
            0 <= position_of(self@.features, old_feature_name@) < self@.features.len(),
    {
        let mut features = clone_features(self.features.as_slice());
        let wanted = String::from_str(old_feature_name);
        let mut i: usize = 0;
        while i < features.len() && features[i].name != wanted
            invariant
                i <= features@.len(),
                features@ == self.features@,
                wanted@ == old_feature_name@,
                forall|j: int| 0 <= j < i ==> self@.features[j].name != old_feature_name@,
            decreases features@.len() - i,
        {
            i += 1;
        }
        proof {
            let k = choose|k: int|
                0 <= k < names_of(self@.features).len() && names_of(self@.features)[k]
                    == old_feature_name@;
            assert(self@.features[k].name == old_feature_name@);
            assert(i < features@.len());
            lemma_position_of(self@.features, old_feature_name@, i as int);
        }
        features.set(i, feature);
        assert(features_view(features@) =~= self@.features.update(i as int, feature@));
        Dataset { name: self.name.clone(), features }
    }

    /// The names of the features, in order.
    pub fn feature_names(&self) -> (names: Vec<&str>)
        ensures
            strs_view(names@) == names_of(self@.features),
    {
        let mut names: Vec<&str> = Vec::new();
        let mut i: usize = 0;
        while i < self.features.len()
            invariant
                i <= self.features@.len(),
                strs_view(names@) == names_of(self@.features.take(i as int)),
            decreases self.features@.len() - i,
        {
            let ghost before = names@;
            names.push(self.features[i].name.as_str());
            proof {
                let seen = self@.features.take(i as int);
                assert(self@.features.take(i + 1) =~= seen.push(self@.features[i as int]));
                lemma_feature_lists_push(seen, self@.features[i as int]);
                before.lemma_push_map_commute(|s: &str| s@, names@.last());
            }
            i += 1;
        }
        assert(self@.features.take(i as int) == self@.features);
        names
    }

    /// The names of the features that are inputs of the model, in order.
    pub fn in_features_names(&self) -> (names: Vec<&str>)
        ensures
            strs_view(names@) == names_of(inputs_of(self@.features)),
    {
        let mut names: Vec<&str> = Vec::new();
        let mut i: usize = 0;
        while i < self.features.len()
            invariant
                i <= self.features@.len(),
                strs_view(names@) == names_of(inputs_of(self@.features.take(i as int))),
            decreases self.features@.len() - i,
        {
            let feature = &self.features[i];
            let ghost before = names@;
            proof {
                let seen = self@.features.take(i as int);
                assert(self@.features.take(i + 1) =~= seen.push(feature@));
                lemma_feature_lists_push(seen, feature@);
                lemma_feature_lists_push(inputs_of(seen), feature@);
            }
            if !feature.out && !feature.is_id && !feature.date_format.is_some() {
                names.push(feature.name.as_str());
                proof {
                    before.lemma_push_map_commute(|s: &str| s@, names@.last());
                }
            }
            i += 1;
        }
        assert(self@.features.take(i as int) == self@.features);
        names
    }

    /// The names of the features that are targets of the model, in order.
    pub fn out_features_names(&self) -> (names: Vec<&str>)
        ensures
            strs_view(names@) == names_of(outputs_of(self@.features)),
    {
        let mut names: Vec<&str> = Vec::new();
        let mut i: usize = 0;
        while i < self.features.len()
            invariant
                i <= self.features@.len(),
                strs_view(names@) == names_of(outputs_of(self@.features.take(i as int))),
            decreases self.features@.len() - i,
        {
            let feature = &self.features[i];
            let ghost before = names@;
            proof {
                let seen = self@.features.take(i as int);
                assert(self@.features.take(i + 1) =~= seen.push(feature@));
                lemma_feature_lists_push(seen, feature@);
                lemma_feature_lists_push(outputs_of(seen), feature@);
            }
            if feature.out {
                names.push(feature.name.as_str());
                proof {
                    before.lemma_push_map_commute(|s: &str| s@, names@.last());
                }
            }
            i += 1;
        }
        assert(self@.features.take(i as int) == self@.features);
        names
    }

    /// The names under which the predictions of the targets are stored: `pred_` and the
    /// target's name.
    pub fn pred_out_features_names(&self) -> (names: Vec<String>)
        ensures
            strings_view(names@) == prediction_names_of(outputs_of(self@.features)),
    {
        let mut names: Vec<String> = Vec::new();
        let mut i: usize = 0;
        while i < self.features.len()
            invariant
                i <= self.features@.len(),
                strings_view(names@) == prediction_names_of(
                    outputs_of(self@.features.take(i as int)),
                ),
            decreases self.features@.len() - i,
        {
            let feature = &self.features[i];
            let ghost before = names@;
            proof {
                let seen = self@.features.take(i as int);
                assert(self@.features.take(i + 1) =~= seen.push(feature@));
                lemma_feature_lists_push(seen, feature@);
                lemma_feature_lists_push(outputs_of(seen), feature@);
            }
            if feature.out {
                names.push(String::from_str("pred_").concat(feature.name.as_str()));
                proof {
                    before.lemma_push_map_commute(|s: String| s@, names@.last());
                }
            }
            i += 1;
        }
        assert(self@.features.take(i as int) == self@.features);
        names
    }

    /// Removes the features whose name is one of `feature_names`.
    pub fn remove_features(&mut self, feature_names: &[&str])
        ensures
            final(self)@ == (DatasetView {
                name: old(self)@.name,
                features: without_names(old(self)@.features, names_view(feature_names)),
            }),
    {
        let mut kept: Vec<Feature> = Vec::new();
        let mut i: usize = 0;
        while i < self.features.len()
            invariant
                *self == *old(self),
                i <= self.features@.len(),
                features_view(kept@) == without_names(
                    self@.features.take(i as int),
                    names_view(feature_names),
                ),
            decreases self.features@.len() - i,
        {
            let feature = &self.features[i];
            let ghost before = kept@;
            proof {
                let seen = self@.features.take(i as int);
                assert(self@.features.take(i + 1) =~= seen.push(feature@));
                lemma_feature_lists_push(seen, feature@);
            }
            if !contains_name(feature_names, &feature.name) {
                kept.push(feature.clone());
                proof {
                    before.lemma_push_map_commute(|feature: Feature| feature@, kept@.last());
                }
            }
            i += 1;
        }
        assert(self@.features.take(i as int) == self@.features);
        self.features = kept;
    }

    /// Applies `option` to each feature called `feature_name`.
    pub fn add_opt_to(&mut self, feature_name: &str, option: FeatureOptions)
        ensures
            final(self)@ == (DatasetView {
                name: old(self)@.name,
                features: with_option_on(old(self)@.features, feature_name@, option@),
            }),
    {
        let wanted = String::from_str(feature_name);
        let ghost target = with_option_on(old(self)@.features, feature_name@, option@);
        let mut i: usize = 0;
        while i < self.features.len()
            invariant
                self.name == old(self).name,
                self.features@.len() == old(self).features@.len(),
                i <= self.features@.len(),
                wanted@ == feature_name@,
                target == with_option_on(old(self)@.features, feature_name@, option@),
                forall|j: int| 0 <= j < i ==> self@.features[j] == target[j],
                forall|j: int|
                    i <= j < self.features@.len() ==> self.features@[j] == old(self).features@[j],
            decreases self.features@.len() - i,
        {
            if self.features[i].name == wanted {
                let mut feature = self.features[i].clone();
                option.apply(&mut feature);
                self.features.set(i, feature);
            }
            i += 1;
        }
        assert(self@.features =~= target);
    }

    /// Applies `option` to each feature.
    pub fn add_opt(&mut self, option: FeatureOptions)
        ensures
            final(self)@ == (DatasetView {
                name: old(self)@.name,
                features: with_option(old(self)@.features, option@),
            }),
    {
        let ghost target = with_option(old(self)@.features, option@);
        let mut i: usize = 0;
        while i < self.features.len()
            invariant
                self.name == old(self).name,
                self.features@.len() == old(self).features@.len(),
                i <= self.features@.len(),
                target == with_option(old(self)@.features, option@),
                forall|j: int| 0 <= j < i ==> self@.features[j] == target[j],
                forall|j: int|
                    i <= j < self.features@.len() ==> self.features@[j] == old(self).features@[j],
            decreases self.features@.len() - i,
        {
            let mut feature = self.features[i].clone();
            option.apply(&mut feature);
            self.features.set(i, feature);
            i += 1;
        }
        assert(self@.features =~= target);
    }
}

} // verus!
