//! The features that a feature has extracted from it.
//!
//! A feature can name up to five features that are derived from its column: the month and
//! the timestamp of a date, the logarithm, the normalized and the squared value. Those
//! that it names are counted in this order.

use crate::dataset::{nested_view, Feature, FeatureView};
use vstd::prelude::*;

verus! {

impl FeatureView {
    /// The five places for extracted features, in their order; a place is empty where the
    /// feature names no such feature.
    pub open spec fn slots(self) -> Seq<Option<Box<FeatureView>>> {
        seq![
            self.with_extracted_month,
            self.with_extracted_timestamp,
            self.with_log10,
            self.with_normalized,
            self.with_squared,
        ]
    }

    /// How many of the first `k` places hold a feature.
    pub open spec fn held_before(self, k: int) -> int
        decreases k,
    {
        if k <= 0 {
            0
        } else {
            self.held_before(k - 1) + if self.slots()[k - 1] is Some {
                1int
            } else {
                0int
            }
        }
    }

    /// Whether place `k` holds the feature that is counted as number `number`.
    pub open spec fn holds(self, k: int, number: int) -> bool {
        self.slots()[k] is Some && self.held_before(k) == number
    }

    /// What place `k` holds once the extracted feature number `number` is `feature`.
    pub open spec fn slot_with(self, k: int, number: int, feature: FeatureView) -> Option<
        Box<FeatureView>,
    > {
        if self.holds(k, number) {
            Some(Box::new(feature))
        } else {
            self.slots()[k]
        }
    }

    /// The feature with `feature` as its extracted feature number `number`.
    pub open spec fn with_extracted(self, number: int, feature: FeatureView) -> FeatureView {
        FeatureView {
            with_extracted_month: self.slot_with(0, number, feature),
            with_extracted_timestamp: self.slot_with(1, number, feature),
            with_log10: self.slot_with(2, number, feature),
            with_normalized: self.slot_with(3, number, feature),
            with_squared: self.slot_with(4, number, feature),
            ..self
        }
    }

    /// No two places hold the extracted feature of one number.
    pub proof fn lemma_one_place(self, number: int)
        ensures
            forall|j: int, k: int|
                0 <= j < k < 5 ==> !(#[trigger] self.holds(j, number) && #[trigger] self.holds(
                    k,
                    number,
                )),
    {
        reveal_with_fuel(FeatureView::held_before, 6);
    }

    /// The place that holds the extracted feature number `number`, if there are that many.
    pub open spec fn place_of(self, number: int) -> Option<int> {
        if self.holds(0, number) {
            Some(0)
        } else if self.holds(1, number) {
            Some(1)
        } else if self.holds(2, number) {
            Some(2)
        } else if self.holds(3, number) {
            Some(3)
        } else if self.holds(4, number) {
            Some(4)
        } else {
            None
        }
    }
}

impl Feature {
    /// The number of features extracted from this one.
    pub fn count_extracted_features(&self) -> (count: usize)
        ensures
            count == self@.held_before(5),
            count <= 5,
    {
        let mut count: usize = 0;
        if self.with_extracted_month.is_some() {
            count += 1;
        }
        assert(count == self@.held_before(1)) by {
            reveal_with_fuel(FeatureView::held_before, 3);
        }
        if self.with_extracted_timestamp.is_some() {
            count += 1;
        }
        assert(count == self@.held_before(2));
        if self.with_log10.is_some() {
            count += 1;
        }
        assert(count == self@.held_before(3));
        if self.with_normalized.is_some() {
            count += 1;
        }
        assert(count == self@.held_before(4));
        if self.with_squared.is_some() {
            count += 1;
        }
        assert(count == self@.held_before(5));
        count
    }

    /// The place that holds the extracted feature number `number`, if there are that many.
    pub fn place_of_extracted(&self, number: usize) -> (out: Option<usize>)
        ensures
            match out {
                Some(place) => self@.place_of(number as int) == Some(place as int) && place < 5,
                None => self@.place_of(number as int) is None,
            },
    {
        proof {
            reveal_with_fuel(FeatureView::held_before, 6);
        }
        let mut before: usize = 0;
        if self.with_extracted_month.is_some() {
            if number == before {
                return Some(0);
            }
            before += 1;
        }
        assert(before == self@.held_before(1));
        if self.with_extracted_timestamp.is_some() {
            if number == before {
                return Some(1);
            }
            before += 1;
        }
        assert(before == self@.held_before(2));
        if self.with_log10.is_some() {
            if number == before {
                return Some(2);
            }
            before += 1;
        }
        assert(before == self@.held_before(3));
        if self.with_normalized.is_some() {
            if number == before {
                return Some(3);
            }
            before += 1;
        }
        assert(before == self@.held_before(4));
        if self.with_squared.is_some() {
            if number == before {
                return Some(4);
            }
        }
        None
    }

    /// The feature that a place holds, to be changed in place.
    fn slot_mut(slot: &mut Option<Box<Feature>>) -> (out: Option<&mut Feature>)
        ensures
            match out {
                Some(feature) => nested_view(*old(slot)) == Some(Box::new(feature@))
                    && nested_view(*final(slot)) == Some(Box::new(final(feature)@)),
                None => *old(slot) is None && *final(slot) == *old(slot),
            },
    {
        match slot {
            Some(feature) => Some(&mut **feature),
            None => None,
        }
    }

    /// The extracted feature number `number`, to be changed in place: the features that
    /// this one names are counted from zero, in the order month, timestamp, logarithm,
    /// normalized, squared. None where there are not that many.
    pub fn get_extracted_features_mut(&mut self, number: usize) -> (out: Option<&mut Feature>)
        ensures
            match out {
                Some(feature) => {
                    &&& old(self)@.place_of(number as int) matches Some(place)
                        && old(self)@.slots()[place] == Some(Box::new(feature@))
                    &&& final(self)@ == old(self)@.with_extracted(number as int, final(feature)@)
                },
                None => old(self)@.place_of(number as int) is None && *final(self) == *old(self),
            },
    {
        let place = self.place_of_extracted(number);
        proof {
            old(self)@.lemma_one_place(number as int);
        }
        match place {
            Some(0) => Self::slot_mut(&mut self.with_extracted_month),
            Some(1) => Self::slot_mut(&mut self.with_extracted_timestamp),
            Some(2) => Self::slot_mut(&mut self.with_log10),
            Some(3) => Self::slot_mut(&mut self.with_normalized),
            Some(4) => Self::slot_mut(&mut self.with_squared),
            _ => None,
        }
    }
}

} // verus!
