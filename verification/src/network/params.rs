//! The learnable parameters of a network, as plain lists of numbers.

use crate::error::Error;
use crate::scalar::Scalar;
use vstd::prelude::*;

verus! {

/// The parameters of a network: one entry for each layer that can learn, in layer order;
/// each entry is a list of vectors, of which the last one holds the biases.
#[derive(Debug)]
pub struct NetworkParams<S: Scalar>(pub Vec<Vec<Vec<S>>>);

impl<S: Scalar> NetworkParams<S> {
    /// The lists of numbers that a list of vectors holds.
    pub open spec fn entry_view(entry: Vec<Vec<S>>) -> Seq<Seq<S>> {
        entry@.map_values(|vector: Vec<S>| vector@)
    }

    /// Whether two parameter sets have one shape: as many entries, in each entry as many
    /// vectors, in each vector as many numbers.
    pub open spec fn same_shape(first: Seq<Seq<Seq<S>>>, second: Seq<Seq<Seq<S>>>) -> bool {
        &&& first.len() == second.len()
        &&& forall|l: int| 0 <= l < first.len() ==> (#[trigger] first[l]).len() == second[l].len()
        &&& forall|l: int, r: int|
            0 <= l < first.len() && 0 <= r < first[l].len() ==> (#[trigger] first[l][r]).len()
                == second[l][r].len()
    }

    /// Whether there is a mean of the parameter sets: there is at least one, and they have
    /// one shape.
    pub open spec fn averageable(sets: Seq<Seq<Seq<Seq<S>>>>) -> bool {
        &&& sets.len() > 0
        &&& forall|f: int| 0 <= f < sets.len() ==> Self::same_shape(sets[0], #[trigger] sets[f])
    }

    /// The numbers that the parameter sets hold at one place: in entry `l`, vector `r`, at
    /// index `e`.
    pub open spec fn values_at(sets: Seq<Seq<Seq<Seq<S>>>>, l: int, r: int, e: int) -> Seq<S> {
        Seq::new(sets.len(), |f: int| sets[f][l][r][e])
    }

    /// The mean of the parameter sets: at each place the plain mean of what the sets hold
    /// there, each set counted once.
    pub open spec fn average_spec(sets: Seq<Seq<Seq<Seq<S>>>>) -> Seq<Seq<Seq<S>>> {
        Seq::new(
            sets[0].len(),
            |l: int|
                Seq::new(
                    sets[0][l].len(),
                    |r: int|
                        Seq::new(
                            sets[0][l][r].len(),
                            |e: int| crate::scalar::mean_spec(Self::values_at(sets, l, r, e)),
                        ),
                ),
        )
    }

    /// The parameter sets of a list, as lists of numbers.
    pub open spec fn views(sets: Seq<NetworkParams<S>>) -> Seq<Seq<Seq<Seq<S>>>> {
        sets.map_values(|set: NetworkParams<S>| set@)
    }

    /// Whether the two parameter sets have one shape.
    pub fn has_shape_of(&self, other: &Self) -> (same: bool)
        ensures
            same == Self::same_shape(self@, other@),
    {
        if self.0.len() != other.0.len() {
            return false;
        }
        let mut l: usize = 0;
        while l < self.0.len()
            invariant
                l <= self.0@.len(),
                self.0@.len() == other.0@.len(),
                forall|i: int| 0 <= i < l ==> (#[trigger] self@[i]).len() == other@[i].len(),
                forall|i: int, r: int|
                    0 <= i < l && 0 <= r < self@[i].len() ==> (#[trigger] self@[i][r]).len()
                        == other@[i][r].len(),
            decreases self.0@.len() - l,
        {
            let mine = &self.0[l];
            let theirs = &other.0[l];
            if mine.len() != theirs.len() {
                assert(self@[l as int].len() != other@[l as int].len());
                return false;
            }
            assert(Self::entry_view(*mine) == self@[l as int]);
            assert(Self::entry_view(*theirs) == other@[l as int]);
            let mut r: usize = 0;
            while r < mine.len()
                invariant
                    r <= mine@.len(),
                    mine@.len() == theirs@.len(),
                    l < self.0@.len(),
                    self.0@.len() == other.0@.len(),
                    Self::entry_view(*mine) == self@[l as int],
                    Self::entry_view(*theirs) == other@[l as int],
                    forall|i: int| 0 <= i < r ==> (#[trigger] mine@[i])@.len() == theirs@[i]@.len(),
                decreases mine@.len() - r,
            {
                if mine[r].len() != theirs[r].len() {
                    assert(self@[l as int][r as int].len() != other@[l as int][r as int].len());
                    return false;
                }
                r += 1;
            }
            assert forall|r: int| 0 <= r < self@[l as int].len() implies (
            #[trigger] self@[l as int][r]).len() == other@[l as int][r].len() by {
                assert(mine@[r]@.len() == theirs@[r]@.len());
            }
            l += 1;
        }
        true
    }

    /// The mean of the parameter sets: at each place the plain mean of what the sets hold
    /// there, each set counted once. There must be a set, and the sets must have one shape.
    pub fn average(sets: &Vec<NetworkParams<S>>) -> (out: Result<NetworkParams<S>, Error>)
        ensures
            out is Ok <==> Self::averageable(Self::views(sets@)),
            out matches Ok(mean) ==> mean@ == Self::average_spec(Self::views(sets@)),
            out matches Err(error) ==> error == Error::ParameterCountMismatch,
    {
        let ghost views = Self::views(sets@);
        if sets.len() == 0 {
            return Err(Error::ParameterCountMismatch);
        }
        let mut f: usize = 0;
        while f < sets.len()
            invariant
                f <= sets@.len(),
                views == Self::views(sets@),
                forall|i: int| 0 <= i < f ==> Self::same_shape(views[0], #[trigger] views[i]),
            decreases sets@.len() - f,
        {
            if !sets[0].has_shape_of(&sets[f]) {
                assert(!Self::same_shape(views[0], views[f as int]));
                return Err(Error::ParameterCountMismatch);
            }
            f += 1;
        }
        let first = &sets[0];
        assert(first@ == views[0]);
        let mut entries: Vec<Vec<Vec<S>>> = Vec::new();
        let mut l: usize = 0;
        while l < first.0.len()
            invariant
                l <= first.0@.len(),
                sets@.len() > 0,
                first@ == views[0],
                views == Self::views(sets@),
                Self::averageable(views),
                entries@.len() == l,
                forall|i: int|
                    0 <= i < l ==> Self::entry_view(#[trigger] entries@[i])
                        == Self::average_spec(views)[i],
            decreases first.0@.len() - l,
        {
            let entry = &first.0[l];
            assert(Self::entry_view(*entry) == views[0][l as int]);
            let mut vectors: Vec<Vec<S>> = Vec::new();
            let mut r: usize = 0;
            while r < entry.len()
                invariant
                    r <= entry@.len(),
                    l < first.0@.len(),
                    sets@.len() > 0,
                    first@ == views[0],
                    Self::entry_view(*entry) == views[0][l as int],
                    views == Self::views(sets@),
                    Self::averageable(views),
                    vectors@.len() == r,
                    forall|i: int|
                        0 <= i < r ==> (#[trigger] vectors@[i])@ == Self::average_spec(
                            views,
                        )[l as int][i],
                decreases entry@.len() - r,
            {
                let vector = &entry[r];
                assert(vector@ == views[0][l as int][r as int]);
                let mut means: Vec<S> = Vec::new();
                let mut e: usize = 0;
                while e < vector.len()
                    invariant
                        e <= vector@.len(),
                        l < first.0@.len(),
                        r < entry@.len(),
                        sets@.len() > 0,
                        vector@ == views[0][l as int][r as int],
                        Self::entry_view(*entry) == views[0][l as int],
                        first@ == views[0],
                        views == Self::views(sets@),
                        Self::averageable(views),
                        means@.len() == e,
                        forall|i: int|
                            0 <= i < e ==> (#[trigger] means@[i]) == crate::scalar::mean_spec(
                                Self::values_at(views, l as int, r as int, i),
                            ),
                    decreases vector@.len() - e,
                {
                    let values = Self::values_of(sets, l, r, e);
                    means.push(crate::scalar::mean(&values));
                    e += 1;
                }
                assert(means@ =~= Self::average_spec(views)[l as int][r as int]);
                vectors.push(means);
                r += 1;
            }
            assert(Self::entry_view(vectors) =~= Self::average_spec(views)[l as int]);
            entries.push(vectors);
            l += 1;
        }
        let mean = NetworkParams(entries);
        assert(mean@ =~= Self::average_spec(views));
        Ok(mean)
    }

    /// The numbers that the parameter sets hold in entry `l`, vector `r`, at index `e`.
    fn values_of(sets: &Vec<NetworkParams<S>>, l: usize, r: usize, e: usize) -> (values: Vec<S>)
        requires
            Self::averageable(Self::views(sets@)),
            l < sets@[0]@.len(),
            r < sets@[0]@[l as int].len(),
            e < sets@[0]@[l as int][r as int].len(),
        ensures
            values@ == Self::values_at(Self::views(sets@), l as int, r as int, e as int),
    {
        let ghost views = Self::views(sets@);
        let mut values: Vec<S> = Vec::new();
        let mut f: usize = 0;
        while f < sets.len()
            invariant
                f <= sets@.len(),
                views == Self::views(sets@),
                Self::averageable(views),
                l < views[0].len(),
                r < views[0][l as int].len(),
                e < views[0][l as int][r as int].len(),
                values@.len() == f,
                forall|i: int|
                    0 <= i < f ==> (#[trigger] values@[i]) == views[i][l as int][r as int][e as int],
            decreases sets@.len() - f,
        {
            assert(Self::same_shape(views[0], views[f as int]));
            assert(views[0][l as int].len() == views[f as int][l as int].len());
            assert(views[0][l as int][r as int].len() == views[f as int][l as int][r as int].len());
            let set = &sets[f];
            assert(set@ == views[f as int]);
            let entry = &set.0[l];
            assert(Self::entry_view(*entry) == set@[l as int]);
            let vector = &entry[r];
            assert(vector@ == set@[l as int][r as int]);
            values.push(vector[e]);
            f += 1;
        }
        assert(values@ =~= Self::values_at(views, l as int, r as int, e as int));
        values
    }
}

impl<S: Scalar> View for NetworkParams<S> {
    type V = Seq<Seq<Seq<S>>>;

    open spec fn view(&self) -> Seq<Seq<Seq<S>>> {
        self.0@.map_values(|entry: Vec<Vec<S>>| Self::entry_view(entry))
    }
}

impl<S: Scalar> Clone for NetworkParams<S> {
    fn clone(&self) -> (out: Self)
        ensures
            out@ == self@,
    {
        let mut entries: Vec<Vec<Vec<S>>> = Vec::new();
        let mut i: usize = 0;
        while i < self.0.len()
            invariant
                i <= self.0@.len(),
                entries@.len() == i,
                forall|k: int|
                    0 <= k < i ==> Self::entry_view(#[trigger] entries@[k]) == Self::entry_view(
                        self.0@[k],
                    ),
            decreases self.0@.len() - i,
        {
            let entry = &self.0[i];
            let mut vectors: Vec<Vec<S>> = Vec::new();
            let mut j: usize = 0;
            while j < entry.len()
                invariant
                    j <= entry@.len(),
                    vectors@.len() == j,
                    forall|k: int| 0 <= k < j ==> (#[trigger] vectors@[k])@ == entry@[k]@,
                decreases entry@.len() - j,
            {
                vectors.push(crate::linalg::copied(&entry[j]));
                j += 1;
            }
            assert(Self::entry_view(vectors) =~= Self::entry_view(*entry));
            entries.push(vectors);
            i += 1;
        }
        let out = NetworkParams(entries);
        assert(out@ =~= self@);
        out
    }
}

} // verus!
