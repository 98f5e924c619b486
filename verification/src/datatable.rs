//! Tables of numbers with named columns.
//!
//! A table holds the samples of a dataset: one row for each sample, one column for each
//! feature. It is the form in which samples reach the trainers and in which predictions
//! leave them. Columns are found by name; where two columns have one name, the first one
//! is meant.

use crate::error::Error;
use crate::linalg::{BinaryOp, MatrixView};
use crate::scalar::Scalar;
use vstd::prelude::*;

verus! {

/// A table of numbers with named columns.
#[derive(Debug)]
pub struct DataTable<S: Scalar> {
    names: Vec<String>,
    rows: usize,
    columns: Vec<Vec<S>>,
}

/// Mathematical model of a [`DataTable`].
pub struct DataTableView<S: Scalar> {
    /// The names of the columns, in column order.
    pub names: Seq<Seq<char>>,
    /// The number of rows.
    pub rows: nat,
    /// The columns, each with one number for each row.
    pub columns: Seq<Seq<S>>,
}

/// The texts of a list of strings.
pub open spec fn texts(strings: Seq<String>) -> Seq<Seq<char>> {
    strings.map_values(|s: String| s@)
}

/// The texts of a list of borrowed strings.
pub open spec fn borrowed_texts(strs: Seq<&str>) -> Seq<Seq<char>> {
    strs.map_values(|s: &str| s@)
}

impl<S: Scalar> DataTableView<S> {
    /// Each column has a name, and one number for each row.
    pub open spec fn wf(self) -> bool {
        &&& self.names.len() == self.columns.len()
        &&& forall|c: int|
            0 <= c < self.columns.len() ==> (#[trigger] self.columns[c]).len() == self.rows
    }

    /// Whether the table has a column called `name`.
    pub open spec fn has(self, name: Seq<char>) -> bool {
        self.names.contains(name)
    }

    /// The place of the first column called `name`, if there is one.
    pub open spec fn position(self, name: Seq<char>) -> Option<int> {
        self.names.index_of_first(name)
    }

    /// The first column called `name`, if there is one.
    pub open spec fn column(self, name: Seq<char>) -> Option<Seq<S>> {
        match self.position(name) {
            Some(place) => Some(self.columns[place]),
            None => None,
        }
    }

    /// The places of the first columns called by each of `names`, where the table has all
    /// of them.
    pub open spec fn positions(self, names: Seq<Seq<char>>) -> Option<Seq<usize>>
        decreases names.len(),
    {
        if names.len() == 0 {
            Some(Seq::empty())
        } else {
            match (self.positions(names.drop_last()), self.position(names.last())) {
                (Some(places), Some(place)) => Some(places.push(place as usize)),
                _ => None,
            }
        }
    }

    /// The table of the columns at the given places, in that order.
    pub open spec fn columns_at(self, places: Seq<usize>) -> Self {
        DataTableView {
            names: Seq::new(places.len(), |i: int| self.names[places[i] as int]),
            rows: self.rows,
            columns: Seq::new(places.len(), |i: int| self.columns[places[i] as int]),
        }
    }

    /// The table of the rows at the given places, in that order.
    pub open spec fn rows_at(self, places: Seq<usize>) -> Self {
        DataTableView {
            names: self.names,
            rows: places.len(),
            columns: Seq::new(
                self.columns.len(),
                |c: int| Seq::new(places.len(), |i: int| self.columns[c][places[i] as int]),
            ),
        }
    }

    /// The table without the column at `place`.
    pub open spec fn without(self, place: int) -> Self {
        DataTableView {
            names: self.names.remove(place),
            rows: self.rows,
            columns: self.columns.remove(place),
        }
    }

    /// Whether the table takes `values` as a column: it has no column yet, or the values
    /// are one for each row.
    pub open spec fn takes(self, values: Seq<S>) -> bool {
        self.columns.len() == 0 || values.len() == self.rows
    }

    /// The table with `values` as the column called `name`: in the place of the first
    /// column of that name, or after the last column where there is none.
    pub open spec fn with_column(self, name: Seq<char>, values: Seq<S>) -> Self {
        match self.position(name) {
            Some(place) => DataTableView {
                names: self.names,
                rows: values.len(),
                columns: self.columns.update(place, values),
            },
            None => DataTableView {
                names: self.names.push(name),
                rows: values.len(),
                columns: self.columns.push(values),
            },
        }
    }

    /// The table with the column at `place` called `name`.
    pub open spec fn renamed(self, place: int, name: Seq<char>) -> Self {
        DataTableView { names: self.names.update(place, name), ..self }
    }

    /// The places below `rows` that are among `chosen`, in rising order.
    pub open spec fn kept(chosen: Seq<usize>, rows: nat) -> Seq<usize> {
        Self::span(0, rows).filter(|place: usize| chosen.contains(place))
    }

    /// The rows that are chosen when the first `n` places of `order` are: in the order of
    /// `order` where `shuffle` is set, in the order of the table where it is not. All the
    /// places of `order` are chosen where no number is given.
    pub open spec fn sampled(self, order: Seq<usize>, n: Option<usize>, shuffle: bool) -> Self {
        let chosen = order.take(
            match n {
                Some(wanted) => wanted as int,
                None => self.rows as int,
            },
        );
        self.rows_at(
            if shuffle {
                chosen
            } else {
                Self::kept(chosen, self.rows)
            },
        )
    }

    /// A number brought into the range between zero and one by the smallest and the
    /// largest number of its column: `(x - min) / (max - min)`.
    pub open spec fn normalized(x: S, min: S, max: S) -> S {
        x.sub_spec(min).div_spec(max.sub_spec(min))
    }

    /// A number brought back from the range between zero and one:
    /// `x * (max - min) + min`.
    pub open spec fn denormalized(x: S, min: S, max: S) -> S {
        x.mul_spec(max.sub_spec(min)).add_spec(min)
    }

    /// The smallest and the largest number of a column that is not empty.
    pub open spec fn min_max(column: Seq<S>) -> (S, S) {
        (BinaryOp::Min.fold(column), BinaryOp::Max.fold(column))
    }

    /// A column brought into the range between zero and one by `min` and `max`.
    pub open spec fn normalized_column(column: Seq<S>, min: S, max: S) -> Seq<S> {
        column.map_values(|x: S| Self::normalized(x, min, max))
    }

    /// A column brought back from the range between zero and one by `min` and `max`.
    pub open spec fn denormalized_column(column: Seq<S>, min: S, max: S) -> Seq<S> {
        column.map_values(|x: S| Self::denormalized(x, min, max))
    }

    /// The table with each column brought into the range between zero and one by its own
    /// smallest and largest number, but for the columns called by one of `except` and for
    /// a table without rows.
    pub open spec fn normalize(self, except: Seq<Seq<char>>) -> Self {
        DataTableView {
            columns: Seq::new(
                self.columns.len(),
                |c: int|
                    if except.contains(self.names[c]) || self.rows == 0 {
                        self.columns[c]
                    } else {
                        Self::normalized_column(
                            self.columns[c],
                            Self::min_max(self.columns[c]).0,
                            Self::min_max(self.columns[c]).1,
                        )
                    },
            ),
            ..self
        }
    }

    /// Whether the rows of `other` can be added to the table: the table has no column yet,
    /// or the two have the same column names.
    pub open spec fn takes_rows_of(self, other: Self) -> bool {
        self.columns.len() == 0 || self.names == other.names
    }

    /// The table with the rows of `other` after its own.
    pub open spec fn appended(self, other: Self) -> Self {
        if self.columns.len() == 0 {
            other
        } else {
            DataTableView {
                names: self.names,
                rows: self.rows + other.rows,
                columns: Seq::new(self.columns.len(), |c: int| self.columns[c] + other.columns[c]),
            }
        }
    }

    /// The table with the columns of `other` after its own.
    pub open spec fn beside(self, other: Self) -> Self {
        DataTableView {
            names: self.names + other.names,
            rows: self.rows,
            columns: self.columns + other.columns,
        }
    }

    /// The place of the first of `keys` that equals `wanted`, if there is one.
    pub open spec fn first_match(keys: Seq<S>, wanted: S) -> Option<int>
        decreases keys.len(),
    {
        if keys.len() == 0 {
            None
        } else {
            match Self::first_match(keys.drop_last(), wanted) {
                Some(place) => Some(place),
                None => if keys.last().equals_spec(wanted) {
                    Some(keys.len() - 1)
                } else {
                    None
                },
            }
        }
    }

    /// Of the first `n` of the keys `left`, those that have a match among the keys `right`,
    /// in order: for each the place of the key, and the place of its first match.
    pub open spec fn matches(left: Seq<S>, right: Seq<S>, n: nat) -> Seq<(usize, usize)>
        decreases n,
    {
        if n == 0 {
            Seq::empty()
        } else {
            let before = Self::matches(left, right, (n - 1) as nat);
            match Self::first_match(right, left[n - 1]) {
                Some(place) => before.push(((n - 1) as usize, place as usize)),
                None => before,
            }
        }
    }

    /// The table joined with `other` on the column `key`: for each row of the table whose
    /// key has a match among the keys of `other`, in order, the row itself, and beside it
    /// what the first matching row of `other` holds in its other columns.
    pub open spec fn joined(self, other: Self, key: Seq<char>) -> Self {
        let pairs = Self::matches(self.column(key)->0, other.column(key)->0, self.rows);
        self.rows_at(pairs.map_values(|pair: (usize, usize)| pair.0)).beside(
            other.without(other.position(key)->0).rows_at(
                pairs.map_values(|pair: (usize, usize)| pair.1),
            ),
        )
    }

    /// The numbers of the table, column after column.
    pub open spec fn flat(self) -> Seq<S> {
        self.columns.flatten()
    }

    /// Row `r`: what each column holds there, in column order.
    pub open spec fn row(self, r: int) -> Seq<S> {
        Seq::new(self.columns.len(), |c: int| self.columns[c][r])
    }

    /// The rows of the table, in order.
    pub open spec fn vectors(self) -> Seq<Seq<S>> {
        Seq::new(self.rows, |r: int| self.row(r))
    }

    /// The table with the given column names whose rows are the given lists.
    pub open spec fn from_vectors(names: Seq<Seq<char>>, vectors: Seq<Seq<S>>) -> Self {
        DataTableView {
            names,
            rows: vectors.len(),
            columns: Seq::new(
                names.len(),
                |c: int| Seq::new(vectors.len(), |r: int| vectors[r][c]),
            ),
        }
    }

    /// The places `from, from + 1, ..` up to `to`, `to` excluded.
    pub open spec fn span(from: nat, to: nat) -> Seq<usize> {
        Seq::new((to - from) as nat, |i: int| (from + i) as usize)
    }

    /// Whether the places are all below `bound`.
    pub open spec fn below(places: Seq<usize>, bound: nat) -> bool {
        forall|i: int| 0 <= i < places.len() ==> (#[trigger] places[i]) < bound
    }

    /// A table is the table of its rows under its column names.
    pub proof fn lemma_vectors_round_trip(self)
        requires
            self.wf(),
        ensures
            Self::from_vectors(self.names, self.vectors()) == self,
    {
        let back = Self::from_vectors(self.names, self.vectors());
        assert(back.columns.len() == self.columns.len());
        assert forall|c: int| 0 <= c < self.columns.len() implies back.columns[c]
            == self.columns[c] by {
            assert(self.columns[c].len() == self.rows);
            assert(back.columns[c] =~= self.columns[c]);
        }
        assert(back.columns =~= self.columns);
    }

    /// Taking the rows of a table in their own order gives the table.
    pub proof fn lemma_rows_in_order(self)
        requires
            self.wf(),
            self.rows <= usize::MAX,
        ensures
            self.rows_at(Self::span(0, self.rows)) == self,
    {
        let same = self.rows_at(Self::span(0, self.rows));
        assert forall|c: int| 0 <= c < self.columns.len() implies same.columns[c]
            == self.columns[c] by {
            assert(self.columns[c].len() == self.rows);
            assert(same.columns[c] =~= self.columns[c]);
        }
        assert(same.columns =~= self.columns);
    }

    /// The first column of a name is found at its place and not before.
    pub proof fn lemma_position(self, name: Seq<char>, place: int)
        requires
            0 <= place < self.names.len(),
            self.names[place] == name,
            forall|j: int| 0 <= j < place ==> self.names[j] != name,
        ensures
            self.position(name) == Some(place),
    {
        self.names.index_of_first_ensures(name);
        assert(self.names.contains(name));
    }

    /// A name that no column has is not found.
    pub proof fn lemma_no_position(self, name: Seq<char>)
        requires
            forall|j: int| 0 <= j < self.names.len() ==> self.names[j] != name,
        ensures
            self.position(name) is None,
            !self.has(name),
    {
        self.names.index_of_first_ensures(name);
    }

    /// A column that is found is one of the table's.
    pub proof fn lemma_position_within(self, name: Seq<char>)
        ensures
            self.position(name) matches Some(place) ==> 0 <= place < self.names.len()
                && self.names[place] == name && forall|j: int|
                0 <= j < place ==> self.names[j] != name,
            self.position(name) is Some <==> self.has(name),
    {
        self.names.index_of_first_ensures(name);
    }

    /// The places of the columns that are found are places of the table.
    pub proof fn lemma_positions_within(self, names: Seq<Seq<char>>)
        ensures
            self.positions(names) matches Some(places) ==> places.len() == names.len()
                && Self::below(places, self.names.len()),
            self.positions(names) is Some <==> forall|i: int|
                0 <= i < names.len() ==> self.has(#[trigger] names[i]),
        decreases names.len(),
    {
        if names.len() > 0 {
            self.lemma_positions_within(names.drop_last());
            self.lemma_position_within(names.last());
            if self.positions(names) is Some {
                assert forall|i: int| 0 <= i < names.len() implies self.has(
                    #[trigger] names[i],
                ) by {
                    if i < names.len() - 1 {
                        assert(names.drop_last()[i] == names[i]);
                    }
                }
            }
            if forall|i: int| 0 <= i < names.len() ==> self.has(#[trigger] names[i]) {
                assert forall|i: int| 0 <= i < names.drop_last().len() implies self.has(
                    #[trigger] names.drop_last()[i],
                ) by {
                    assert(names.drop_last()[i] == names[i]);
                }
                assert(self.has(names[names.len() - 1]));
            }
        }
    }
}

impl<S: Scalar> View for DataTable<S> {
    type V = DataTableView<S>;

    closed spec fn view(&self) -> DataTableView<S> {
        DataTableView {
            names: texts(self.names@),
            rows: self.rows as nat,
            columns: MatrixView::<S>::nested(self.columns@),
        }
    }
}

impl<S: Scalar> Clone for DataTable<S> {
    fn clone(&self) -> (out: Self)
        ensures
            out@ == self@,
            out@.wf(),
    {
        proof {
            use_type_invariant(self);
        }
        let out = DataTable {
            names: self.names.clone(),
            rows: self.rows,
            columns: Self::copied_columns(&self.columns),
        };
        assert(out@.names =~= self@.names);
        out
    }
}

impl<S: Scalar> DataTable<S> {
    #[verifier::type_invariant]
    spec fn well_formed(&self) -> bool {
        &&& self.names@.len() == self.columns@.len()
        &&& forall|c: int|
            0 <= c < self.columns@.len() ==> (#[trigger] self.columns@[c])@.len() == self.rows
    }

    /// A copy of a list of columns.
    fn copied_columns(columns: &Vec<Vec<S>>) -> (out: Vec<Vec<S>>)
        ensures
            out@.len() == columns@.len(),
            forall|c: int| 0 <= c < out@.len() ==> (#[trigger] out@[c])@ == columns@[c]@,
            MatrixView::<S>::nested(out@) == MatrixView::<S>::nested(columns@),
    {
        let mut out: Vec<Vec<S>> = Vec::new();
        let mut c: usize = 0;
        while c < columns.len()
            invariant
                c <= columns@.len(),
                out@.len() == c,
                forall|k: int| 0 <= k < c ==> (#[trigger] out@[k])@ == columns@[k]@,
            decreases columns@.len() - c,
        {
            out.push(crate::linalg::copied(&columns[c]));
            c += 1;
        }
        assert(MatrixView::<S>::nested(out@) =~= MatrixView::<S>::nested(columns@));
        out
    }

    /// The table without columns and without rows.
    pub fn new_empty() -> (out: Self)
        ensures
            out@.wf(),
            out@ == (DataTableView::<S> { names: Seq::empty(), rows: 0, columns: Seq::empty() }),
    {
        let out = DataTable { names: Vec::new(), rows: 0, columns: Vec::new() };
        assert(out@.names =~= Seq::<Seq<char>>::empty());
        assert(out@.columns =~= Seq::<Seq<S>>::empty());
        out
    }

    /// The table of the given columns under the given names: as many names as columns, and
    /// columns of one length.
    pub fn from_columns(names: Vec<String>, columns: Vec<Vec<S>>) -> (out: Result<Self, Error>)
        ensures
            out is Ok <==> names@.len() == columns@.len() && MatrixView::<S>::rectangular(
                MatrixView::<S>::nested(columns@),
            ),
            out matches Ok(table) ==> table@.wf() && table@ == (DataTableView {
                names: texts(names@),
                rows: if columns@.len() == 0 {
                    0
                } else {
                    columns@[0]@.len()
                },
                columns: MatrixView::<S>::nested(columns@),
            }),
            out matches Err(error) ==> error == Error::ShapeMismatch,
    {
        if names.len() != columns.len() {
            return Err(Error::ShapeMismatch);
        }
        let rows: usize = if columns.len() == 0 {
            0
        } else {
            columns[0].len()
        };
        let ghost lists = MatrixView::<S>::nested(columns@);
        let mut c: usize = 0;
        while c < columns.len()
            invariant
                c <= columns@.len(),
                lists == MatrixView::<S>::nested(columns@),
                columns@.len() > 0 ==> rows == columns@[0]@.len(),
                forall|k: int| 0 <= k < c ==> (#[trigger] columns@[k])@.len() == rows,
            decreases columns@.len() - c,
        {
            if columns[c].len() != rows {
                assert(lists[c as int].len() != lists[0].len());
                return Err(Error::ShapeMismatch);
            }
            c += 1;
        }
        assert forall|k: int| 0 <= k < lists.len() implies (#[trigger] lists[k]).len()
            == lists[0].len() by {
            assert(columns@[k]@.len() == rows);
        }
        Ok(DataTable { names, rows, columns })
    }

    /// The number of rows. Each column of a table has a name, and one number for each row.
    pub fn num_rows(&self) -> (rows: usize)
        ensures
            rows == self@.rows,
            self@.wf(),
    {
        proof {
            use_type_invariant(self);
        }
        self.rows
    }

    /// The number of columns.
    pub fn num_columns(&self) -> (columns: usize)
        ensures
            columns == self@.columns.len(),
            columns == self@.names.len(),
            self@.wf(),
    {
        proof {
            use_type_invariant(self);
        }
        self.columns.len()
    }

    /// The names of the columns, in column order.
    pub fn column_names(&self) -> (names: Vec<String>)
        ensures
            texts(names@) == self@.names,
    {
        let names = self.names.clone();
        assert(texts(names@) =~= self@.names);
        names
    }

    /// The columns, in column order.
    pub fn columns_to_vec(&self) -> (columns: Vec<Vec<S>>)
        ensures
            MatrixView::<S>::nested(columns@) == self@.columns,
    {
        Self::copied_columns(&self.columns)
    }

    /// The place of the first column called `name`, if there is one.
    pub fn position(&self, name: &str) -> (out: Option<usize>)
        ensures
            self@.wf(),
            out is Some <==> self@.has(name@),
            match out {
                Some(place) => self@.position(name@) == Some(place as int) && place
                    < self@.names.len(),
                None => self@.position(name@) is None,
            },
    {
        proof {
            use_type_invariant(self);
        }
        let wanted = String::from_str(name);
        let mut i: usize = 0;
        while i < self.names.len()
            invariant
                self.well_formed(),
                i <= self.names@.len(),
                wanted@ == name@,
                forall|k: int| 0 <= k < i ==> self@.names[k] != name@,
            decreases self.names@.len() - i,
        {
            if self.names[i] == wanted {
                proof {
                    assert(self@.names[i as int] == name@);
                    self@.lemma_position(name@, i as int);
                    self@.lemma_position_within(name@);
                }
                return Some(i);
            }
            assert(self@.names[i as int] != name@);
            i += 1;
        }
        proof {
            self@.lemma_no_position(name@);
        }
        None
    }

    /// Whether the table has a column called `name`.
    pub fn has_column(&self, name: &str) -> (has: bool)
        ensures
            has == self@.has(name@),
    {
        self.position(name).is_some()
    }

    /// The numbers of the first column called `name`.
    pub fn column_to_vector(&self, name: &str) -> (out: Result<Vec<S>, Error>)
        ensures
            out is Ok <==> self@.has(name@),
            out is Ok <==> self@.column(name@) is Some,
            out matches Ok(column) ==> self@.column(name@) == Some(column@) && column@.len()
                == self@.rows,
            out matches Err(error) ==> error == Error::MissingRequiredColumn,
    {
        match self.position(name) {
            Some(place) => {
                proof {
                    use_type_invariant(self);
                }
                Ok(crate::linalg::copied(&self.columns[place]))
            },
            None => Err(Error::MissingRequiredColumn),
        }
    }

    /// The table of the columns at the given places, in that order.
    pub fn columns_at(&self, places: &Vec<usize>) -> (out: Self)
        requires
            DataTableView::<S>::below(places@, self@.names.len()),
        ensures
            out@.wf(),
            out@ == self@.columns_at(places@),
    {
        proof {
            use_type_invariant(self);
        }
        let mut names: Vec<String> = Vec::new();
        let mut columns: Vec<Vec<S>> = Vec::new();
        let mut i: usize = 0;
        while i < places.len()
            invariant
                self.well_formed(),
                i <= places@.len(),
                DataTableView::<S>::below(places@, self@.names.len()),
                names@.len() == i,
                columns@.len() == i,
                forall|k: int| 0 <= k < i ==> (#[trigger] names@[k])@ == self.names@[places@[k] as int]@,
                forall|k: int|
                    0 <= k < i ==> (#[trigger] columns@[k])@ == self.columns@[places@[k] as int]@,
            decreases places@.len() - i,
        {
            let place = places[i];
            names.push(self.names[place].clone());
            columns.push(crate::linalg::copied(&self.columns[place]));
            i += 1;
        }
        let out = DataTable { names, rows: self.rows, columns };
        assert(out@.names =~= self@.columns_at(places@).names);
        assert(out@.columns =~= self@.columns_at(places@).columns);
        out
    }

    /// The table of the rows at the given places, in that order.
    pub fn rows_at(&self, places: &Vec<usize>) -> (out: Self)
        requires
            DataTableView::<S>::below(places@, self@.rows),
        ensures
            out@.wf(),
            out@ == self@.rows_at(places@),
    {
        proof {
            use_type_invariant(self);
        }
        let mut columns: Vec<Vec<S>> = Vec::new();
        let mut c: usize = 0;
        while c < self.columns.len()
            invariant
                self.well_formed(),
                c <= self.columns@.len(),
                DataTableView::<S>::below(places@, self@.rows),
                columns@.len() == c,
                forall|k: int|
                    0 <= k < c ==> (#[trigger] columns@[k])@ == self@.rows_at(places@).columns[k],
            decreases self.columns@.len() - c,
        {
            let column = &self.columns[c];
            let mut picked: Vec<S> = Vec::new();
            let mut i: usize = 0;
            while i < places.len()
                invariant
                    i <= places@.len(),
                    DataTableView::<S>::below(places@, column@.len() as nat),
                    picked@.len() == i,
                    forall|k: int| 0 <= k < i ==> (#[trigger] picked@[k]) == column@[places@[k] as int],
                decreases places@.len() - i,
            {
                picked.push(column[places[i]]);
                i += 1;
            }
            assert(picked@ =~= self@.rows_at(places@).columns[c as int]);
            columns.push(picked);
            c += 1;
        }
        let out = DataTable { names: self.names.clone(), rows: places.len(), columns };
        assert(out@.names =~= self@.names);
        assert(out@.columns =~= self@.rows_at(places@).columns);
        out
    }

    /// The rows of the table, in order: for each row, what each column holds there.
    pub fn to_vectors(&self) -> (vectors: Vec<Vec<S>>)
        ensures
            MatrixView::<S>::nested(vectors@) == self@.vectors(),
    {
        proof {
            use_type_invariant(self);
        }
        let mut vectors: Vec<Vec<S>> = Vec::new();
        let mut r: usize = 0;
        while r < self.rows
            invariant
                self.well_formed(),
                r <= self.rows,
                vectors@.len() == r,
                forall|k: int| 0 <= k < r ==> (#[trigger] vectors@[k])@ == self@.row(k),
            decreases self.rows - r,
        {
            let mut row: Vec<S> = Vec::new();
            let mut c: usize = 0;
            while c < self.columns.len()
                invariant
                    self.well_formed(),
                    r < self.rows,
                    c <= self.columns@.len(),
                    row@.len() == c,
                    forall|k: int| 0 <= k < c ==> (#[trigger] row@[k]) == self.columns@[k]@[r as int],
                decreases self.columns@.len() - c,
            {
                row.push(self.columns[c][r]);
                c += 1;
            }
            assert(row@ =~= self@.row(r as int));
            vectors.push(row);
            r += 1;
        }
        assert(MatrixView::<S>::nested(vectors@) =~= self@.vectors());
        vectors
    }

    /// The table with the given column names whose rows are the given lists: each list
    /// must hold one number for each name.
    pub fn from_vectors(names: &Vec<String>, vectors: &Vec<Vec<S>>) -> (out: Result<Self, Error>)
        ensures
            out is Ok <==> forall|r: int|
                0 <= r < vectors@.len() ==> (#[trigger] vectors@[r])@.len() == names@.len(),
            out matches Ok(table) ==> table@.wf() && table@ == DataTableView::from_vectors(
                texts(names@),
                MatrixView::<S>::nested(vectors@),
            ),
            out matches Err(error) ==> error == Error::ShapeMismatch,
    {
        let mut r: usize = 0;
        while r < vectors.len()
            invariant
                r <= vectors@.len(),
                forall|k: int| 0 <= k < r ==> (#[trigger] vectors@[k])@.len() == names@.len(),
            decreases vectors@.len() - r,
        {
            if vectors[r].len() != names.len() {
                return Err(Error::ShapeMismatch);
            }
            r += 1;
        }
        let ghost wanted = DataTableView::from_vectors(
            texts(names@),
            MatrixView::<S>::nested(vectors@),
        );
        let mut columns: Vec<Vec<S>> = Vec::new();
        let mut c: usize = 0;
        while c < names.len()
            invariant
                c <= names@.len(),
                forall|k: int| 0 <= k < vectors@.len() ==> (#[trigger] vectors@[k])@.len() == names@.len(),
                wanted == DataTableView::from_vectors(
                    texts(names@),
                    MatrixView::<S>::nested(vectors@),
                ),
                columns@.len() == c,
                forall|k: int| 0 <= k < c ==> (#[trigger] columns@[k])@ == wanted.columns[k],
            decreases names@.len() - c,
        {
            let mut column: Vec<S> = Vec::new();
            let mut r: usize = 0;
            while r < vectors.len()
                invariant
                    c < names@.len(),
                    r <= vectors@.len(),
                    forall|k: int|
                        0 <= k < vectors@.len() ==> (#[trigger] vectors@[k])@.len() == names@.len(),
                    column@.len() == r,
                    forall|k: int| 0 <= k < r ==> (#[trigger] column@[k]) == vectors@[k]@[c as int],
                decreases vectors@.len() - r,
            {
                column.push(vectors[r][c]);
                r += 1;
            }
            assert(column@ =~= wanted.columns[c as int]);
            columns.push(column);
            c += 1;
        }
        let out = DataTable { names: names.clone(), rows: vectors.len(), columns };
        assert(out@.names =~= wanted.names);
        assert(out@.columns =~= wanted.columns);
        Ok(out)
    }

    /// The places of the first columns called by each of `names`, where the table has all
    /// of them.
    pub fn positions(&self, names: &[&str]) -> (out: Option<Vec<usize>>)
        ensures
            self@.wf(),
            match out {
                Some(places) => self@.positions(borrowed_texts(names@)) == Some(places@)
                    && DataTableView::<S>::below(places@, self@.names.len()),
                None => self@.positions(borrowed_texts(names@)) is None,
            },
    {
        let ghost wanted = borrowed_texts(names@);
        let mut places: Vec<usize> = Vec::new();
        let mut i: usize = 0;
        proof {
            use_type_invariant(self);
            assert(wanted.take(0) =~= Seq::<Seq<char>>::empty());
        }
        while i < names.len()
            invariant
                self@.wf(),
                i <= names@.len(),
                wanted == borrowed_texts(names@),
                self@.positions(wanted.take(i as int)) == Some(places@),
                DataTableView::<S>::below(places@, self@.names.len()),
            decreases names@.len() - i,
        {
            proof {
                assert(wanted.take(i + 1).drop_last() =~= wanted.take(i as int));
                assert(wanted.take(i + 1).last() == names@[i as int]@);
            }
            match self.position(names[i]) {
                Some(place) => {
                    places.push(place);
                },
                None => {
                    proof {
                        Self::lemma_positions_stay_missing(self@, wanted, i + 1);
                    }
                    return None;
                },
            }
            i += 1;
        }
        assert(wanted.take(i as int) =~= wanted);
        Some(places)
    }

    /// Once a column is missing, it stays missing.
    proof fn lemma_positions_stay_missing(table: DataTableView<S>, names: Seq<Seq<char>>, n: int)
        requires
            0 <= n <= names.len(),
            table.positions(names.take(n)) is None,
        ensures
            table.positions(names) is None,
        decreases names.len() - n,
    {
        if n < names.len() {
            assert(names.take(n + 1).drop_last() =~= names.take(n));
            Self::lemma_positions_stay_missing(table, names, n + 1);
        } else {
            assert(names.take(n) =~= names);
        }
    }

    /// The table of the columns called by `names`, in that order. The table must have all
    /// of them.
    pub fn select_columns(&self, names: &[&str]) -> (out: Result<Self, Error>)
        ensures
            out is Ok <==> self@.positions(borrowed_texts(names@)) is Some,
            out matches Ok(table) ==> table@.wf() && table@ == self@.columns_at(
                self@.positions(borrowed_texts(names@))->0,
            ),
            out matches Err(error) ==> error == Error::MissingRequiredColumn,
    {
        match self.positions(names) {
            Some(places) => Ok(self.columns_at(&places)),
            None => Err(Error::MissingRequiredColumn),
        }
    }

    /// The table without the first column called `name`, which it must have.
    pub fn drop_column(&self, name: &str) -> (out: Result<Self, Error>)
        ensures
            out is Ok <==> self@.has(name@),
            out matches Ok(table) ==> table@.wf() && table@ == self@.without(
                self@.position(name@)->0,
            ),
            out matches Err(error) ==> error == Error::MissingRequiredColumn,
    {
        let place = match self.position(name) {
            Some(place) => place,
            None => {
                return Err(Error::MissingRequiredColumn);
            },
        };
        let mut places: Vec<usize> = Vec::new();
        let mut i: usize = 0;
        let columns = self.num_columns();
        while i < columns
            invariant
                place < columns,
                columns == self@.names.len(),
                i <= columns,
                places@.len() == if i <= place {
                    i as int
                } else {
                    i - 1
                },
                forall|k: int|
                    0 <= k < places@.len() ==> (#[trigger] places@[k]) == if k < place {
                        k
                    } else {
                        k + 1
                    },
            decreases columns - i,
        {
            if i != place {
                places.push(i);
            }
            i += 1;
        }
        let out = self.columns_at(&places);
        proof {
            let wanted = self@.without(place as int);
            assert(out@.names =~= wanted.names);
            assert(out@.columns =~= wanted.columns);
        }
        Ok(out)
    }

    /// The table with `values` as the column called `name`: in the place of the first
    /// column of that name, or after the last column where there is none. The values must
    /// be one for each row, unless the table has no column yet.
    pub fn with_column(&self, name: &str, values: &Vec<S>) -> (out: Result<Self, Error>)
        ensures
            out is Ok <==> self@.takes(values@),
            out matches Ok(table) ==> table@.wf() && table@ == self@.with_column(name@, values@),
            out matches Err(error) ==> error == Error::ShapeMismatch,
    {
        proof {
            use_type_invariant(self);
        }
        if self.columns.len() != 0 && values.len() != self.rows {
            return Err(Error::ShapeMismatch);
        }
        let mut names = self.names.clone();
        let mut columns = Self::copied_columns(&self.columns);
        assert(texts(names@) =~= self@.names);
        match self.position(name) {
            Some(place) => {
                columns[place] = crate::linalg::copied(values);
                let out = DataTable { names, rows: values.len(), columns };
                assert(out@.columns =~= self@.columns.update(place as int, values@));
                Ok(out)
            },
            None => {
                names.push(String::from_str(name));
                columns.push(crate::linalg::copied(values));
                let out = DataTable { names, rows: values.len(), columns };
                assert(out@.names =~= self@.names.push(name@));
                assert(out@.columns =~= self@.columns.push(values@));
                Ok(out)
            },
        }
    }

    /// The table with the first column called `name` called `new_name` instead. The table
    /// must have the column.
    pub fn rename_column(&self, name: &str, new_name: &str) -> (out: Result<Self, Error>)
        ensures
            out is Ok <==> self@.has(name@),
            out matches Ok(table) ==> table@.wf() && table@ == self@.renamed(
                self@.position(name@)->0,
                new_name@,
            ),
            out matches Err(error) ==> error == Error::MissingRequiredColumn,
    {
        proof {
            use_type_invariant(self);
        }
        match self.position(name) {
            Some(place) => {
                let mut names = self.names.clone();
                assert(texts(names@) =~= self@.names);
                names[place] = String::from_str(new_name);
                let out = DataTable {
                    names,
                    rows: self.rows,
                    columns: Self::copied_columns(&self.columns),
                };
                assert(out@.names =~= self@.names.update(place as int, new_name@));
                Ok(out)
            },
            None => Err(Error::MissingRequiredColumn),
        }
    }

    /// The places `from, from + 1, ..` up to `to`, `to` excluded.
    pub fn span(from: usize, to: usize) -> (places: Vec<usize>)
        requires
            from <= to,
        ensures
            places@ == DataTableView::<S>::span(from as nat, to as nat),
    {
        let mut places: Vec<usize> = Vec::new();
        let mut i: usize = from;
        while i < to
            invariant
                from <= i <= to,
                places@.len() == i - from,
                forall|k: int| 0 <= k < places@.len() ==> (#[trigger] places@[k]) == from + k,
            decreases to - i,
        {
            places.push(i);
            i += 1;
        }
        assert(places@ =~= DataTableView::<S>::span(from as nat, to as nat));
        places
    }

    /// The rows from place `from` up to place `to`, `to` excluded.
    pub fn rows_between(&self, from: usize, to: usize) -> (out: Self)
        requires
            from <= to <= self@.rows,
        ensures
            out@.wf(),
            out@ == self@.rows_at(DataTableView::<S>::span(from as nat, to as nat)),
    {
        let places = Self::span(from, to);
        self.rows_at(&places)
    }

    /// The first `n_head` rows and the last `n_tail` rows of the table, or all the rows
    /// where it has fewer.
    pub fn split(&self, n_head: usize, n_tail: usize) -> (out: (Self, Self))
        ensures
            out.0@.wf(),
            out.1@.wf(),
            out.0@ == self@.rows_at(
                DataTableView::<S>::span(
                    0,
                    if n_head <= self@.rows {
                        n_head as nat
                    } else {
                        self@.rows
                    },
                ),
            ),
            out.1@ == self@.rows_at(
                DataTableView::<S>::span(
                    if n_tail <= self@.rows {
                        (self@.rows - n_tail) as nat
                    } else {
                        0
                    },
                    self@.rows,
                ),
            ),
    {
        let rows = self.num_rows();
        let head = if n_head <= rows {
            n_head
        } else {
            rows
        };
        let tail = if n_tail <= rows {
            rows - n_tail
        } else {
            0
        };
        (self.rows_between(0, head), self.rows_between(tail, rows))
    }

    /// The numbers of the table, column after column.
    pub fn flatten(&self) -> (out: Vec<S>)
        ensures
            out@ == self@.flat(),
    {
        let mut out: Vec<S> = Vec::new();
        let mut c: usize = 0;
        assert(self@.columns.take(0) =~= Seq::<Seq<S>>::empty());
        while c < self.columns.len()
            invariant
                c <= self.columns@.len(),
                out@ == self@.columns.take(c as int).flatten(),
            decreases self.columns@.len() - c,
        {
            let column = &self.columns[c];
            let ghost before = out@;
            let mut r: usize = 0;
            while r < column.len()
                invariant
                    r <= column@.len(),
                    out@ == before + column@.take(r as int),
                decreases column@.len() - r,
            {
                out.push(column[r]);
                assert(column@.take(r + 1) =~= column@.take(r as int).push(column@[r as int]));
                assert(out@ =~= before + column@.take(r + 1));
                r += 1;
            }
            proof {
                assert(column@.take(r as int) =~= column@);
                let seen = self@.columns.take(c as int);
                assert(self@.columns.take(c + 1) =~= seen.push(column@));
                seen.lemma_flatten_push(column@);
            }
            c += 1;
        }
        assert(self@.columns.take(c as int) =~= self@.columns);
        out
    }

    /// The table cut in two at the share `ratio`: the first rows, up to the split point,
    /// and the rest.
    pub fn split_ratio(&self, ratio: S) -> (out: (Self, Self))
        ensures
            out.0@.wf(),
            out.1@.wf(),
            out.0@ == self@.rows_at(
                DataTableView::<S>::span(
                    0,
                    crate::trainers::sampling::split_point(ratio, self@.rows as usize),
                ),
            ),
            out.1@ == self@.rows_at(
                DataTableView::<S>::span(
                    crate::trainers::sampling::split_point(ratio, self@.rows as usize),
                    self@.rows,
                ),
            ),
    {
        let rows = self.num_rows();
        let split = crate::trainers::sampling::split_at(ratio, rows);
        (self.rows_between(0, split), self.rows_between(split, rows))
    }

    /// The rows of the table in a random order. Whatever the order that chance gives, it
    /// names each row once.
    pub fn shuffled(&self) -> (out: Self)
        ensures
            out@.wf(),
            exists|order: Seq<usize>|
                crate::random::is_order_of(order, self@.rows) && out@ == #[trigger] self@.rows_at(
                    order,
                ),
    {
        let order = crate::random::random_order(self.num_rows());
        proof {
            crate::random::lemma_order_in_range(order@, self@.rows);
        }
        self.rows_at(&order)
    }

    /// The places below `rows` that are among `chosen`, in rising order.
    pub fn kept(chosen: &Vec<usize>, rows: usize) -> (places: Vec<usize>)
        requires
            DataTableView::<S>::below(chosen@, rows as nat),
        ensures
            places@ == DataTableView::<S>::kept(chosen@, rows as nat),
            DataTableView::<S>::below(places@, rows as nat),
    {
        let mut marks: Vec<bool> = Vec::new();
        let mut r: usize = 0;
        while r < rows
            invariant
                r <= rows,
                marks@.len() == r,
                forall|k: int| 0 <= k < r ==> !(#[trigger] marks@[k]),
            decreases rows - r,
        {
            marks.push(false);
            r += 1;
        }
        let mut i: usize = 0;
        while i < chosen.len()
            invariant
                i <= chosen@.len(),
                marks@.len() == rows,
                DataTableView::<S>::below(chosen@, rows as nat),
                forall|k: int|
                    0 <= k < rows ==> (#[trigger] marks@[k]) == chosen@.take(i as int).contains(
                        k as usize,
                    ),
            decreases chosen@.len() - i,
        {
            let place = chosen[i];
            proof {
                let seen = chosen@.take(i as int);
                let more = chosen@.take(i + 1);
                assert(more =~= seen.push(place));
                assert forall|k: int| 0 <= k < rows implies (if k == place {
                    true
                } else {
                    marks@[k]
                }) == more.contains(k as usize) by {
                    if k == place {
                        assert(more[i as int] == k as usize);
                    } else if seen.contains(k as usize) {
                        let at = choose|at: int| 0 <= at < seen.len() && seen[at] == k as usize;
                        assert(more[at] == k as usize);
                    } else if more.contains(k as usize) {
                        let at = choose|at: int| 0 <= at < more.len() && more[at] == k as usize;
                        assert(at < i);
                        assert(seen[at] == k as usize);
                    }
                }
            }
            marks[place] = true;
            i += 1;
        }
        assert(chosen@.take(i as int) =~= chosen@);
        let mut places: Vec<usize> = Vec::new();
        let mut r: usize = 0;
        assert(DataTableView::<S>::span(0, 0) =~= Seq::<usize>::empty());
        while r < rows
            invariant
                r <= rows,
                marks@.len() == rows,
                forall|k: int| 0 <= k < rows ==> (#[trigger] marks@[k]) == chosen@.contains(k as usize),
                places@ == DataTableView::<S>::kept(chosen@, r as nat),
                DataTableView::<S>::below(places@, rows as nat),
            decreases rows - r,
        {
            proof {
                let seen = DataTableView::<S>::span(0, r as nat);
                assert(DataTableView::<S>::span(0, (r + 1) as nat) =~= seen.push(r));
                seen.lemma_filter_push(r, |place: usize| chosen@.contains(place));
            }
            if marks[r] {
                places.push(r);
            }
            r += 1;
        }
        places
    }

    /// A random choice of `n` rows of the table, or of all of them where no number is given:
    /// in a random order where `shuffle` is set, in the order of the table where it is not.
    /// The table must have that many rows.
    pub fn sample(&self, n: Option<usize>, shuffle: bool) -> (out: Result<Self, Error>)
        ensures
            out is Ok <==> (n matches Some(wanted) ==> wanted <= self@.rows),
            out matches Ok(table) ==> table@.wf() && exists|order: Seq<usize>|
                crate::random::is_order_of(order, self@.rows) && table@
                    == #[trigger] self@.sampled(order, n, shuffle),
            out matches Err(error) ==> error == Error::ShapeMismatch,
    {
        let rows = self.num_rows();
        let wanted = match n {
            Some(wanted) => wanted,
            None => rows,
        };
        if wanted > rows {
            return Err(Error::ShapeMismatch);
        }
        let order = crate::random::random_order(rows);
        proof {
            crate::random::lemma_order_in_range(order@, self@.rows);
        }
        let mut chosen: Vec<usize> = Vec::new();
        let mut i: usize = 0;
        while i < wanted
            invariant
                i <= wanted <= rows,
                order@.len() == rows,
                chosen@ == order@.take(i as int),
            decreases wanted - i,
        {
            chosen.push(order[i]);
            assert(order@.take(i + 1) =~= order@.take(i as int).push(order@[i as int]));
            i += 1;
        }
        assert(DataTableView::<S>::below(chosen@, rows as nat)) by {
            assert forall|k: int| 0 <= k < chosen@.len() implies (#[trigger] chosen@[k]) < rows by {
                assert(chosen@[k] == order@[k]);
            }
        }
        let out = if shuffle {
            self.rows_at(&chosen)
        } else {
            let places = Self::kept(&chosen, rows);
            self.rows_at(&places)
        };
        assert(crate::random::is_order_of(order@, self@.rows) && out@ == self@.sampled(
            order@,
            n,
            shuffle,
        ));
        Ok(out)
    }

    /// The smallest and the largest number of the first column called `name`. The table
    /// must have the column, and a row.
    pub fn min_max_column(&self, name: &str) -> (out: Result<(S, S), Error>)
        ensures
            out is Ok <==> self@.has(name@) && self@.rows > 0,
            out matches Ok(ends) ==> ends == DataTableView::min_max(self@.column(name@)->0),
            out matches Err(error) ==> error == if self@.has(name@) {
                Error::ShapeMismatch
            } else {
                Error::MissingRequiredColumn
            },
    {
        let column = match self.column_to_vector(name) {
            Ok(column) => column,
            Err(error) => {
                return Err(error);
            },
        };
        proof {
            self@.lemma_position_within(name@);
        }
        let rows = self.num_rows();
        if rows == 0 {
            return Err(Error::ShapeMismatch);
        }
        Ok((BinaryOp::Min.fold_column(&column), BinaryOp::Max.fold_column(&column)))
    }

    /// A column brought into the range between zero and one by `min` and `max`.
    pub fn normalized_column(column: &Vec<S>, min: S, max: S) -> (out: Vec<S>)
        ensures
            out@ == DataTableView::normalized_column(column@, min, max),
    {
        let mut out: Vec<S> = Vec::new();
        let spread = max.sub(min);
        let mut r: usize = 0;
        while r < column.len()
            invariant
                r <= column@.len(),
                spread == max.sub_spec(min),
                out@.len() == r,
                forall|k: int|
                    0 <= k < r ==> (#[trigger] out@[k]) == DataTableView::normalized(
                        column@[k],
                        min,
                        max,
                    ),
            decreases column@.len() - r,
        {
            out.push(column[r].sub(min).div(spread));
            r += 1;
        }
        assert(out@ =~= DataTableView::normalized_column(column@, min, max));
        out
    }

    /// A column brought back from the range between zero and one by `min` and `max`.
    pub fn denormalized_column(column: &Vec<S>, min: S, max: S) -> (out: Vec<S>)
        ensures
            out@ == DataTableView::denormalized_column(column@, min, max),
    {
        let mut out: Vec<S> = Vec::new();
        let spread = max.sub(min);
        let mut r: usize = 0;
        while r < column.len()
            invariant
                r <= column@.len(),
                spread == max.sub_spec(min),
                out@.len() == r,
                forall|k: int|
                    0 <= k < r ==> (#[trigger] out@[k]) == DataTableView::denormalized(
                        column@[k],
                        min,
                        max,
                    ),
            decreases column@.len() - r,
        {
            out.push(column[r].mul(spread).add(min));
            r += 1;
        }
        assert(out@ =~= DataTableView::denormalized_column(column@, min, max));
        out
    }

    /// The table with the first column called `name` brought into the range between zero
    /// and one by `min_max`, the smallest and the largest number to go by. The table must
    /// have the column.
    pub fn normalize_column(&self, name: &str, min_max: (S, S)) -> (out: Result<Self, Error>)
        ensures
            out is Ok <==> self@.has(name@),
            out matches Ok(table) ==> table@.wf() && table@ == self@.with_column(
                name@,
                DataTableView::normalized_column(self@.column(name@)->0, min_max.0, min_max.1),
            ),
            out matches Err(error) ==> error == Error::MissingRequiredColumn,
    {
        let column = match self.column_to_vector(name) {
            Ok(column) => column,
            Err(error) => {
                return Err(error);
            },
        };
        proof {
            self@.lemma_position_within(name@);
        }
        let _rows = self.num_rows();
        let values = Self::normalized_column(&column, min_max.0, min_max.1);
        match self.with_column(name, &values) {
            Ok(table) => Ok(table),
            Err(error) => {
                assert(false);
                Err(Error::MissingRequiredColumn)
            },
        }
    }

    /// The table with the first column called `name` brought back from the range between
    /// zero and one by `min_max`. The table must have the column.
    pub fn denormalize_column(&self, name: &str, min_max: (S, S)) -> (out: Result<Self, Error>)
        ensures
            out is Ok <==> self@.has(name@),
            out matches Ok(table) ==> table@.wf() && table@ == self@.with_column(
                name@,
                DataTableView::denormalized_column(self@.column(name@)->0, min_max.0, min_max.1),
            ),
            out matches Err(error) ==> error == Error::MissingRequiredColumn,
    {
        let column = match self.column_to_vector(name) {
            Ok(column) => column,
            Err(error) => {
                return Err(error);
            },
        };
        proof {
            self@.lemma_position_within(name@);
        }
        let _rows = self.num_rows();
        let values = Self::denormalized_column(&column, min_max.0, min_max.1);
        match self.with_column(name, &values) {
            Ok(table) => Ok(table),
            Err(error) => {
                assert(false);
                Err(Error::MissingRequiredColumn)
            },
        }
    }

    /// Whether `name` is one of `names`.
    fn is_among(names: &[&str], name: &String) -> (found: bool)
        ensures
            found == borrowed_texts(names@).contains(name@),
    {
        let mut i: usize = 0;
        while i < names.len()
            invariant
                i <= names@.len(),
                forall|k: int| 0 <= k < i ==> names@[k]@ != name@,
            decreases names@.len() - i,
        {
            let candidate = String::from_str(names[i]);
            if candidate == *name {
                assert(borrowed_texts(names@)[i as int] == name@);
                return true;
            }
            i += 1;
        }
        false
    }

    /// The table with each column brought into the range between zero and one by its own
    /// smallest and largest number, but for the columns called by one of `except`. A table
    /// without rows stays as it is.
    pub fn normalize(&self, except: &[&str]) -> (out: Self)
        ensures
            out@.wf(),
            out@ == self@.normalize(borrowed_texts(except@)),
    {
        proof {
            use_type_invariant(self);
        }
        let ghost wanted = self@.normalize(borrowed_texts(except@));
        let mut columns: Vec<Vec<S>> = Vec::new();
        let mut c: usize = 0;
        while c < self.columns.len()
            invariant
                self.well_formed(),
                c <= self.columns@.len(),
                wanted == self@.normalize(borrowed_texts(except@)),
                columns@.len() == c,
                forall|k: int| 0 <= k < c ==> (#[trigger] columns@[k])@ == wanted.columns[k],
            decreases self.columns@.len() - c,
        {
            let column = &self.columns[c];
            if Self::is_among(except, &self.names[c]) || self.rows == 0 {
                columns.push(crate::linalg::copied(column));
            } else {
                let min = BinaryOp::Min.fold_column(column);
                let max = BinaryOp::Max.fold_column(column);
                columns.push(Self::normalized_column(column, min, max));
            }
            c += 1;
        }
        let out = DataTable { names: self.names.clone(), rows: self.rows, columns };
        assert(out@.names =~= wanted.names);
        assert(out@.columns =~= wanted.columns);
        assert forall|k: int| 0 <= k < out.columns@.len() implies (#[trigger] out.columns@[k])@.len()
            == out.rows by {
            assert(out.columns@[k]@ == wanted.columns[k]);
        }
        out
    }

    /// Whether the two lists hold the same names in the same order.
    fn same_names(first: &Vec<String>, second: &Vec<String>) -> (same: bool)
        ensures
            same == (texts(first@) == texts(second@)),
    {
        if first.len() != second.len() {
            assert(texts(first@).len() != texts(second@).len());
            return false;
        }
        let mut i: usize = 0;
        while i < first.len()
            invariant
                i <= first@.len(),
                first@.len() == second@.len(),
                forall|k: int| 0 <= k < i ==> first@[k]@ == second@[k]@,
            decreases first@.len() - i,
        {
            if first[i] != second[i] {
                assert(texts(first@)[i as int] != texts(second@)[i as int]);
                return false;
            }
            i += 1;
        }
        assert(texts(first@) =~= texts(second@));
        true
    }

    /// The table with the rows of `other` after its own. The two must have the same column
    /// names, unless the table has no column yet; and the rows together must be countable.
    pub fn append(&self, other: &Self) -> (out: Result<Self, Error>)
        ensures
            out is Ok <==> self@.takes_rows_of(other@) && (self@.columns.len() == 0 || self@.rows
                + other@.rows <= usize::MAX),
            out matches Ok(table) ==> table@.wf() && table@ == self@.appended(other@),
            out matches Err(error) ==> error == Error::ShapeMismatch,
    {
        proof {
            use_type_invariant(self);
            use_type_invariant(other);
        }
        if self.columns.len() == 0 {
            return Ok(other.clone());
        }
        if !Self::same_names(&self.names, &other.names) {
            return Err(Error::ShapeMismatch);
        }
        let rows = match self.rows.checked_add(other.rows) {
            Some(rows) => rows,
            None => {
                return Err(Error::ShapeMismatch);
            },
        };
        let ghost wanted = self@.appended(other@);
        assert(texts(self.names@).len() == texts(other.names@).len());
        let mut columns: Vec<Vec<S>> = Vec::new();
        let mut c: usize = 0;
        while c < self.columns.len()
            invariant
                self.well_formed(),
                other.well_formed(),
                self.names@.len() == other.names@.len(),
                self.columns@.len() > 0,
                wanted == self@.appended(other@),
                rows == self.rows + other.rows,
                c <= self.columns@.len(),
                columns@.len() == c,
                forall|k: int| 0 <= k < c ==> (#[trigger] columns@[k])@ == wanted.columns[k],
            decreases self.columns@.len() - c,
        {
            let mut column = crate::linalg::copied(&self.columns[c]);
            let added = &other.columns[c];
            let ghost own = column@;
            let mut r: usize = 0;
            while r < added.len()
                invariant
                    r <= added@.len(),
                    column@ == own + added@.take(r as int),
                decreases added@.len() - r,
            {
                column.push(added[r]);
                assert(added@.take(r + 1) =~= added@.take(r as int).push(added@[r as int]));
                assert(column@ =~= own + added@.take(r + 1));
                r += 1;
            }
            assert(added@.take(r as int) =~= added@);
            columns.push(column);
            c += 1;
        }
        let out = DataTable { names: self.names.clone(), rows, columns };
        assert(out@.names =~= wanted.names);
        assert(out@.columns =~= wanted.columns);
        assert forall|k: int| 0 <= k < out.columns@.len() implies (#[trigger] out.columns@[k])@.len()
            == out.rows by {
            assert(out.columns@[k]@ == wanted.columns[k]);
        }
        Ok(out)
    }

    /// The table with the columns of `other` after its own. The two must have as many rows.
    pub fn with_columns_of(&self, other: &Self) -> (out: Result<Self, Error>)
        ensures
            out is Ok <==> self@.rows == other@.rows,
            out matches Ok(table) ==> table@.wf() && table@ == self@.beside(other@),
            out matches Err(error) ==> error == Error::ShapeMismatch,
    {
        proof {
            use_type_invariant(self);
            use_type_invariant(other);
        }
        if self.rows != other.rows {
            return Err(Error::ShapeMismatch);
        }
        let mut names = self.names.clone();
        let mut columns = Self::copied_columns(&self.columns);
        assert(texts(names@) =~= self@.names);
        let mut c: usize = 0;
        while c < other.columns.len()
            invariant
                self.well_formed(),
                other.well_formed(),
                self.rows == other.rows,
                c <= other.columns@.len(),
                texts(names@) == self@.names + other@.names.take(c as int),
                MatrixView::<S>::nested(columns@) == self@.columns + other@.columns.take(c as int),
                names@.len() == columns@.len(),
                forall|k: int| 0 <= k < columns@.len() ==> (#[trigger] columns@[k])@.len() == self.rows,
            decreases other.columns@.len() - c,
        {
            let ghost named = names@;
            let ghost held = columns@;
            let name = other.names[c].clone();
            let column = crate::linalg::copied(&other.columns[c]);
            names.push(name);
            columns.push(column);
            proof {
                named.lemma_push_map_commute(|s: String| s@, name);
                held.lemma_push_map_commute(|vector: Vec<S>| vector@, column);
                let other_names = other@.names;
                let other_columns = other@.columns;
                assert(other_names.take(c + 1) =~= other_names.take(c as int).push(
                    other_names[c as int],
                ));
                assert(other_columns.take(c + 1) =~= other_columns.take(c as int).push(
                    other_columns[c as int],
                ));
                assert(texts(names@) =~= self@.names + other_names.take(c + 1));
                assert(MatrixView::<S>::nested(columns@) =~= self@.columns + other_columns.take(
                    c + 1,
                ));
            }
            c += 1;
        }
        proof {
            assert(other@.names.take(c as int) =~= other@.names);
            assert(other@.columns.take(c as int) =~= other@.columns);
        }
        Ok(DataTable { names, rows: self.rows, columns })
    }

    /// The place of the first of `keys` that equals `wanted`, if there is one.
    pub fn first_match(keys: &Vec<S>, wanted: S) -> (out: Option<usize>)
        ensures
            match out {
                Some(place) => DataTableView::first_match(keys@, wanted) == Some(place as int)
                    && place < keys@.len(),
                None => DataTableView::first_match(keys@, wanted) is None,
            },
    {
        let mut i: usize = 0;
        proof {
            assert(keys@.take(0) =~= Seq::<S>::empty());
        }
        while i < keys.len()
            invariant
                i <= keys@.len(),
                DataTableView::first_match(keys@.take(i as int), wanted) is None,
            decreases keys@.len() - i,
        {
            proof {
                assert(keys@.take(i + 1).drop_last() =~= keys@.take(i as int));
                assert(keys@.take(i + 1).last() == keys@[i as int]);
            }
            if keys[i].equals(wanted) {
                proof {
                    Self::lemma_match_stays(keys@, wanted, i + 1);
                }
                return Some(i);
            }
            i += 1;
        }
        assert(keys@.take(i as int) =~= keys@);
        None
    }

    /// A match found among the first keys is the first match of the list.
    proof fn lemma_match_stays(keys: Seq<S>, wanted: S, n: int)
        requires
            0 <= n <= keys.len(),
            DataTableView::first_match(keys.take(n), wanted) is Some,
        ensures
            DataTableView::first_match(keys, wanted) == DataTableView::first_match(
                keys.take(n),
                wanted,
            ),
        decreases keys.len() - n,
    {
        if n < keys.len() {
            assert(keys.take(n + 1).drop_last() =~= keys.take(n));
            Self::lemma_match_stays(keys, wanted, n + 1);
        } else {
            assert(keys.take(n) =~= keys);
        }
    }

    /// The table joined with `other` on the column `key`, which both must have: for each
    /// row of the table whose key has a match among the keys of `other`, in order, the row
    /// itself, and beside it what the first matching row of `other` holds in its other
    /// columns.
    pub fn join(&self, other: &Self, key: &str) -> (out: Result<Self, Error>)
        ensures
            out is Ok <==> self@.has(key@) && other@.has(key@),
            out matches Ok(table) ==> table@.wf() && table@ == self@.joined(other@, key@),
            out matches Err(error) ==> error == Error::MissingRequiredColumn,
    {
        let left = match self.column_to_vector(key) {
            Ok(left) => left,
            Err(error) => {
                return Err(error);
            },
        };
        let right = match other.column_to_vector(key) {
            Ok(right) => right,
            Err(error) => {
                return Err(error);
            },
        };
        let rows = self.num_rows();
        let other_rows = other.num_rows();
        let mut own: Vec<usize> = Vec::new();
        let mut theirs: Vec<usize> = Vec::new();
        let ghost pairs = DataTableView::matches(left@, right@, rows as nat);
        let mut r: usize = 0;
        proof {
            assert(own@ =~= DataTableView::<S>::matches(left@, right@, 0).map_values(
                |pair: (usize, usize)| pair.0,
            ));
            assert(theirs@ =~= DataTableView::<S>::matches(left@, right@, 0).map_values(
                |pair: (usize, usize)| pair.1,
            ));
        }
        while r < rows
            invariant
                r <= rows,
                left@.len() == rows,
                right@.len() == other_rows,
                own@ == DataTableView::matches(left@, right@, r as nat).map_values(
                    |pair: (usize, usize)| pair.0,
                ),
                theirs@ == DataTableView::matches(left@, right@, r as nat).map_values(
                    |pair: (usize, usize)| pair.1,
                ),
                DataTableView::<S>::below(own@, rows as nat),
                DataTableView::<S>::below(theirs@, other_rows as nat),
            decreases rows - r,
        {
            let ghost before = DataTableView::matches(left@, right@, r as nat);
            match Self::first_match(&right, left[r]) {
                Some(place) => {
                    own.push(r);
                    theirs.push(place);
                    proof {
                        before.lemma_push_map_commute(|pair: (usize, usize)| pair.0, (r, place));
                        before.lemma_push_map_commute(|pair: (usize, usize)| pair.1, (r, place));
                    }
                },
                None => {},
            }
            r += 1;
        }
        let kept = self.rows_at(&own);
        let dropped = match other.drop_column(key) {
            Ok(dropped) => dropped,
            Err(error) => {
                return Err(error);
            },
        };
        let found = dropped.rows_at(&theirs);
        match kept.with_columns_of(&found) {
            Ok(table) => {
                proof {
                    self@.lemma_position_within(key@);
                    other@.lemma_position_within(key@);
                }
                Ok(table)
            },
            Err(error) => {
                assert(false);
                Err(Error::MissingRequiredColumn)
            },
        }
    }
}

} // verus!
