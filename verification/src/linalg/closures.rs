//! Matrices changed entry by entry, by functions that the caller gives.

use crate::linalg::{Matrix, MatrixView};
use crate::scalar::Scalar;
use vstd::prelude::*;

verus! {

impl<S: Scalar> Matrix<S> {
    /// The matrix whose entries `f` computes, each from the entry of this matrix in its
    /// place.
    pub fn map<F: Fn(S) -> S>(&self, f: F) -> (out: Self)
        requires
            forall|value: S| call_requires(f, (value,)),
        ensures
            out@.wf(),
            out@.nrow == self@.nrow,
            out@.ncol() == self@.ncol(),
            forall|r: int, c: int|
                0 <= r < self@.nrow && 0 <= c < self@.ncol() ==> call_ensures(
                    f,
                    (self@.at(r, c),),
                    #[trigger] out@.at(r, c),
                ),
    {
        proof {
            use_type_invariant(self);
        }
        let mut columns: Vec<Vec<S>> = Vec::new();
        let mut c: usize = 0;
        while c < self.columns.len()
            invariant
                self.well_formed(),
                forall|value: S| call_requires(f, (value,)),
                c <= self.columns@.len(),
                columns@.len() == c,
                forall|k: int| 0 <= k < c ==> (#[trigger] columns@[k])@.len() == self.nrow,
                forall|r: int, k: int|
                    0 <= r < self.nrow && 0 <= k < c ==> call_ensures(
                        f,
                        (self.columns@[k]@[r],),
                        #[trigger] columns@[k]@[r],
                    ),
            decreases self.columns@.len() - c,
        {
            let column = &self.columns[c];
            let mut made: Vec<S> = Vec::new();
            let mut r: usize = 0;
            while r < column.len()
                invariant
                    forall|value: S| call_requires(f, (value,)),
                    r <= column@.len(),
                    made@.len() == r,
                    forall|k: int|
                        0 <= k < r ==> call_ensures(f, (column@[k],), #[trigger] made@[k]),
                decreases column@.len() - r,
            {
                made.push(f(column[r]));
                r += 1;
            }
            columns.push(made);
            c += 1;
        }
        Matrix::assemble(self.nrow, columns)
    }

    /// Replaces each entry by what `f` computes from its row, its column and the entry.
    pub fn map_indexed_mut<F: Fn(usize, usize, S) -> S>(&mut self, f: F)
        requires
            forall|r: usize, c: usize, value: S| call_requires(f, (r, c, value)),
        ensures
            final(self)@.wf(),
            final(self)@.nrow == old(self)@.nrow,
            final(self)@.ncol() == old(self)@.ncol(),
            forall|r: int, c: int|
                0 <= r < old(self)@.nrow && 0 <= c < old(self)@.ncol() ==> call_ensures(
                    f,
                    (r as usize, c as usize, old(self)@.at(r, c)),
                    #[trigger] final(self)@.at(r, c),
                ),
    {
        proof {
            use_type_invariant(&*self);
        }
        let mut columns: Vec<Vec<S>> = Vec::new();
        let mut c: usize = 0;
        while c < self.columns.len()
            invariant
                self.well_formed(),
                *self == *old(self),
                forall|r: usize, c: usize, value: S| call_requires(f, (r, c, value)),
                c <= self.columns@.len(),
                columns@.len() == c,
                forall|k: int| 0 <= k < c ==> (#[trigger] columns@[k])@.len() == self.nrow,
                forall|r: int, k: int|
                    0 <= r < self.nrow && 0 <= k < c ==> call_ensures(
                        f,
                        (r as usize, k as usize, self.columns@[k]@[r]),
                        #[trigger] columns@[k]@[r],
                    ),
            decreases self.columns@.len() - c,
        {
            let column = &self.columns[c];
            let mut made: Vec<S> = Vec::new();
            let mut r: usize = 0;
            while r < column.len()
                invariant
                    forall|r: usize, c: usize, value: S| call_requires(f, (r, c, value)),
                    r <= column@.len(),
                    made@.len() == r,
                    forall|k: int|
                        0 <= k < r ==> call_ensures(
                            f,
                            (k as usize, c, column@[k]),
                            #[trigger] made@[k],
                        ),
                decreases column@.len() - r,
            {
                made.push(f(r, c, column[r]));
                r += 1;
            }
            columns.push(made);
            c += 1;
        }
        let nrow = self.nrow;
        *self = Matrix::assemble(nrow, columns);
    }

    /// Whether `f` can give the column `given` for the column `taken` in place `c`.
    pub open spec fn column_made<F: Fn(usize, &Vec<S>) -> Vec<S>>(
        f: F,
        c: usize,
        taken: Seq<S>,
        given: Seq<S>,
    ) -> bool {
        exists|column: &Vec<S>, made: Vec<S>|
            column@ == taken && made@ == given && call_ensures(f, (c, column), made)
    }

    /// The matrix whose columns `f` computes, each from its place and from the column of
    /// this matrix in that place. `f` must give columns of the length of those it takes.
    pub fn columns_map<F: Fn(usize, &Vec<S>) -> Vec<S>>(&self, f: F) -> (out: Self)
        requires
            forall|c: usize, column: &Vec<S>| call_requires(f, (c, column)),
            forall|c: usize, column: &Vec<S>, made: Vec<S>|
                call_ensures(f, (c, column), made) ==> made@.len() == column@.len(),
        ensures
            out@.wf(),
            out@.nrow == self@.nrow,
            out@.ncol() == self@.ncol(),
            forall|c: int|
                0 <= c < self@.ncol() ==> Self::column_made(
                    f,
                    c as usize,
                    self@.columns[c],
                    #[trigger] out@.columns[c],
                ),
    {
        proof {
            use_type_invariant(self);
        }
        let mut columns: Vec<Vec<S>> = Vec::new();
        let mut c: usize = 0;
        while c < self.columns.len()
            invariant
                self.well_formed(),
                forall|c: usize, column: &Vec<S>| call_requires(f, (c, column)),
                forall|c: usize, column: &Vec<S>, made: Vec<S>|
                    call_ensures(f, (c, column), made) ==> made@.len() == column@.len(),
                c <= self.columns@.len(),
                columns@.len() == c,
                forall|k: int| 0 <= k < c ==> (#[trigger] columns@[k])@.len() == self.nrow,
                forall|k: int|
                    0 <= k < c ==> Self::column_made(
                        f,
                        k as usize,
                        self.columns@[k]@,
                        (#[trigger] columns@[k])@,
                    ),
            decreases self.columns@.len() - c,
        {
            let column = &self.columns[c];
            let made = f(c, column);
            proof {
                assert(Self::column_made(f, c, column@, made@));
            }
            columns.push(made);
            c += 1;
        }
        let out = Matrix::assemble(self.nrow, columns);
        proof {
            assert forall|c: int| 0 <= c < self@.ncol() implies Self::column_made(
                f,
                c as usize,
                self@.columns[c],
                #[trigger] out@.columns[c],
            ) by {
                assert(Self::column_made(f, c as usize, self.columns@[c]@, columns@[c]@));
            }
        }
        out
    }

    /// Replaces the entry in row `row` of column `col` by `value`. The matrix must have
    /// the entry.
    pub fn set(&mut self, row: usize, col: usize, value: S) -> (out: Result<(), crate::error::Error>)
        ensures
            final(self)@.wf(),
            out is Ok <==> row < old(self)@.nrow && col < old(self)@.ncol(),
            out is Ok ==> final(self)@ == (MatrixView {
                nrow: old(self)@.nrow,
                columns: old(self)@.columns.update(
                    col as int,
                    old(self)@.columns[col as int].update(row as int, value),
                ),
            }),
            out matches Err(error) ==> error == crate::error::Error::ShapeMismatch && final(self)@
                == old(self)@,
    {
        proof {
            use_type_invariant(&*self);
        }
        if row < self.nrow && col < self.columns.len() {
            let shape = self.dim();
            let mut columns = self.get_data_col_leading();
            let ghost taken = columns@;
            proof {
                assert(MatrixView::<S>::nested(taken).len() == taken.len());
                assert forall|c: int| 0 <= c < taken.len() implies (#[trigger] taken[c])@.len()
                    == shape.0 by {
                    assert(MatrixView::<S>::nested(taken)[c] == taken[c]@);
                    assert(old(self)@.columns[c].len() == old(self)@.nrow);
                }
            }
            let mut column = crate::linalg::copied(&columns[col]);
            column[row] = value;
            columns[col] = column;
            let nrow = self.nrow;
            proof {
                assert forall|c: int| 0 <= c < columns@.len() implies (#[trigger] columns@[c])@.len()
                    == nrow by {
                    if c != col {
                        assert(columns@[c] == taken[c]);
                    }
                }
            }
            *self = Matrix::assemble(nrow, columns);
            assert forall|c: int| 0 <= c < taken.len() implies MatrixView::<S>::nested(taken)[c]
                == taken[c]@ by {}
            assert(self@.columns =~= old(self)@.columns.update(
                col as int,
                old(self)@.columns[col as int].update(row as int, value),
            ));
            Ok(())
        } else {
            Err(crate::error::Error::ShapeMismatch)
        }
    }
}

} // verus!
