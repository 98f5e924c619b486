//! What holds of the shapes of matrices, whatever the numbers.

use crate::linalg::{BinaryOp, MatrixView, UnaryOp};
use crate::scalar::Scalar;
use vstd::prelude::*;

verus! {

impl<S: Scalar> MatrixView<S> {
    /// Transposing turns rows into columns: the transposed matrix has the columns of the
    /// matrix for rows.
    pub proof fn lemma_transpose_shape(self)
        requires
            self.wf(),
        ensures
            self.transpose().wf(),
            self.transpose().nrow == self.ncol(),
            self.transpose().ncol() == self.nrow,
            forall|r: int, c: int|
                0 <= r < self.nrow && 0 <= c < self.ncol() ==> #[trigger] self.transpose().at(c, r)
                    == self.at(r, c),
    {
    }

    /// Transposing twice gives the matrix back, where it has a column.
    pub proof fn lemma_transpose_twice(self)
        requires
            self.wf(),
            self.ncol() > 0,
        ensures
            self.transpose().transpose() == self,
    {
        let back = self.transpose().transpose();
        self.lemma_transpose_shape();
        assert(back.columns.len() == self.columns.len());
        assert forall|c: int| 0 <= c < self.columns.len() implies back.columns[c]
            == self.columns[c] by {
            assert(self.columns[c].len() == self.nrow);
            assert(back.columns[c] =~= self.columns[c]);
        }
        assert(back.columns =~= self.columns);
    }

    /// Combining two matrices of one shape entry by entry keeps the shape.
    pub proof fn lemma_zip_shape(self, op: BinaryOp, other: Self)
        requires
            self.wf(),
            other.wf(),
            self.nrow == other.nrow,
            self.ncol() == other.ncol(),
        ensures
            self.zip(op, other).has_shape(self.nrow, self.ncol()),
            forall|r: int, c: int|
                0 <= r < self.nrow && 0 <= c < self.ncol() ==> #[trigger] self.zip(op, other).at(
                    r,
                    c,
                ) == op.apply(self.at(r, c), other.at(r, c)),
    {
        let combined = self.zip(op, other);
        assert forall|c: int| 0 <= c < combined.columns.len() implies (
        #[trigger] combined.columns[c]).len() == self.nrow by {
            assert(self.columns[c].len() == self.nrow);
            assert(self.broadcast(c) == self.columns[c]);
        }
        assert forall|r: int, c: int| 0 <= r < self.nrow && 0 <= c < self.ncol() implies (
        #[trigger] combined.at(r, c)) == op.apply(self.at(r, c), other.at(r, c)) by {
            assert(self.columns[c].len() == self.nrow);
            assert(self.broadcast(c) == self.columns[c]);
            assert(other.broadcast(c) == other.columns[c]);
        }
    }

    /// Applying an operation to each entry keeps the shape.
    pub proof fn lemma_map_shape(self, op: UnaryOp)
        requires
            self.wf(),
        ensures
            self.map(op).has_shape(self.nrow, self.ncol()),
            forall|r: int, c: int|
                0 <= r < self.nrow && 0 <= c < self.ncol() ==> #[trigger] self.map(op).at(r, c)
                    == op.apply(self.at(r, c)),
    {
        let mapped = self.map(op);
        assert forall|c: int| 0 <= c < mapped.columns.len() implies (
        #[trigger] mapped.columns[c]).len() == self.nrow by {
            assert(self.columns[c].len() == self.nrow);
        }
        assert forall|r: int, c: int| 0 <= r < self.nrow && 0 <= c < self.ncol() implies (
        #[trigger] mapped.at(r, c)) == op.apply(self.at(r, c)) by {
            assert(self.columns[c].len() == self.nrow);
        }
    }
}

} // verus!
