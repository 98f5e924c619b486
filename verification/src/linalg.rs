//! Matrices: rank-2 tensors with one row for each feature and one column for each sample.

use crate::error::Error;
use crate::scalar::Scalar;
use vstd::prelude::*;

pub mod closures;
pub mod shapes;

verus! {

/// An operation on two numbers.
#[derive(Debug, Clone, Copy, PartialEq, Eq, Structural)]
pub enum BinaryOp {
    Add,
    Sub,
    Mul,
    Div,
    /// The larger of the two: the second where the first is below it, else the first.
    Max,
    /// The smaller of the two: the second where it is below the first, else the first.
    Min,
}

impl BinaryOp {
    /// The value of the operation on `a` and `b`.
    pub open spec fn apply<S: Scalar>(self, a: S, b: S) -> S {
        match self {
            BinaryOp::Add => a.add_spec(b),
            BinaryOp::Sub => a.sub_spec(b),
            BinaryOp::Mul => a.mul_spec(b),
            BinaryOp::Div => a.div_spec(b),
            BinaryOp::Max => if a.lt_spec(b) {
                b
            } else {
                a
            },
            BinaryOp::Min => if b.lt_spec(a) {
                b
            } else {
                a
            },
        }
    }

    /// Computes the operation on `a` and `b`.
    pub fn eval<S: Scalar>(self, a: S, b: S) -> (value: S)
        ensures
            value == self.apply(a, b),
    {
        match self {
            BinaryOp::Add => a.add(b),
            BinaryOp::Sub => a.sub(b),
            BinaryOp::Mul => a.mul(b),
            BinaryOp::Div => a.div(b),
            BinaryOp::Max => if a.lt(b) {
                b
            } else {
                a
            },
            BinaryOp::Min => if b.lt(a) {
                b
            } else {
                a
            },
        }
    }

    /// The operation applied entry by entry to two lists of one length.
    pub open spec fn zip<S: Scalar>(self, a: Seq<S>, b: Seq<S>) -> Seq<S> {
        Seq::new(a.len(), |r: int| self.apply(a[r], b[r]))
    }

    /// The operation applied to each entry of a list and one number.
    pub open spec fn with_scalar<S: Scalar>(self, a: Seq<S>, b: S) -> Seq<S> {
        Seq::new(a.len(), |r: int| self.apply(a[r], b))
    }

    /// The entries of a list combined first to last: the first entry, then each further
    /// entry combined with what has been reached.
    pub open spec fn fold<S: Scalar>(self, a: Seq<S>) -> S
        decreases a.len(),
    {
        if a.len() <= 1 {
            a[0]
        } else {
            self.apply(self.fold(a.drop_last()), a.last())
        }
    }

    /// Combines the entries of a list that is not empty, first to last.
    pub fn fold_column<S: Scalar>(self, a: &Vec<S>) -> (value: S)
        requires
            a@.len() > 0,
        ensures
            value == self.fold(a@),
    {
        let mut value = a[0];
        let mut r: usize = 1;
        assert(a@.take(1).len() == 1);
        while r < a.len()
            invariant
                1 <= r <= a@.len(),
                value == self.fold(a@.take(r as int)),
            decreases a@.len() - r,
        {
            assert(a@.take(r + 1).drop_last() =~= a@.take(r as int));
            value = self.eval(value, a[r]);
            r += 1;
        }
        assert(a@.take(r as int) =~= a@);
        value
    }

    /// Applies the operation entry by entry.
    pub fn zip_columns<S: Scalar>(self, a: &Vec<S>, b: &Vec<S>) -> (out: Vec<S>)
        requires
            a@.len() == b@.len(),
        ensures
            out@ == self.zip(a@, b@),
    {
        let mut out: Vec<S> = Vec::new();
        let mut r: usize = 0;
        while r < a.len()
            invariant
                a@.len() == b@.len(),
                r <= a@.len(),
                out@.len() == r,
                forall|k: int| 0 <= k < r ==> out@[k] == self.apply(a@[k], b@[k]),
            decreases a@.len() - r,
        {
            out.push(self.eval(a[r], b[r]));
            r += 1;
        }
        assert(out@ =~= self.zip(a@, b@));
        out
    }

    /// Applies the operation to each entry and `b`.
    pub fn column_with_scalar<S: Scalar>(self, a: &Vec<S>, b: S) -> (out: Vec<S>)
        ensures
            out@ == self.with_scalar(a@, b),
    {
        let mut out: Vec<S> = Vec::new();
        let mut r: usize = 0;
        while r < a.len()
            invariant
                r <= a@.len(),
                out@.len() == r,
                forall|k: int| 0 <= k < r ==> out@[k] == self.apply(a@[k], b),
            decreases a@.len() - r,
        {
            out.push(self.eval(a[r], b));
            r += 1;
        }
        assert(out@ =~= self.with_scalar(a@, b));
        out
    }
}

/// An operation on one number.
#[derive(Debug, Clone, Copy, PartialEq, Eq, Structural)]
pub enum UnaryOp {
    /// The number itself.
    Identity,
    /// The number times itself.
    Square,
    Sqrt,
    Exp,
    /// One, whatever the number.
    One,
    /// The number where it is above zero, else zero.
    Relu,
    /// The slope of `Relu`: one where the number is above zero, else zero.
    ReluSlope,
    /// The logistic function, `1 / (1 + exp(0 - x))`.
    Sigmoid,
    /// The slope of `Sigmoid`, `s * (1 - s)` for `s` the logistic function of the number.
    SigmoidSlope,
    /// The hyperbolic tangent, `(exp(x) - exp(0 - x)) / (exp(x) + exp(0 - x))`.
    Tanh,
    /// The slope of `Tanh`, `1 - t * t` for `t` the hyperbolic tangent of the number.
    TanhSlope,
    /// The sign of the number: minus one where it is below zero, else one.
    Sign,
}

impl UnaryOp {
    /// The value of the operation on `a`.
    pub open spec fn apply<S: Scalar>(self, a: S) -> S {
        match self {
            UnaryOp::Identity => a,
            UnaryOp::Square => a.mul_spec(a),
            UnaryOp::Sqrt => a.sqrt_spec(),
            UnaryOp::Exp => a.exp_spec(),
            UnaryOp::One => S::one_spec(),
            UnaryOp::Relu => if S::zero_spec().lt_spec(a) {
                a
            } else {
                S::zero_spec()
            },
            UnaryOp::ReluSlope => if S::zero_spec().lt_spec(a) {
                S::one_spec()
            } else {
                S::zero_spec()
            },
            UnaryOp::Sigmoid => Self::sigmoid(a),
            UnaryOp::SigmoidSlope => Self::sigmoid(a).mul_spec(
                S::one_spec().sub_spec(Self::sigmoid(a)),
            ),
            UnaryOp::Tanh => Self::tanh(a),
            UnaryOp::TanhSlope => S::one_spec().sub_spec(Self::tanh(a).mul_spec(Self::tanh(a))),
            UnaryOp::Sign => if a.lt_spec(S::zero_spec()) {
                S::zero_spec().sub_spec(S::one_spec())
            } else {
                S::one_spec()
            },
        }
    }

    /// The logistic function of `a`.
    pub open spec fn sigmoid<S: Scalar>(a: S) -> S {
        S::one_spec().div_spec(S::one_spec().add_spec(S::zero_spec().sub_spec(a).exp_spec()))
    }

    /// The hyperbolic tangent of `a`.
    pub open spec fn tanh<S: Scalar>(a: S) -> S {
        let up = a.exp_spec();
        let down = S::zero_spec().sub_spec(a).exp_spec();
        up.sub_spec(down).div_spec(up.add_spec(down))
    }

    /// Computes the logistic function of `a`.
    fn eval_sigmoid<S: Scalar>(a: S) -> (value: S)
        ensures
            value == Self::sigmoid(a),
    {
        S::one().div(S::one().add(S::zero().sub(a).exp()))
    }

    /// Computes the hyperbolic tangent of `a`.
    fn eval_tanh<S: Scalar>(a: S) -> (value: S)
        ensures
            value == Self::tanh(a),
    {
        let up = a.exp();
        let down = S::zero().sub(a).exp();
        up.sub(down).div(up.add(down))
    }

    /// Computes the operation on `a`.
    pub fn eval<S: Scalar>(self, a: S) -> (value: S)
        ensures
            value == self.apply(a),
    {
        match self {
            UnaryOp::Identity => a,
            UnaryOp::Square => a.mul(a),
            UnaryOp::Sqrt => a.sqrt(),
            UnaryOp::Exp => a.exp(),
            UnaryOp::One => S::one(),
            UnaryOp::Relu => if S::zero().lt(a) {
                a
            } else {
                S::zero()
            },
            UnaryOp::ReluSlope => if S::zero().lt(a) {
                S::one()
            } else {
                S::zero()
            },
            UnaryOp::Sigmoid => Self::eval_sigmoid(a),
            UnaryOp::SigmoidSlope => {
                let s = Self::eval_sigmoid(a);
                s.mul(S::one().sub(s))
            },
            UnaryOp::Tanh => Self::eval_tanh(a),
            UnaryOp::TanhSlope => {
                let t = Self::eval_tanh(a);
                S::one().sub(t.mul(t))
            },
            UnaryOp::Sign => if a.lt(S::zero()) {
                S::zero().sub(S::one())
            } else {
                S::one()
            },
        }
    }

    /// The operation applied to each entry of a list.
    pub open spec fn map<S: Scalar>(self, a: Seq<S>) -> Seq<S> {
        Seq::new(a.len(), |r: int| self.apply(a[r]))
    }

    /// Applies the operation to each entry.
    pub fn map_column<S: Scalar>(self, a: &Vec<S>) -> (out: Vec<S>)
        ensures
            out@ == self.map(a@),
    {
        let mut out: Vec<S> = Vec::new();
        let mut r: usize = 0;
        while r < a.len()
            invariant
                r <= a@.len(),
                out@.len() == r,
                forall|k: int| 0 <= k < r ==> out@[k] == self.apply(a@[k]),
            decreases a@.len() - r,
        {
            out.push(self.eval(a[r]));
            r += 1;
        }
        assert(out@ =~= self.map(a@));
        out
    }
}

/// A list of `len` copies of `value`.
pub fn filled<S: Scalar>(len: usize, value: S) -> (out: Vec<S>)
    ensures
        out@ == Seq::new(len as nat, |r: int| value),
{
    let mut out: Vec<S> = Vec::new();
    let mut r: usize = 0;
    while r < len
        invariant
            r <= len,
            out@.len() == r,
            forall|k: int| 0 <= k < r ==> out@[k] == value,
        decreases len - r,
    {
        out.push(value);
        r += 1;
    }
    assert(out@ =~= Seq::new(len as nat, |r: int| value));
    out
}

/// A copy of a list of numbers.
pub fn copied<S: Scalar>(values: &Vec<S>) -> (out: Vec<S>)
    ensures
        out@ == values@,
{
    let mut out: Vec<S> = Vec::new();
    let mut r: usize = 0;
    while r < values.len()
        invariant
            r <= values@.len(),
            out@ == values@.take(r as int),
        decreases values@.len() - r,
    {
        out.push(values[r]);
        assert(out@ =~= values@.take(r + 1));
        r += 1;
    }
    assert(values@.take(r as int) =~= values@);
    out
}

/// Mathematical model of a matrix: its columns in order, each a list of `nrow` entries.
pub struct MatrixView<S> {
    pub nrow: nat,
    pub columns: Seq<Seq<S>>,
}

impl<S: Scalar> MatrixView<S> {
    /// The number of columns.
    pub open spec fn ncol(self) -> nat {
        self.columns.len()
    }

    /// Every column has `nrow` entries.
    pub open spec fn wf(self) -> bool {
        forall|c: int| 0 <= c < self.columns.len() ==> (#[trigger] self.columns[c]).len() == self.nrow
    }

    /// The entry in row `r` of column `c`.
    pub open spec fn at(self, r: int, c: int) -> S {
        self.columns[c][r]
    }

    /// Row `r`: what each column holds there, in column order.
    pub open spec fn row(self, r: int) -> Seq<S> {
        Seq::new(self.ncol(), |c: int| self.columns[c][r])
    }

    /// The matrix of `nrow` rows and `ncol` columns that holds `value` everywhere.
    pub open spec fn constant(nrow: nat, ncol: nat, value: S) -> Self {
        MatrixView { nrow, columns: Seq::new(ncol, |c: int| Seq::new(nrow, |r: int| value)) }
    }

    /// The square matrix that holds one on its diagonal and zero elsewhere.
    pub open spec fn identity(n: nat) -> Self {
        MatrixView {
            nrow: n,
            columns: Seq::new(
                n,
                |c: int|
                    Seq::new(
                        n,
                        |r: int|
                            if r == c {
                                S::one_spec()
                            } else {
                                S::zero_spec()
                            },
                    ),
            ),
        }
    }

    /// The matrix whose rows are the columns of this one.
    pub open spec fn transpose(self) -> Self {
        MatrixView { nrow: self.ncol(), columns: Seq::new(self.nrow, |r: int| self.row(r)) }
    }

    /// Whether the two can be combined entry by entry: they have the same rows, and the
    /// same columns unless one of them has a single column, which then stands for all.
    pub open spec fn fits(self, other: Self) -> bool {
        &&& self.nrow == other.nrow
        &&& (self.ncol() == other.ncol() || self.ncol() == 1 || other.ncol() == 1)
    }

    /// The column of this matrix that is combined with column `c` of the other operand.
    pub open spec fn broadcast(self, c: int) -> Seq<S> {
        if self.ncol() == 1 {
            self.columns[0]
        } else {
            self.columns[c]
        }
    }

    /// The two matrices combined entry by entry; a single column is combined with each
    /// column of the other matrix.
    pub open spec fn zip(self, op: BinaryOp, other: Self) -> Self {
        MatrixView {
            nrow: self.nrow,
            columns: Seq::new(
                if self.ncol() == 1 {
                    other.ncol()
                } else {
                    self.ncol()
                },
                |c: int| op.zip(self.broadcast(c), other.broadcast(c)),
            ),
        }
    }

    /// Each entry combined with `value`.
    pub open spec fn with_scalar(self, op: BinaryOp, value: S) -> Self {
        MatrixView {
            nrow: self.nrow,
            columns: Seq::new(self.ncol(), |c: int| op.with_scalar(self.columns[c], value)),
        }
    }

    /// The operation applied to each entry.
    pub open spec fn map(self, op: UnaryOp) -> Self {
        MatrixView {
            nrow: self.nrow,
            columns: Seq::new(self.ncol(), |c: int| op.map(self.columns[c])),
        }
    }

    /// The products of the entries of row `r` with the entries of `v`, in column order.
    pub open spec fn row_products(self, r: int, v: Seq<S>) -> Seq<S> {
        Seq::new(self.ncol(), |k: int| self.columns[k][r].mul_spec(v[k]))
    }

    /// The matrix times the vector `v`: for each row, the sum of its products with `v`.
    pub open spec fn times_vector(self, v: Seq<S>) -> Seq<S> {
        Seq::new(self.nrow, |r: int| crate::scalar::sum_spec(self.row_products(r, v)))
    }

    /// The matrix product.
    pub open spec fn dot(self, other: Self) -> Self {
        MatrixView {
            nrow: self.nrow,
            columns: Seq::new(other.ncol(), |c: int| self.times_vector(other.columns[c])),
        }
    }

    /// The single column that holds, for each row, the sum of the row.
    pub open spec fn columns_sum(self) -> Self {
        MatrixView {
            nrow: self.nrow,
            columns: seq![Seq::new(self.nrow, |r: int| crate::scalar::sum_spec(self.row(r)))],
        }
    }

    /// The sum of each column, in column order.
    pub open spec fn column_totals(self) -> Seq<S> {
        Seq::new(self.ncol(), |c: int| crate::scalar::sum_spec(self.columns[c]))
    }

    /// The sum of all entries: the sum of the columns' sums.
    pub open spec fn total(self) -> S {
        crate::scalar::sum_spec(self.column_totals())
    }

    /// The lists of numbers that a list of vectors holds.
    pub open spec fn nested(vectors: Seq<Vec<S>>) -> Seq<Seq<S>> {
        vectors.map_values(|vector: Vec<S>| vector@)
    }

    /// Whether the lists all have the length of the first one.
    pub open spec fn rectangular(lists: Seq<Seq<S>>) -> bool {
        forall|c: int| 0 <= c < lists.len() ==> (#[trigger] lists[c]).len() == lists[0].len()
    }

    /// The columns of a list of matrices, matrix after matrix.
    pub open spec fn joined(matrices: Seq<Self>) -> Seq<Seq<S>>
        decreases matrices.len(),
    {
        if matrices.len() == 0 {
            Seq::empty()
        } else {
            Self::joined(matrices.drop_last()) + matrices.last().columns
        }
    }

    /// The matrix whose columns are the given lists.
    pub open spec fn from_columns(lists: Seq<Seq<S>>) -> Self {
        MatrixView {
            nrow: if lists.len() == 0 {
                0
            } else {
                lists[0].len()
            },
            columns: lists,
        }
    }

    /// For each column, its entries combined first to last by `op`.
    pub open spec fn column_folds(self, op: BinaryOp) -> Seq<S> {
        Seq::new(self.ncol(), |c: int| op.fold(self.columns[c]))
    }

    /// All entries combined by `op`: each column first to last, then the columns' results
    /// first to last.
    pub open spec fn fold(self, op: BinaryOp) -> S {
        op.fold(self.column_folds(op))
    }

    /// The matrix of one column that is column `c` of this one.
    pub open spec fn column_matrix(self, c: int) -> Self {
        MatrixView { nrow: self.nrow, columns: seq![self.columns[c]] }
    }

    /// The matrix of `nrow` rows and `ncol` columns whose entries are given by `entry`, from
    /// row and column.
    pub open spec fn tabulate(nrow: nat, ncol: nat, entry: spec_fn(int, int) -> S) -> Self {
        MatrixView {
            nrow,
            columns: Seq::new(ncol, |c: int| Seq::new(nrow, |r: int| entry(r, c))),
        }
    }

    /// What the planes of a list hold in row `r` of column `c`, in the order of the list.
    pub open spec fn stacked(planes: Seq<Self>, r: int, c: int) -> Seq<S> {
        Seq::new(planes.len(), |k: int| planes[k].columns[c][r])
    }

    /// The sum, entry by entry, of a list of matrices of `nrow` rows and `ncol` columns.
    pub open spec fn sum_of(nrow: nat, ncol: nat, planes: Seq<Self>) -> Self {
        Self::tabulate(
            nrow,
            ncol,
            |r: int, c: int| crate::scalar::sum_spec(Self::stacked(planes, r, c)),
        )
    }

    /// Whether the matrix has `nrow` rows and `ncol` columns.
    pub open spec fn has_shape(self, nrow: nat, ncol: nat) -> bool {
        self.wf() && self.nrow == nrow && self.ncol() == ncol
    }

    /// The entry in row `r` of column `c`, or zero where the matrix has no such entry.
    pub open spec fn padded(self, r: int, c: int) -> S {
        if 0 <= r < self.nrow && 0 <= c < self.ncol() {
            self.columns[c][r]
        } else {
            S::zero_spec()
        }
    }

    /// The products of the entries of column `j` of `kernel` with the entries of this
    /// matrix that lie under them when the kernel's first entry lies on row `r` of column
    /// `c`, top to bottom. Where the kernel juts out of the matrix, zero stands for the
    /// product.
    pub open spec fn correlation_column(self, kernel: Self, r: int, c: int, j: int) -> Seq<S> {
        Seq::new(
            kernel.nrow,
            |i: int|
                if 0 <= r + i < self.nrow && 0 <= c + j < self.ncol() {
                    self.columns[c + j][r + i].mul_spec(kernel.columns[j][i])
                } else {
                    S::zero_spec()
                },
        )
    }

    /// The sliding dot product of `kernel` with this matrix where the kernel's first entry
    /// lies on row `r` of column `c`: the sum, over the kernel's columns left to right, of
    /// the sum of the products of each column.
    pub open spec fn correlation_at(self, kernel: Self, r: int, c: int) -> S {
        crate::scalar::sum_spec(
            Seq::new(
                kernel.ncol(),
                |j: int| crate::scalar::sum_spec(self.correlation_column(kernel, r, c, j)),
            ),
        )
    }

    /// Whether `kernel` has an entry and fits into this matrix.
    pub open spec fn holds(self, kernel: Self) -> bool {
        1 <= kernel.nrow <= self.nrow && 1 <= kernel.ncol() <= self.ncol()
    }

    /// Whether `kernel` has an entry and the full convolution with it has a number of rows
    /// and of columns that the machine can count.
    pub open spec fn spreads(self, kernel: Self) -> bool {
        &&& 1 <= kernel.nrow
        &&& 1 <= kernel.ncol()
        &&& self.nrow + kernel.nrow - 1 <= usize::MAX
        &&& self.ncol() + kernel.ncol() - 1 <= usize::MAX
    }

    /// The cross-correlation of this matrix with a kernel that fits into it: the sliding
    /// dot product at each place where the kernel lies within the matrix. The kernel is not
    /// flipped.
    pub open spec fn cross_correlate(self, kernel: Self) -> Self {
        Self::tabulate(
            (self.nrow - kernel.nrow + 1) as nat,
            (self.ncol() - kernel.ncol() + 1) as nat,
            |r: int, c: int| self.correlation_at(kernel, r, c),
        )
    }

    /// The kernel turned by half a turn: its rows and its columns in reverse order.
    pub open spec fn flipped(self) -> Self {
        Self::tabulate(
            self.nrow,
            self.ncol(),
            |r: int, c: int| self.columns[self.ncol() - 1 - c][self.nrow - 1 - r],
        )
    }

    /// The full convolution of this matrix with `kernel`: the sliding dot product of the
    /// flipped kernel at each place where it touches the matrix, zero standing for what
    /// lies outside.
    pub open spec fn convolve_full(self, kernel: Self) -> Self {
        Self::tabulate(
            (self.nrow + kernel.nrow - 1) as nat,
            (self.ncol() + kernel.ncol() - 1) as nat,
            |r: int, c: int|
                self.correlation_at(
                    kernel.flipped(),
                    r - (kernel.nrow - 1),
                    c - (kernel.ncol() - 1),
                ),
        )
    }

    /// The number of entries, as a number: rows times columns.
    pub open spec fn count(self) -> S {
        S::from_count_spec(self.nrow as usize).mul_spec(S::from_count_spec(self.ncol() as usize))
    }

    /// The mean of all entries.
    pub open spec fn mean(self) -> S {
        self.total().div_spec(self.count())
    }
}

/// A matrix of numbers, stored column by column.
#[derive(Debug)]
pub struct Matrix<S: Scalar> {
    nrow: usize,
    columns: Vec<Vec<S>>,
}

impl<S: Scalar> View for Matrix<S> {
    type V = MatrixView<S>;

    closed spec fn view(&self) -> MatrixView<S> {
        MatrixView {
            nrow: self.nrow as nat,
            columns: self.columns@.map_values(|column: Vec<S>| column@),
        }
    }
}

impl<S: Scalar> Clone for Matrix<S> {
    fn clone(&self) -> (out: Self)
        ensures
            out@ == self@,
            out@.wf(),
    {
        proof {
            use_type_invariant(self);
        }
        let mut columns: Vec<Vec<S>> = Vec::new();
        let mut c: usize = 0;
        while c < self.columns.len()
            invariant
                c <= self.columns@.len(),
                self.well_formed(),
                columns@.len() == c,
                forall|k: int| 0 <= k < c ==> (#[trigger] columns@[k])@ == self.columns@[k]@,
            decreases self.columns@.len() - c,
        {
            columns.push(copied(&self.columns[c]));
            c += 1;
        }
        let out = Matrix::assemble(self.nrow, columns);
        assert(out@.columns =~= self@.columns);
        out
    }
}

impl<S: Scalar> Matrix<S> {
    #[verifier::type_invariant]
    spec fn well_formed(&self) -> bool {
        forall|c: int|
            0 <= c < self.columns@.len() ==> (#[trigger] self.columns@[c])@.len() == self.nrow
    }

    /// The dimensions of the matrix: rows, then columns. Each column of a matrix has as
    /// many entries as the matrix has rows.
    pub fn dim(&self) -> (dims: (usize, usize))
        ensures
            dims.0 == self@.nrow,
            dims.1 == self@.ncol(),
            self@.wf(),
    {
        proof {
            use_type_invariant(self);
        }
        (self.nrow, self.columns.len())
    }

    /// The matrix with the given columns, each of `nrow` entries.
    fn assemble(nrow: usize, columns: Vec<Vec<S>>) -> (out: Self)
        requires
            forall|c: int| 0 <= c < columns@.len() ==> (#[trigger] columns@[c])@.len() == nrow,
        ensures
            out@.wf(),
            out@ == (MatrixView { nrow: nrow as nat, columns: MatrixView::<S>::nested(columns@) }),
    {
        Matrix { nrow, columns }
    }

    /// The matrix of `nrow` rows and `ncol` columns that holds `value` everywhere.
    pub fn constant(nrow: usize, ncol: usize, value: S) -> (out: Self)
        ensures
            out@.wf(),
            out@ == MatrixView::constant(nrow as nat, ncol as nat, value),
    {
        let mut columns: Vec<Vec<S>> = Vec::new();
        let mut c: usize = 0;
        while c < ncol
            invariant
                c <= ncol,
                columns@.len() == c,
                forall|k: int|
                    0 <= k < c ==> (#[trigger] columns@[k])@ == Seq::new(
                        nrow as nat,
                        |r: int| value,
                    ),
            decreases ncol - c,
        {
            columns.push(filled(nrow, value));
            c += 1;
        }
        let out = Matrix::assemble(nrow, columns);
        assert(out@.columns =~= MatrixView::constant(nrow as nat, ncol as nat, value).columns);
        out
    }

    /// The matrix of `nrow` rows and `ncol` columns that holds zero everywhere.
    pub fn zeros(nrow: usize, ncol: usize) -> (out: Self)
        ensures
            out@.wf(),
            out@ == MatrixView::constant(nrow as nat, ncol as nat, S::zero_spec()),
    {
        Matrix::constant(nrow, ncol, S::zero())
    }

    /// The square matrix of `n` rows that holds one on its diagonal and zero elsewhere.
    pub fn identity(n: usize) -> (out: Self)
        ensures
            out@.wf(),
            out@ == MatrixView::<S>::identity(n as nat),
    {
        let mut columns: Vec<Vec<S>> = Vec::new();
        let mut c: usize = 0;
        while c < n
            invariant
                c <= n,
                columns@.len() == c,
                forall|k: int|
                    0 <= k < c ==> (#[trigger] columns@[k])@ == MatrixView::<S>::identity(
                        n as nat,
                    ).columns[k],
            decreases n - c,
        {
            let mut column = filled(n, S::zero());
            column.set(c, S::one());
            assert(column@ =~= MatrixView::<S>::identity(n as nat).columns[c as int]);
            columns.push(column);
            c += 1;
        }
        let out = Matrix::assemble(n, columns);
        assert(out@.columns =~= MatrixView::<S>::identity(n as nat).columns);
        out
    }

    /// The matrix whose columns are the given vectors. They must all have one length.
    pub fn from_column_leading_vector2(m: &Vec<Vec<S>>) -> (out: Result<Self, Error>)
        ensures
            out matches Ok(matrix) ==> matrix@.wf(),
            out is Ok <==> MatrixView::<S>::rectangular(MatrixView::<S>::nested(m@)),
            out matches Ok(matrix) ==> matrix@ == MatrixView::from_columns(
                MatrixView::<S>::nested(m@),
            ),
            out matches Err(error) ==> error == Error::ShapeMismatch,
    {
        let nrow: usize = if m.len() == 0 {
            0
        } else {
            m[0].len()
        };
        let ghost lists = MatrixView::<S>::nested(m@);
        let mut columns: Vec<Vec<S>> = Vec::new();
        let mut c: usize = 0;
        while c < m.len()
            invariant
                c <= m@.len(),
                lists == MatrixView::<S>::nested(m@),
                m@.len() > 0 ==> nrow == m@[0]@.len(),
                columns@.len() == c,
                forall|k: int| 0 <= k < c ==> (#[trigger] columns@[k])@ == m@[k]@,
                forall|k: int| 0 <= k < c ==> (#[trigger] m@[k])@.len() == nrow,
            decreases m@.len() - c,
        {
            if m[c].len() != nrow {
                assert(lists[c as int].len() != lists[0].len());
                return Err(Error::ShapeMismatch);
            }
            columns.push(copied(&m[c]));
            c += 1;
        }
        let out = Matrix::assemble(nrow, columns);
        assert(out@.columns =~= lists);
        assert forall|k: int| 0 <= k < lists.len() implies (#[trigger] lists[k]).len()
            == lists[0].len() by {
            assert(lists[k] == m@[k]@);
            assert(lists[0] == m@[0]@);
        }
        Ok(out)
    }

    /// The matrix of `nrow` rows whose columns are the first `ncol` of the given vectors, if
    /// there are that many and each of them has `nrow` entries.
    pub fn from_leading_columns(nrow: usize, m: &Vec<Vec<S>>, ncol: usize) -> (out: Option<Self>)
        ensures
            out matches Some(matrix) ==> matrix@.wf(),
            out is Some <==> ncol <= m@.len() && forall|k: int|
                0 <= k < ncol ==> (#[trigger] m@[k])@.len() == nrow,
            out matches Some(matrix) ==> matrix@ == (MatrixView {
                nrow: nrow as nat,
                columns: MatrixView::<S>::nested(m@).take(ncol as int),
            }),
    {
        if ncol > m.len() {
            return None;
        }
        let mut columns: Vec<Vec<S>> = Vec::new();
        let mut c: usize = 0;
        while c < ncol
            invariant
                c <= ncol <= m@.len(),
                columns@.len() == c,
                forall|k: int| 0 <= k < c ==> (#[trigger] columns@[k])@ == m@[k]@,
                forall|k: int| 0 <= k < c ==> (#[trigger] m@[k])@.len() == nrow,
            decreases ncol - c,
        {
            if m[c].len() != nrow {
                return None;
            }
            columns.push(copied(&m[c]));
            c += 1;
        }
        let out = Matrix::assemble(nrow, columns);
        assert(out@.columns =~= MatrixView::<S>::nested(m@).take(ncol as int));
        Some(out)
    }

    /// The matrix whose columns are the vectors from place `start` up to place `end` of `m`.
    /// They must all have one length.
    pub fn from_column_range(m: &Vec<Vec<S>>, start: usize, end: usize) -> (out: Result<
        Self,
        Error,
    >)
        requires
            start <= end <= m@.len(),
        ensures
            out matches Ok(matrix) ==> matrix@.wf(),
            out is Ok <==> MatrixView::<S>::rectangular(
                MatrixView::<S>::nested(m@).subrange(start as int, end as int),
            ),
            out matches Ok(matrix) ==> matrix@ == MatrixView::from_columns(
                MatrixView::<S>::nested(m@).subrange(start as int, end as int),
            ),
            out matches Err(error) ==> error == Error::ShapeMismatch,
    {
        let nrow: usize = if start == end {
            0
        } else {
            m[start].len()
        };
        let ghost lists = MatrixView::<S>::nested(m@).subrange(start as int, end as int);
        let mut columns: Vec<Vec<S>> = Vec::new();
        let mut c: usize = start;
        while c < end
            invariant
                start <= c <= end <= m@.len(),
                lists == MatrixView::<S>::nested(m@).subrange(start as int, end as int),
                start < end ==> nrow == m@[start as int]@.len(),
                columns@.len() == c - start,
                forall|k: int| 0 <= k < c - start ==> (#[trigger] columns@[k])@ == m@[start + k]@,
                forall|k: int| start <= k < c ==> (#[trigger] m@[k])@.len() == nrow,
            decreases end - c,
        {
            if m[c].len() != nrow {
                assert(lists[c - start] == m@[c as int]@);
                assert(lists[0] == m@[start as int]@);
                return Err(Error::ShapeMismatch);
            }
            columns.push(copied(&m[c]));
            c += 1;
        }
        assert forall|k: int| 0 <= k < columns@.len() implies (#[trigger] columns@[k])@.len()
            == nrow by {
            assert(m@[start + k]@.len() == nrow);
        }
        let out = Matrix::assemble(nrow, columns);
        assert(out@.columns =~= lists);
        assert forall|k: int| 0 <= k < lists.len() implies (#[trigger] lists[k]).len()
            == lists[0].len() by {
            assert(lists[k] == m@[start + k]@);
            assert(lists[0] == m@[start as int]@);
            assert(m@[start + k]@.len() == nrow);
        }
        Ok(out)
    }

    /// The matrix whose rows are the given vectors. They must all have one length.
    pub fn from_row_leading_vector2(m: &Vec<Vec<S>>) -> (out: Result<Self, Error>)
        ensures
            out matches Ok(matrix) ==> matrix@.wf(),
            out is Ok <==> MatrixView::<S>::rectangular(MatrixView::<S>::nested(m@)),
            out matches Ok(matrix) ==> matrix@ == MatrixView::from_columns(
                MatrixView::<S>::nested(m@),
            ).transpose(),
            out matches Err(error) ==> error == Error::ShapeMismatch,
    {
        match Matrix::from_column_leading_vector2(m) {
            Ok(matrix) => Ok(matrix.transpose()),
            Err(error) => Err(error),
        }
    }

    /// The matrix whose columns are the given lists, which must be of one length.
    pub fn from_column_leading_matrix(m: &Vec<Vec<S>>) -> (out: Result<Self, Error>)
        ensures
            out matches Ok(matrix) ==> matrix@.wf(),
            out is Ok <==> MatrixView::<S>::rectangular(MatrixView::<S>::nested(m@)),
            out matches Ok(matrix) ==> matrix@ == MatrixView::from_columns(
                MatrixView::<S>::nested(m@),
            ),
            out matches Err(error) ==> error == Error::ShapeMismatch,
    {
        Matrix::from_column_leading_vector2(m)
    }

    /// The matrix whose rows are the given lists, which must be of one length.
    pub fn from_row_leading_matrix(m: &Vec<Vec<S>>) -> (out: Result<Self, Error>)
        ensures
            out matches Ok(matrix) ==> matrix@.wf(),
            out is Ok <==> MatrixView::<S>::rectangular(MatrixView::<S>::nested(m@)),
            out matches Ok(matrix) ==> matrix@ == MatrixView::from_columns(
                MatrixView::<S>::nested(m@),
            ).transpose(),
            out matches Err(error) ==> error == Error::ShapeMismatch,
    {
        Matrix::from_row_leading_vector2(m)
    }

    /// The matrix of `nrow` rows and `ncol` columns that holds the entries of `data`,
    /// column after column. There must be as many entries as the matrix has.
    pub fn from_iter(nrow: usize, ncol: usize, data: &Vec<S>) -> (out: Result<Self, Error>)
        ensures
            out matches Ok(matrix) ==> matrix@.wf(),
            out is Ok <==> data@.len() == nrow * ncol,
            out matches Ok(matrix) ==> matrix@ == MatrixView::tabulate(
                nrow as nat,
                ncol as nat,
                |r: int, c: int| data@[c * nrow + r],
            ),
            out matches Err(error) ==> error == Error::ShapeMismatch,
    {
        let len = data.len();
        let size = match nrow.checked_mul(ncol) {
            Some(size) => size,
            None => {
                return Err(Error::ShapeMismatch);
            },
        };
        if len != size {
            return Err(Error::ShapeMismatch);
        }
        let ghost wanted = MatrixView::tabulate(
            nrow as nat,
            ncol as nat,
            |r: int, c: int| data@[c * nrow + r],
        );
        let mut columns: Vec<Vec<S>> = Vec::new();
        let mut c: usize = 0;
        while c < ncol
            invariant
                c <= ncol,
                data@.len() == nrow * ncol,
                len == data@.len(),
                wanted == MatrixView::tabulate(
                    nrow as nat,
                    ncol as nat,
                    |r: int, c: int| data@[c * nrow + r],
                ),
                columns@.len() == c,
                forall|k: int| 0 <= k < c ==> (#[trigger] columns@[k])@ == wanted.columns[k],
            decreases ncol - c,
        {
            let mut column: Vec<S> = Vec::new();
            let mut r: usize = 0;
            while r < nrow
                invariant
                    r <= nrow,
                    c < ncol,
                    data@.len() == nrow * ncol,
                    len == data@.len(),
                    column@.len() == r,
                    forall|k: int| 0 <= k < r ==> (#[trigger] column@[k]) == data@[c * nrow + k],
                decreases nrow - r,
            {
                assert(c * nrow + r < nrow * ncol && c * nrow >= 0) by (nonlinear_arith)
                    requires
                        0 <= r < nrow,
                        0 <= c < ncol,
                ;
                column.push(data[c * nrow + r]);
                r += 1;
            }
            assert(column@ =~= wanted.columns[c as int]);
            columns.push(column);
            c += 1;
        }
        let out = Matrix::assemble(nrow, columns);
        assert(out@.columns =~= wanted.columns);
        Ok(out)
    }

    /// The matrix that holds the columns of the given matrices, matrix after matrix. There
    /// must be a matrix, and the matrices must have as many rows.
    pub fn from_column_matrices(columns: &Vec<Matrix<S>>) -> (out: Result<Self, Error>)
        ensures
            out matches Ok(matrix) ==> matrix@.wf(),
            out is Ok <==> columns@.len() > 0 && forall|k: int|
                0 <= k < columns@.len() ==> (#[trigger] columns@[k])@.nrow == columns@[0]@.nrow,
            out matches Ok(matrix) ==> matrix@ == (MatrixView {
                nrow: columns@[0]@.nrow,
                columns: MatrixView::joined(columns@.map_values(|matrix: Matrix<S>| matrix@)),
            }),
            out matches Err(error) ==> error == Error::ShapeMismatch,
    {
        if columns.len() == 0 {
            return Err(Error::ShapeMismatch);
        }
        let nrow = columns[0].dim().0;
        let ghost views = columns@.map_values(|matrix: Matrix<S>| matrix@);
        let mut joined: Vec<Vec<S>> = Vec::new();
        let mut k: usize = 0;
        proof {
            assert(views.take(0) =~= Seq::<MatrixView<S>>::empty());
        }
        while k < columns.len()
            invariant
                k <= columns@.len(),
                columns@.len() > 0,
                nrow == columns@[0]@.nrow,
                views == columns@.map_values(|matrix: Matrix<S>| matrix@),
                forall|i: int| 0 <= i < k ==> (#[trigger] columns@[i])@.nrow == nrow,
                MatrixView::<S>::nested(joined@) == MatrixView::joined(views.take(k as int)),
                forall|i: int| 0 <= i < joined@.len() ==> (#[trigger] joined@[i])@.len() == nrow,
            decreases columns@.len() - k,
        {
            let shape = columns[k].dim();
            if shape.0 != nrow {
                return Err(Error::ShapeMismatch);
            }
            let added = columns[k].get_data_col_leading();
            let ghost before = joined@;
            let mut c: usize = 0;
            while c < added.len()
                invariant
                    c <= added@.len(),
                    MatrixView::<S>::nested(added@) == columns@[k as int]@.columns,
                    columns@[k as int]@.wf(),
                    columns@[k as int]@.nrow == nrow,
                    MatrixView::<S>::nested(joined@) == MatrixView::<S>::nested(before)
                        + columns@[k as int]@.columns.take(c as int),
                    forall|i: int|
                        0 <= i < joined@.len() ==> (#[trigger] joined@[i])@.len() == nrow,
                decreases added@.len() - c,
            {
                let column = crate::linalg::copied(&added[c]);
                let ghost so_far = joined@;
                proof {
                    assert(MatrixView::<S>::nested(added@)[c as int] == added@[c as int]@);
                    assert(columns@[k as int]@.columns[c as int].len() == nrow);
                }
                joined.push(column);
                proof {
                    so_far.lemma_push_map_commute(|vector: Vec<S>| vector@, column);
                    let held = columns@[k as int]@.columns;
                    assert(held.take(c + 1) =~= held.take(c as int).push(held[c as int]));
                    assert(MatrixView::<S>::nested(joined@) =~= MatrixView::<S>::nested(before)
                        + held.take(c + 1));
                }
                c += 1;
            }
            proof {
                let held = columns@[k as int]@.columns;
                assert(MatrixView::<S>::nested(added@).len() == added@.len());
                assert(held.take(c as int) =~= held);
                assert(views.take(k + 1).drop_last() =~= views.take(k as int));
                assert(views.take(k + 1).last() == columns@[k as int]@);
            }
            k += 1;
        }
        assert(views.take(k as int) =~= views);
        let out = Matrix::assemble(nrow, joined);
        Ok(out)
    }

    /// Whether threads can share the tensors of this backend: they can, the tensors being
    /// plain values.
    pub fn is_backend_thread_safe() -> (safe: bool)
        ensures
            safe,
    {
        true
    }

    /// The matrix of one column that holds the entries of `v`.
    pub fn from_column_vector(v: &Vec<S>) -> (out: Self)
        ensures
            out@.wf(),
            out@ == (MatrixView { nrow: v@.len(), columns: seq![v@] }),
    {
        let mut columns: Vec<Vec<S>> = Vec::new();
        columns.push(copied(v));
        let out = Matrix::assemble(v.len(), columns);
        assert(out@.columns =~= seq![v@]);
        out
    }

    /// The matrix of one row that holds the entries of `v`.
    pub fn from_row_vector(v: &Vec<S>) -> (out: Self)
        ensures
            out@.wf(),
            out@ == (MatrixView { nrow: v@.len(), columns: seq![v@] }).transpose(),
    {
        Matrix::from_column_vector(v).transpose()
    }

    /// The matrix of `nrows` rows and `ncols` columns whose entries `f` computes from their
    /// row and column.
    pub fn from_fn<F: Fn(usize, usize) -> S>(nrows: usize, ncols: usize, f: F) -> (out: Self)
        requires
            forall|r: usize, c: usize| r < nrows && c < ncols ==> call_requires(f, (r, c)),
        ensures
            out@.wf(),
            out@.nrow == nrows,
            out@.ncol() == ncols,
            forall|r: usize, c: usize|
                r < nrows && c < ncols ==> call_ensures(f, (r, c), #[trigger] out@.at(r as int, c as int)),
    {
        let mut columns: Vec<Vec<S>> = Vec::new();
        let mut c: usize = 0;
        while c < ncols
            invariant
                c <= ncols,
                columns@.len() == c,
                forall|r: usize, c: usize| r < nrows && c < ncols ==> call_requires(f, (r, c)),
                forall|k: int| 0 <= k < c ==> (#[trigger] columns@[k])@.len() == nrows,
                forall|r: usize, k: usize|
                    r < nrows && k < c ==> call_ensures(f, (r, k), #[trigger] columns@[k as int]@[r as int]),
            decreases ncols - c,
        {
            let mut column: Vec<S> = Vec::new();
            let mut r: usize = 0;
            while r < nrows
                invariant
                    r <= nrows,
                    c < ncols,
                    column@.len() == r,
                    forall|r: usize, c: usize| r < nrows && c < ncols ==> call_requires(f, (r, c)),
                    forall|k: usize| k < r ==> call_ensures(f, (k, c), #[trigger] column@[k as int]),
                decreases nrows - r,
            {
                column.push(f(r, c));
                r += 1;
            }
            columns.push(column);
            c += 1;
        }
        Matrix::assemble(nrows, columns)
    }

    /// A copy of column `index`, if the matrix has it.
    pub fn get_column(&self, index: usize) -> (out: Option<Vec<S>>)
        ensures
            out is Some <==> index < self@.ncol(),
            out matches Some(column) ==> column@ == self@.columns[index as int],
    {
        if index < self.columns.len() {
            Some(copied(&self.columns[index]))
        } else {
            None
        }
    }

    /// The entries of row `index`, which the matrix has.
    fn row(&self, index: usize) -> (out: Vec<S>)
        requires
            index < self@.nrow,
        ensures
            out@ == self@.row(index as int),
    {
        proof {
            use_type_invariant(self);
        }
        let mut out: Vec<S> = Vec::new();
        let mut c: usize = 0;
        while c < self.columns.len()
            invariant
                index < self.nrow,
                self.well_formed(),
                c <= self.columns@.len(),
                out@.len() == c,
                forall|k: int| 0 <= k < c ==> out@[k] == self.columns@[k]@[index as int],
            decreases self.columns@.len() - c,
        {
            out.push(self.columns[c][index]);
            c += 1;
        }
        assert(out@ =~= self@.row(index as int));
        out
    }

    /// A copy of row `index`, if the matrix has it.
    pub fn get_row(&self, index: usize) -> (out: Option<Vec<S>>)
        ensures
            out is Some <==> index < self@.nrow,
            out matches Some(row) ==> row@ == self@.row(index as int),
    {
        if index < self.nrow {
            Some(self.row(index))
        } else {
            None
        }
    }

    /// The entry in row `row` of column `col`, if the matrix has it.
    pub fn index(&self, row: usize, col: usize) -> (out: Option<S>)
        ensures
            out is Some <==> row < self@.nrow && col < self@.ncol(),
            out matches Some(entry) ==> entry == self@.at(row as int, col as int),
    {
        proof {
            use_type_invariant(self);
        }
        if row < self.nrow && col < self.columns.len() {
            Some(self.columns[col][row])
        } else {
            None
        }
    }

    /// The columns of the matrix, in order.
    pub fn get_data(&self) -> (out: Vec<Vec<S>>)
        ensures
            MatrixView::<S>::nested(out@) == self@.columns,
    {
        self.get_data_col_leading()
    }

    /// The columns of the matrix, in order.
    pub fn get_data_col_leading(&self) -> (out: Vec<Vec<S>>)
        ensures
            MatrixView::<S>::nested(out@) == self@.columns,
    {
        let mut out: Vec<Vec<S>> = Vec::new();
        let mut c: usize = 0;
        while c < self.columns.len()
            invariant
                c <= self.columns@.len(),
                out@.len() == c,
                forall|k: int| 0 <= k < c ==> (#[trigger] out@[k])@ == self.columns@[k]@,
            decreases self.columns@.len() - c,
        {
            out.push(copied(&self.columns[c]));
            c += 1;
        }
        assert(MatrixView::<S>::nested(out@) =~= self@.columns);
        out
    }

    /// The rows of the matrix, in order.
    pub fn get_data_row_leading(&self) -> (out: Vec<Vec<S>>)
        ensures
            MatrixView::<S>::nested(out@) == self@.transpose().columns,
    {
        let mut out: Vec<Vec<S>> = Vec::new();
        let mut r: usize = 0;
        while r < self.nrow
            invariant
                r <= self.nrow,
                out@.len() == r,
                forall|k: int| 0 <= k < r ==> (#[trigger] out@[k])@ == self@.row(k),
            decreases self.nrow - r,
        {
            out.push(self.row(r));
            r += 1;
        }
        assert(MatrixView::<S>::nested(out@) =~= self@.transpose().columns);
        out
    }

    /// The matrix whose rows are the columns of this one.
    pub fn transpose(&self) -> (out: Self)
        ensures
            out@.wf(),
            out@ == self@.transpose(),
    {
        let mut columns: Vec<Vec<S>> = Vec::new();
        let mut r: usize = 0;
        while r < self.nrow
            invariant
                r <= self.nrow,
                columns@.len() == r,
                forall|k: int| 0 <= k < r ==> (#[trigger] columns@[k])@ == self@.row(k),
            decreases self.nrow - r,
        {
            columns.push(self.row(r));
            r += 1;
        }
        let out = Matrix::assemble(self.columns.len(), columns);
        assert(out@.columns =~= self@.transpose().columns);
        out
    }

    /// Combines the two matrices entry by entry. Where one of them has a single column, it
    /// is combined with each column of the other.
    pub fn zip_with(&self, op: BinaryOp, other: &Self) -> (out: Result<Self, Error>)
        ensures
            out matches Ok(matrix) ==> matrix@.wf(),
            out is Ok <==> self@.fits(other@),
            out matches Ok(matrix) ==> matrix@ == self@.zip(op, other@),
            out matches Err(error) ==> error == Error::ShapeMismatch,
    {
        proof {
            use_type_invariant(self);
            use_type_invariant(other);
        }
        let n = self.columns.len();
        let m = other.columns.len();
        if self.nrow != other.nrow || !(n == m || n == 1 || m == 1) {
            return Err(Error::ShapeMismatch);
        }
        let ncol = if n == 1 {
            m
        } else {
            n
        };
        let mut columns: Vec<Vec<S>> = Vec::new();
        let mut c: usize = 0;
        while c < ncol
            invariant
                self.well_formed(),
                other.well_formed(),
                self.nrow == other.nrow,
                n == self.columns@.len(),
                m == other.columns@.len(),
                n == m || n == 1 || m == 1,
                ncol == if n == 1 { m } else { n },
                c <= ncol,
                columns@.len() == c,
                forall|k: int|
                    0 <= k < c ==> (#[trigger] columns@[k])@ == op.zip(
                        self@.broadcast(k),
                        other@.broadcast(k),
                    ),
            decreases ncol - c,
        {
            let a = if n == 1 {
                &self.columns[0]
            } else {
                &self.columns[c]
            };
            let b = if m == 1 {
                &other.columns[0]
            } else {
                &other.columns[c]
            };
            columns.push(op.zip_columns(a, b));
            c += 1;
        }
        let out = Matrix::assemble(self.nrow, columns);
        assert(out@.columns =~= self@.zip(op, other@).columns);
        Ok(out)
    }

    /// Combines each entry with `value`.
    pub fn scalar_with(&self, op: BinaryOp, value: S) -> (out: Self)
        ensures
            out@.wf(),
            out@ == self@.with_scalar(op, value),
    {
        proof {
            use_type_invariant(self);
        }
        let mut columns: Vec<Vec<S>> = Vec::new();
        let mut c: usize = 0;
        while c < self.columns.len()
            invariant
                self.well_formed(),
                c <= self.columns@.len(),
                columns@.len() == c,
                forall|k: int|
                    0 <= k < c ==> (#[trigger] columns@[k])@ == op.with_scalar(
                        self.columns@[k]@,
                        value,
                    ),
            decreases self.columns@.len() - c,
        {
            columns.push(op.column_with_scalar(&self.columns[c], value));
            c += 1;
        }
        let out = Matrix::assemble(self.nrow, columns);
        assert(out@.columns =~= self@.with_scalar(op, value).columns);
        out
    }

    /// Applies `op` to each entry.
    pub fn map_with(&self, op: UnaryOp) -> (out: Self)
        ensures
            out@.wf(),
            out@ == self@.map(op),
    {
        proof {
            use_type_invariant(self);
        }
        let mut columns: Vec<Vec<S>> = Vec::new();
        let mut c: usize = 0;
        while c < self.columns.len()
            invariant
                self.well_formed(),
                c <= self.columns@.len(),
                columns@.len() == c,
                forall|k: int| 0 <= k < c ==> (#[trigger] columns@[k])@ == op.map(self.columns@[k]@),
            decreases self.columns@.len() - c,
        {
            columns.push(op.map_column(&self.columns[c]));
            c += 1;
        }
        let out = Matrix::assemble(self.nrow, columns);
        assert(out@.columns =~= self@.map(op).columns);
        out
    }

    /// The matrix times the vector `v`.
    fn times_vector(&self, v: &Vec<S>) -> (out: Vec<S>)
        requires
            v@.len() == self@.ncol(),
        ensures
            out@ == self@.times_vector(v@),
    {
        proof {
            use_type_invariant(self);
        }
        let mut out: Vec<S> = Vec::new();
        let mut r: usize = 0;
        while r < self.nrow
            invariant
                self.well_formed(),
                v@.len() == self@.ncol(),
                r <= self.nrow,
                out@.len() == r,
                forall|k: int|
                    0 <= k < r ==> out@[k] == crate::scalar::sum_spec(
                        self@.row_products(k, v@),
                    ),
            decreases self.nrow - r,
        {
            let ghost products = self@.row_products(r as int, v@);
            let mut total = S::zero();
            let mut k: usize = 0;
            while k < self.columns.len()
                invariant
                    self.well_formed(),
                    v@.len() == self@.ncol(),
                    r < self.nrow,
                    products == self@.row_products(r as int, v@),
                    k <= self.columns@.len(),
                    total == crate::scalar::sum_spec(products.take(k as int)),
                decreases self.columns@.len() - k,
            {
                assert(products.take(k + 1).drop_last() =~= products.take(k as int));
                total = total.add(self.columns[k][r].mul(v[k]));
                k += 1;
            }
            assert(products.take(k as int) =~= products);
            out.push(total);
            r += 1;
        }
        assert(out@ =~= self@.times_vector(v@));
        out
    }

    /// The matrix product of this matrix and `other`, which must have as many rows as this
    /// one has columns.
    pub fn dot(&self, other: &Self) -> (out: Result<Self, Error>)
        ensures
            out matches Ok(matrix) ==> matrix@.wf(),
            out is Ok <==> self@.ncol() == other@.nrow,
            out matches Ok(matrix) ==> matrix@ == self@.dot(other@),
            out matches Err(error) ==> error == Error::ShapeMismatch,
    {
        proof {
            use_type_invariant(self);
            use_type_invariant(other);
        }
        if self.columns.len() != other.nrow {
            return Err(Error::ShapeMismatch);
        }
        let mut columns: Vec<Vec<S>> = Vec::new();
        let mut c: usize = 0;
        while c < other.columns.len()
            invariant
                self.well_formed(),
                other.well_formed(),
                self.columns@.len() == other.nrow,
                c <= other.columns@.len(),
                columns@.len() == c,
                forall|k: int|
                    0 <= k < c ==> (#[trigger] columns@[k])@ == self@.times_vector(
                        other.columns@[k]@,
                    ),
            decreases other.columns@.len() - c,
        {
            columns.push(self.times_vector(&other.columns[c]));
            c += 1;
        }
        let out = Matrix::assemble(self.nrow, columns);
        assert(out@.columns =~= self@.dot(other@).columns);
        Ok(out)
    }

    /// The matrix of one column that holds the sum of each row.
    pub fn columns_sum(&self) -> (out: Self)
        ensures
            out@.wf(),
            out@ == self@.columns_sum(),
    {
        let mut sums: Vec<S> = Vec::new();
        let mut r: usize = 0;
        while r < self.nrow
            invariant
                r <= self.nrow,
                sums@.len() == r,
                forall|k: int| 0 <= k < r ==> sums@[k] == crate::scalar::sum_spec(self@.row(k)),
            decreases self.nrow - r,
        {
            let row = self.row(r);
            sums.push(crate::scalar::sum(&row));
            r += 1;
        }
        assert(sums@ =~= self@.columns_sum().columns[0]);
        let mut columns: Vec<Vec<S>> = Vec::new();
        columns.push(sums);
        let out = Matrix::assemble(self.nrow, columns);
        assert(out@.columns =~= self@.columns_sum().columns);
        out
    }

    /// The sum of all entries.
    pub fn sum(&self) -> (total: S)
        ensures
            total == self@.total(),
    {
        let mut totals: Vec<S> = Vec::new();
        let mut c: usize = 0;
        while c < self.columns.len()
            invariant
                c <= self.columns@.len(),
                totals@.len() == c,
                forall|k: int|
                    0 <= k < c ==> totals@[k] == crate::scalar::sum_spec(self.columns@[k]@),
            decreases self.columns@.len() - c,
        {
            totals.push(crate::scalar::sum(&self.columns[c]));
            c += 1;
        }
        assert(totals@ =~= self@.column_totals());
        crate::scalar::sum(&totals)
    }

    /// The mean of all entries: their sum over their number.
    pub fn mean(&self) -> (mean: S)
        ensures
            mean == self@.mean(),
    {
        let count = S::from_count(self.nrow).mul(S::from_count(self.columns.len()));
        self.sum().div(count)
    }

    /// All entries combined by `op`, if the matrix has any.
    pub fn fold_with(&self, op: BinaryOp) -> (out: Option<S>)
        ensures
            out is Some <==> self@.nrow > 0 && self@.ncol() > 0,
            out matches Some(value) ==> value == self@.fold(op),
    {
        proof {
            use_type_invariant(self);
        }
        if self.nrow == 0 || self.columns.len() == 0 {
            return None;
        }
        let mut folds: Vec<S> = Vec::new();
        let mut c: usize = 0;
        while c < self.columns.len()
            invariant
                self.well_formed(),
                self.nrow > 0,
                c <= self.columns@.len(),
                folds@.len() == c,
                forall|k: int| 0 <= k < c ==> folds@[k] == op.fold(self.columns@[k]@),
            decreases self.columns@.len() - c,
        {
            folds.push(op.fold_column(&self.columns[c]));
            c += 1;
        }
        assert(folds@ =~= self@.column_folds(op));
        Some(op.fold_column(&folds))
    }

    /// The largest entry, if the matrix has any.
    pub fn max(&self) -> (out: Option<S>)
        ensures
            out is Some <==> self@.nrow > 0 && self@.ncol() > 0,
            out matches Some(value) ==> value == self@.fold(BinaryOp::Max),
    {
        self.fold_with(BinaryOp::Max)
    }

    /// The smallest entry, if the matrix has any.
    pub fn min(&self) -> (out: Option<S>)
        ensures
            out is Some <==> self@.nrow > 0 && self@.ncol() > 0,
            out matches Some(value) ==> value == self@.fold(BinaryOp::Min),
    {
        self.fold_with(BinaryOp::Min)
    }

    /// The sum of the two matrices, entry by entry.
    pub fn component_add(&self, other: &Self) -> (out: Result<Self, Error>)
        ensures
            out matches Ok(matrix) ==> matrix@.wf(),
            out is Ok <==> self@.fits(other@),
            out matches Ok(matrix) ==> matrix@ == self@.zip(BinaryOp::Add, other@),
            out matches Err(error) ==> error == Error::ShapeMismatch,
    {
        self.zip_with(BinaryOp::Add, other)
    }

    /// The difference of the two matrices, entry by entry.
    pub fn component_sub(&self, other: &Self) -> (out: Result<Self, Error>)
        ensures
            out matches Ok(matrix) ==> matrix@.wf(),
            out is Ok <==> self@.fits(other@),
            out matches Ok(matrix) ==> matrix@ == self@.zip(BinaryOp::Sub, other@),
            out matches Err(error) ==> error == Error::ShapeMismatch,
    {
        self.zip_with(BinaryOp::Sub, other)
    }

    /// The product of the two matrices, entry by entry.
    pub fn component_mul(&self, other: &Self) -> (out: Result<Self, Error>)
        ensures
            out matches Ok(matrix) ==> matrix@.wf(),
            out is Ok <==> self@.fits(other@),
            out matches Ok(matrix) ==> matrix@ == self@.zip(BinaryOp::Mul, other@),
            out matches Err(error) ==> error == Error::ShapeMismatch,
    {
        self.zip_with(BinaryOp::Mul, other)
    }

    /// The quotient of the two matrices, entry by entry.
    pub fn component_div(&self, other: &Self) -> (out: Result<Self, Error>)
        ensures
            out matches Ok(matrix) ==> matrix@.wf(),
            out is Ok <==> self@.fits(other@),
            out matches Ok(matrix) ==> matrix@ == self@.zip(BinaryOp::Div, other@),
            out matches Err(error) ==> error == Error::ShapeMismatch,
    {
        self.zip_with(BinaryOp::Div, other)
    }

    /// The larger entry of the two matrices, entry by entry.
    pub fn maxof(&self, other: &Self) -> (out: Result<Self, Error>)
        ensures
            out matches Ok(matrix) ==> matrix@.wf(),
            out is Ok <==> self@.fits(other@),
            out matches Ok(matrix) ==> matrix@ == self@.zip(BinaryOp::Max, other@),
            out matches Err(error) ==> error == Error::ShapeMismatch,
    {
        self.zip_with(BinaryOp::Max, other)
    }

    /// The smaller entry of the two matrices, entry by entry.
    pub fn minof(&self, other: &Self) -> (out: Result<Self, Error>)
        ensures
            out matches Ok(matrix) ==> matrix@.wf(),
            out is Ok <==> self@.fits(other@),
            out matches Ok(matrix) ==> matrix@ == self@.zip(BinaryOp::Min, other@),
            out matches Err(error) ==> error == Error::ShapeMismatch,
    {
        self.zip_with(BinaryOp::Min, other)
    }

    /// Each entry plus `scalar`.
    pub fn scalar_add(&self, scalar: S) -> (out: Self)
        ensures
            out@.wf(),
            out@ == self@.with_scalar(BinaryOp::Add, scalar),
    {
        self.scalar_with(BinaryOp::Add, scalar)
    }

    /// Each entry minus `scalar`.
    pub fn scalar_sub(&self, scalar: S) -> (out: Self)
        ensures
            out@.wf(),
            out@ == self@.with_scalar(BinaryOp::Sub, scalar),
    {
        self.scalar_with(BinaryOp::Sub, scalar)
    }

    /// Each entry times `scalar`.
    pub fn scalar_mul(&self, scalar: S) -> (out: Self)
        ensures
            out@.wf(),
            out@ == self@.with_scalar(BinaryOp::Mul, scalar),
    {
        self.scalar_with(BinaryOp::Mul, scalar)
    }

    /// Each entry over `scalar`.
    pub fn scalar_div(&self, scalar: S) -> (out: Self)
        ensures
            out@.wf(),
            out@ == self@.with_scalar(BinaryOp::Div, scalar),
    {
        self.scalar_with(BinaryOp::Div, scalar)
    }

    /// Each entry times itself.
    pub fn square(&self) -> (out: Self)
        ensures
            out@.wf(),
            out@ == self@.map(UnaryOp::Square),
    {
        self.map_with(UnaryOp::Square)
    }

    /// The sign of each entry: minus one where it is below zero, else one.
    pub fn sign(&self) -> (out: Self)
        ensures
            out@.wf(),
            out@ == self@.map(UnaryOp::Sign),
    {
        self.map_with(UnaryOp::Sign)
    }

    /// The square root of each entry.
    pub fn sqrt(&self) -> (out: Self)
        ensures
            out@.wf(),
            out@ == self@.map(UnaryOp::Sqrt),
    {
        self.map_with(UnaryOp::Sqrt)
    }

    /// The exponential of each entry.
    pub fn exp(&self) -> (out: Self)
        ensures
            out@.wf(),
            out@ == self@.map(UnaryOp::Exp),
    {
        self.map_with(UnaryOp::Exp)
    }

    /// Column `index` as a matrix of one column, if the matrix has it.
    pub fn get_column_as_matrix(&self, index: usize) -> (out: Option<Self>)
        ensures
            out matches Some(matrix) ==> matrix@.wf(),
            out is Some <==> index < self@.ncol(),
            out matches Some(matrix) ==> matrix@ == self@.column_matrix(index as int),
    {
        proof {
            use_type_invariant(self);
        }
        if index < self.columns.len() {
            let mut columns: Vec<Vec<S>> = Vec::new();
            columns.push(copied(&self.columns[index]));
            let out = Matrix::assemble(self.nrow, columns);
            assert(out@.columns =~= self@.column_matrix(index as int).columns);
            Some(out)
        } else {
            None
        }
    }

    /// The sum, entry by entry, of matrices that all have `nrow` rows and `ncol` columns.
    pub fn sum_of(nrow: usize, ncol: usize, planes: &Vec<Self>) -> (out: Result<Self, Error>)
        ensures
            out matches Ok(matrix) ==> matrix@.wf(),
            out is Ok <==> forall|k: int|
                0 <= k < planes@.len() ==> (#[trigger] planes@[k])@.has_shape(
                    nrow as nat,
                    ncol as nat,
                ),
            out matches Ok(matrix) ==> matrix@ == MatrixView::sum_of(
                nrow as nat,
                ncol as nat,
                planes@.map_values(|plane: Self| plane@),
            ),
            out matches Err(error) ==> error == Error::ShapeMismatch,
    {
        let ghost views = planes@.map_values(|plane: Self| plane@);
        let mut total = Matrix::zeros(nrow, ncol);
        proof {
            let nothing = MatrixView::sum_of(nrow as nat, ncol as nat, views.take(0));
            assert forall|c: int| 0 <= c < ncol implies total@.columns[c] =~= nothing.columns[c] by {
                assert forall|r: int| 0 <= r < nrow implies total@.columns[c][r]
                    == nothing.columns[c][r] by {
                    assert(MatrixView::stacked(views.take(0), r, c).len() == 0);
                }
            }
            assert(total@.columns =~= nothing.columns);
        }
        let mut k: usize = 0;
        while k < planes.len()
            invariant
                k <= planes@.len(),
                views == planes@.map_values(|plane: Self| plane@),
                total@ == MatrixView::sum_of(nrow as nat, ncol as nat, views.take(k as int)),
                forall|i: int|
                    0 <= i < k ==> (#[trigger] planes@[i])@.has_shape(nrow as nat, ncol as nat),
            decreases planes@.len() - k,
        {
            let plane = &planes[k];
            let shape = plane.dim();
            if shape.0 != nrow || shape.1 != ncol {
                return Err(Error::ShapeMismatch);
            }
            let ghost before = total@;
            if ncol == 1 {
                // A single column is combined with itself: no broadcast takes place.
                assert(before.ncol() == 1 && plane@.ncol() == 1);
            }
            let added = total.component_add(plane);
            match added {
                Ok(added) => {
                    proof {
                        let next = MatrixView::sum_of(
                            nrow as nat,
                            ncol as nat,
                            views.take(k + 1),
                        );
                        assert(added@.columns.len() == ncol);
                        assert forall|c: int| 0 <= c < ncol implies added@.columns[c]
                            =~= next.columns[c] by {
                            assert(before.broadcast(c) == before.columns[c]);
                            assert(plane@.broadcast(c) == plane@.columns[c]);
                            assert(plane@.columns[c].len() == nrow);
                            assert forall|r: int| 0 <= r < nrow implies added@.columns[c][r]
                                == next.columns[c][r] by {
                                let old_stack = MatrixView::stacked(views.take(k as int), r, c);
                                let new_stack = MatrixView::stacked(views.take(k + 1), r, c);
                                assert(new_stack.drop_last() =~= old_stack);
                                assert(new_stack.last() == plane@.columns[c][r]);
                            }
                        }
                        assert(added@.columns =~= next.columns);
                    }
                    total = added;
                },
                Err(error) => {
                    return Err(error);
                },
            }
            k += 1;
        }
        assert(views.take(k as int) =~= views);
        Ok(total)
    }

    /// The place in a list of `len` entries that lies `forward` places after and `back`
    /// places before place `at`, if the list has it.
    fn shifted(at: usize, forward: usize, back: usize, len: usize) -> (out: Option<usize>)
        ensures
            out is Some <==> 0 <= at + forward - back < len,
            out matches Some(place) ==> place == at + forward - back,
    {
        if forward >= back {
            let ahead = forward - back;
            if ahead <= usize::MAX - at && at + ahead < len {
                Some(at + ahead)
            } else {
                None
            }
        } else {
            let behind = back - forward;
            if at >= behind && at - behind < len {
                Some(at - behind)
            } else {
                None
            }
        }
    }

    /// The sliding dot product of `kernel` with this matrix where the kernel's first entry
    /// lies `r - row_shift` rows and `c - col_shift` columns from the first entry of the
    /// matrix.
    fn correlation_at(
        &self,
        kernel: &Self,
        r: usize,
        c: usize,
        row_shift: usize,
        col_shift: usize,
    ) -> (value: S)
        ensures
            value == self@.correlation_at(kernel@, r - row_shift, c - col_shift),
    {
        proof {
            use_type_invariant(self);
            use_type_invariant(kernel);
        }
        let ghost columns = Seq::new(
            kernel@.ncol(),
            |j: int|
                crate::scalar::sum_spec(
                    self@.correlation_column(kernel@, r - row_shift, c - col_shift, j),
                ),
        );
        let mut total = S::zero();
        let mut j: usize = 0;
        while j < kernel.columns.len()
            invariant
                self.well_formed(),
                kernel.well_formed(),
                j <= kernel.columns@.len(),
                columns == Seq::new(
                    kernel@.ncol(),
                    |j: int|
                        crate::scalar::sum_spec(
                            self@.correlation_column(kernel@, r - row_shift, c - col_shift, j),
                        ),
                ),
                total == crate::scalar::sum_spec(columns.take(j as int)),
            decreases kernel.columns@.len() - j,
        {
            let ghost products = self@.correlation_column(
                kernel@,
                r - row_shift,
                c - col_shift,
                j as int,
            );
            let column = Self::shifted(c, j, col_shift, self.columns.len());
            let mut column_total = S::zero();
            let mut i: usize = 0;
            while i < kernel.nrow
                invariant
                    self.well_formed(),
                    kernel.well_formed(),
                    j < kernel.columns@.len(),
                    i <= kernel.nrow,
                    column is Some <==> 0 <= c + j - col_shift < self.columns@.len(),
                    column matches Some(place) ==> place == c + j - col_shift,
                    products == self@.correlation_column(
                        kernel@,
                        r - row_shift,
                        c - col_shift,
                        j as int,
                    ),
                    column_total == crate::scalar::sum_spec(products.take(i as int)),
                decreases kernel.nrow - i,
            {
                assert(products.take(i + 1).drop_last() =~= products.take(i as int));
                let row = Self::shifted(r, i, row_shift, self.nrow);
                let term = match (row, column) {
                    (Some(row), Some(column)) => self.columns[column][row].mul(
                        kernel.columns[j][i],
                    ),
                    _ => S::zero(),
                };
                column_total = column_total.add(term);
                i += 1;
            }
            assert(products.take(i as int) =~= products);
            assert(columns.take(j + 1).drop_last() =~= columns.take(j as int));
            total = total.add(column_total);
            j += 1;
        }
        assert(columns.take(j as int) =~= columns);
        total
    }

    /// The matrix of `nrow` rows and `ncol` columns that holds, in row `r` of column `c`,
    /// the sliding dot product of `kernel` with this matrix where the kernel's first entry
    /// lies `r - row_shift` rows and `c - col_shift` columns from the first entry of the
    /// matrix.
    fn correlation_map(
        &self,
        kernel: &Self,
        nrow: usize,
        ncol: usize,
        row_shift: usize,
        col_shift: usize,
    ) -> (out: Self)
        ensures
            out@.wf(),
            out@ == MatrixView::tabulate(
                nrow as nat,
                ncol as nat,
                |r: int, c: int| self@.correlation_at(kernel@, r - row_shift, c - col_shift),
            ),
    {
        let mut columns: Vec<Vec<S>> = Vec::new();
        let mut c: usize = 0;
        while c < ncol
            invariant
                c <= ncol,
                columns@.len() == c,
                forall|k: int|
                    0 <= k < c ==> (#[trigger] columns@[k])@ == Seq::new(
                        nrow as nat,
                        |r: int| self@.correlation_at(kernel@, r - row_shift, k - col_shift),
                    ),
            decreases ncol - c,
        {
            let mut column: Vec<S> = Vec::new();
            let mut r: usize = 0;
            while r < nrow
                invariant
                    c < ncol,
                    r <= nrow,
                    column@.len() == r,
                    forall|k: int|
                        0 <= k < r ==> column@[k] == self@.correlation_at(
                            kernel@,
                            k - row_shift,
                            c - col_shift,
                        ),
                decreases nrow - r,
            {
                column.push(self.correlation_at(kernel, r, c, row_shift, col_shift));
                r += 1;
            }
            assert(column@ =~= Seq::new(
                nrow as nat,
                |r: int| self@.correlation_at(kernel@, r - row_shift, c - col_shift),
            ));
            columns.push(column);
            c += 1;
        }
        let out = Matrix::assemble(nrow, columns);
        proof {
            let wanted = MatrixView::tabulate(
                nrow as nat,
                ncol as nat,
                |r: int, c: int| self@.correlation_at(kernel@, r - row_shift, c - col_shift),
            );
            assert forall|c: int| 0 <= c < ncol implies out@.columns[c] =~= wanted.columns[c] by {}
            assert(out@.columns =~= wanted.columns);
        }
        out
    }

    /// The kernel turned by half a turn.
    pub fn flipped(&self) -> (out: Self)
        ensures
            out@.wf(),
            out@ == self@.flipped(),
    {
        proof {
            use_type_invariant(self);
        }
        let ncol = self.columns.len();
        let mut columns: Vec<Vec<S>> = Vec::new();
        let mut c: usize = 0;
        while c < ncol
            invariant
                self.well_formed(),
                ncol == self.columns@.len(),
                c <= ncol,
                columns@.len() == c,
                forall|k: int| 0 <= k < c ==> (#[trigger] columns@[k])@ == self@.flipped().columns[k],
            decreases ncol - c,
        {
            let source = &self.columns[ncol - 1 - c];
            let mut column: Vec<S> = Vec::new();
            let mut r: usize = 0;
            while r < self.nrow
                invariant
                    self.well_formed(),
                    ncol == self.columns@.len(),
                    c < ncol,
                    source@ == self.columns@[ncol - 1 - c]@,
                    r <= self.nrow,
                    column@.len() == r,
                    forall|k: int| 0 <= k < r ==> column@[k] == source@[self.nrow - 1 - k],
                decreases self.nrow - r,
            {
                column.push(source[self.nrow - 1 - r]);
                r += 1;
            }
            assert(column@ =~= self@.flipped().columns[c as int]);
            columns.push(column);
            c += 1;
        }
        let out = Matrix::assemble(self.nrow, columns);
        assert(out@.columns =~= self@.flipped().columns);
        out
    }

    /// The cross-correlation of this matrix with `kernel`, which must have an entry and fit
    /// into the matrix.
    pub fn cross_correlate(&self, kernel: &Self) -> (out: Result<Self, Error>)
        ensures
            out matches Ok(matrix) ==> matrix@.wf(),
            out is Ok <==> self@.holds(kernel@),
            out matches Ok(matrix) ==> matrix@ == self@.cross_correlate(kernel@),
            out matches Err(error) ==> error == Error::ShapeMismatch,
    {
        let shape = self.dim();
        let kernel_shape = kernel.dim();
        if kernel_shape.0 == 0 || kernel_shape.1 == 0 || kernel_shape.0 > shape.0
            || kernel_shape.1 > shape.1 {
            return Err(Error::ShapeMismatch);
        }
        let nrow = shape.0 - kernel_shape.0 + 1;
        let ncol = shape.1 - kernel_shape.1 + 1;
        let out = self.correlation_map(kernel, nrow, ncol, 0, 0);
        assert(out@.columns =~= self@.cross_correlate(kernel@).columns) by {
            assert forall|c: int| 0 <= c < ncol implies out@.columns[c]
                =~= self@.cross_correlate(kernel@).columns[c] by {}
        }
        Ok(out)
    }

    /// The full convolution of this matrix with `kernel`, which must have an entry.
    pub fn convolve_full(&self, kernel: &Self) -> (out: Result<Self, Error>)
        ensures
            out matches Ok(matrix) ==> matrix@.wf(),
            out is Ok <==> self@.spreads(kernel@),
            out matches Ok(matrix) ==> matrix@ == self@.convolve_full(kernel@),
            out matches Err(error) ==> error == Error::ShapeMismatch,
    {
        let shape = self.dim();
        let kernel_shape = kernel.dim();
        if kernel_shape.0 == 0 || kernel_shape.1 == 0 {
            return Err(Error::ShapeMismatch);
        }
        let row_shift = kernel_shape.0 - 1;
        let col_shift = kernel_shape.1 - 1;
        if row_shift > usize::MAX - shape.0 || col_shift > usize::MAX - shape.1 {
            return Err(Error::ShapeMismatch);
        }
        let turned = kernel.flipped();
        let out = self.correlation_map(
            &turned,
            shape.0 + row_shift,
            shape.1 + col_shift,
            row_shift,
            col_shift,
        );
        assert(out@.columns =~= self@.convolve_full(kernel@).columns) by {
            assert forall|c: int| 0 <= c < shape.1 + col_shift implies out@.columns[c]
                =~= self@.convolve_full(kernel@).columns[c] by {}
        }
        Ok(out)
    }

    /// A matrix of `nrow` rows and `ncol` columns of random numbers between `min` and `max`,
    /// spread evenly. Whatever chance gives, each entry is a number that some draw stands
    /// for.
    pub fn random_uniform(nrow: usize, ncol: usize, min: S, max: S) -> (out: Self)
        ensures
            out@.has_shape(nrow as nat, ncol as nat),
            forall|r: int, c: int|
                0 <= r < nrow && 0 <= c < ncol ==> crate::random::is_uniform_draw(
                    #[trigger] out@.columns[c][r],
                    min,
                    max,
                ),
    {
        let mut rng = crate::random::thread_rng();
        let mut columns: Vec<Vec<S>> = Vec::new();
        let mut c: usize = 0;
        while c < ncol
            invariant
                c <= ncol,
                columns@.len() == c,
                forall|k: int| 0 <= k < c ==> (#[trigger] columns@[k])@.len() == nrow,
                forall|r: int, k: int|
                    0 <= r < nrow && 0 <= k < c ==> crate::random::is_uniform_draw(
                        #[trigger] columns@[k]@[r],
                        min,
                        max,
                    ),
            decreases ncol - c,
        {
            let mut column: Vec<S> = Vec::new();
            let mut r: usize = 0;
            while r < nrow
                invariant
                    r <= nrow,
                    column@.len() == r,
                    forall|k: int|
                        0 <= k < r ==> crate::random::is_uniform_draw(#[trigger] column@[k], min, max),
                decreases nrow - r,
            {
                column.push(crate::random::random_uniform(min, max, &mut rng));
                r += 1;
            }
            columns.push(column);
            c += 1;
        }
        let out = Matrix::assemble(nrow, columns);
        assert forall|r: int, c: int| 0 <= r < nrow && 0 <= c < ncol implies crate::random::is_uniform_draw(
            #[trigger] out@.columns[c][r],
            min,
            max,
        ) by {
            assert(out@.columns[c] == columns@[c]@);
        }
        out
    }

    /// A matrix of `nrow` rows and `ncol` columns of random numbers around `mean`, spread in
    /// the shape of a bell with the standard deviation `std_dev`. Whatever chance gives, each
    /// entry is a number that some twelve draws stand for.
    pub fn random_normal(nrow: usize, ncol: usize, mean: S, std_dev: S) -> (out: Self)
        ensures
            out@.has_shape(nrow as nat, ncol as nat),
            forall|r: int, c: int|
                0 <= r < nrow && 0 <= c < ncol ==> crate::random::is_normal_draw(
                    #[trigger] out@.columns[c][r],
                    mean,
                    std_dev,
                ),
    {
        let mut rng = crate::random::thread_rng();
        let mut columns: Vec<Vec<S>> = Vec::new();
        let mut c: usize = 0;
        while c < ncol
            invariant
                c <= ncol,
                columns@.len() == c,
                forall|k: int| 0 <= k < c ==> (#[trigger] columns@[k])@.len() == nrow,
                forall|r: int, k: int|
                    0 <= r < nrow && 0 <= k < c ==> crate::random::is_normal_draw(
                        #[trigger] columns@[k]@[r],
                        mean,
                        std_dev,
                    ),
            decreases ncol - c,
        {
            let mut column: Vec<S> = Vec::new();
            let mut r: usize = 0;
            while r < nrow
                invariant
                    r <= nrow,
                    column@.len() == r,
                    forall|k: int|
                        0 <= k < r ==> crate::random::is_normal_draw(#[trigger] column@[k], mean, std_dev),
                decreases nrow - r,
            {
                column.push(crate::random::random_normal(mean, std_dev, &mut rng));
                r += 1;
            }
            columns.push(column);
            c += 1;
        }
        let out = Matrix::assemble(nrow, columns);
        assert forall|r: int, c: int| 0 <= r < nrow && 0 <= c < ncol implies crate::random::is_normal_draw(
            #[trigger] out@.columns[c][r],
            mean,
            std_dev,
        ) by {
            assert(out@.columns[c] == columns@[c]@);
        }
        out
    }
}

} // verus!
