//! A layer that drops entries at random while the network is trained.
//!
//! While the layer is enabled, each entry that passes through it is either dropped, with
//! the probability that the layer's rate gives, or scaled up so that the sum of the entries
//! is kept on average. Which entries are dropped is decided by the layer's seed and by the
//! place of the entry: the same seed drops the same entries, so that a run of training can
//! be repeated. The seed is renewed before each batch. While the layer is disabled, as it
//! is for predictions, entries pass through it as they are.

use crate::linalg::{Matrix, MatrixView};
use crate::scalar::Scalar;
use vstd::prelude::*;

verus! {

/// The draw that decides on the entry in row `r` of column `c` under the seed `seed`: the
/// three numbers are mixed, and the upper half of the mix is taken.
pub open spec fn draw_spec(seed: u64, r: u64, c: u64) -> u32 {
    let start = seed.wrapping_add(r.wrapping_mul(0x9E37_79B9_7F4A_7C15u64)).wrapping_add(
        c.wrapping_mul(0xC2B2_AE3D_27D4_EB4Fu64),
    );
    let first = (start ^ (start >> 30u64)).wrapping_mul(0xBF58_476D_1CE4_E5B9u64);
    let second = (first ^ (first >> 27u64)).wrapping_mul(0x94D0_49BB_1331_11EBu64);
    ((second ^ (second >> 31u64)) >> 32u64) as u32
}

/// The draw that decides on the entry in row `r` of column `c` under the seed `seed`.
pub fn draw(seed: u64, r: u64, c: u64) -> (bits: u32)
    ensures
        bits == draw_spec(seed, r, c),
{
    let start = seed.wrapping_add(r.wrapping_mul(0x9E37_79B9_7F4A_7C15u64)).wrapping_add(
        c.wrapping_mul(0xC2B2_AE3D_27D4_EB4Fu64),
    );
    let first = (start ^ (start >> 30u64)).wrapping_mul(0xBF58_476D_1CE4_E5B9u64);
    let second = (first ^ (first >> 27u64)).wrapping_mul(0x94D0_49BB_1331_11EBu64);
    #[verifier::truncate]
    let bits = ((second ^ (second >> 31u64)) >> 32u64) as u32;
    bits
}

/// The seed that follows `seed`.
pub open spec fn next_seed_spec(seed: u64) -> u64 {
    seed.wrapping_mul(6364136223846793005u64).wrapping_add(1442695040888963407u64)
}

/// The seed that follows `seed`.
pub fn next_seed(seed: u64) -> (next: u64)
    ensures
        next == next_seed_spec(seed),
{
    seed.wrapping_mul(6364136223846793005u64).wrapping_add(1442695040888963407u64)
}

/// A layer that drops entries at random while it is enabled.
#[derive(Debug)]
pub struct DropoutLayer<S: Scalar> {
    /// The share of the entries that is dropped, between zero and one.
    pub rate: S,
    /// What decides, with the place of an entry, whether the entry is dropped.
    pub seed: u64,
    /// Whether the layer drops entries, or lets them all pass.
    pub enabled: bool,
}

/// Mathematical model of a [`DropoutLayer`].
pub struct DropoutView<S: Scalar> {
    pub rate: S,
    pub seed: u64,
    pub enabled: bool,
}

impl<S: Scalar> View for DropoutLayer<S> {
    type V = DropoutView<S>;

    open spec fn view(&self) -> DropoutView<S> {
        DropoutView { rate: self.rate, seed: self.seed, enabled: self.enabled }
    }
}

impl<S: Scalar> DropoutView<S> {
    /// Whether the entry in row `r` of column `c` is dropped: the number of the unit
    /// interval that its draw stands for is below the rate.
    pub open spec fn drops(self, r: int, c: int) -> bool {
        crate::random::unit_spec::<S>(draw_spec(self.seed, r as u64, c as u64)).lt_spec(self.rate)
    }

    /// What an entry that is kept is multiplied with: `1 / (1 - rate)`.
    pub open spec fn scale(self) -> S {
        S::one_spec().div_spec(S::one_spec().sub_spec(self.rate))
    }

    /// What the entry in row `r` of column `c` is multiplied with: zero where it is
    /// dropped, the scale where it is kept.
    pub open spec fn factor(self, r: int, c: int) -> S {
        if self.drops(r, c) {
            S::zero_spec()
        } else {
            self.scale()
        }
    }

    /// What the layer makes of a matrix, forwards and backwards alike: each entry times
    /// its factor while the layer is enabled, the matrix itself while it is not.
    pub open spec fn masked(self, matrix: MatrixView<S>) -> MatrixView<S> {
        if self.enabled {
            MatrixView::tabulate(
                matrix.nrow,
                matrix.ncol(),
                |r: int, c: int| matrix.at(r, c).mul_spec(self.factor(r, c)),
            )
        } else {
            matrix
        }
    }

    /// Whether the two layers make the same of every matrix: both let all entries pass, or
    /// both drop the same entries at the same rate.
    pub open spec fn same_function(self, other: Self) -> bool {
        if self.enabled {
            self == other
        } else {
            !other.enabled
        }
    }

    /// The layer with its seed renewed.
    pub open spec fn reseeded(self) -> Self {
        DropoutView { seed: next_seed_spec(self.seed), ..self }
    }

    /// While the layer is disabled, entries pass through it as they are.
    pub proof fn lemma_disabled_is_identity(self, matrix: MatrixView<S>)
        requires
            !self.enabled,
        ensures
            self.masked(matrix) == matrix,
    {
    }

    /// What the layer makes of a matrix has the shape of the matrix.
    pub proof fn lemma_masked_shape(self, matrix: MatrixView<S>)
        requires
            matrix.wf(),
        ensures
            self.masked(matrix).wf(),
            self.masked(matrix).nrow == matrix.nrow,
            self.masked(matrix).ncol() == matrix.ncol(),
    {
    }
}

impl<S: Scalar> DropoutLayer<S> {
    /// A layer that drops the share `rate` of the entries, as `seed` decides. It is
    /// enabled.
    pub fn new(rate: S, seed: u64) -> (out: Self)
        ensures
            out@ == (DropoutView { rate, seed, enabled: true }),
    {
        DropoutLayer { rate, seed, enabled: true }
    }

    /// A layer that drops the share `rate` of the entries, with a seed that chance gives.
    pub fn random(rate: S) -> (out: Self)
        ensures
            out@.rate == rate,
            out@.enabled,
    {
        let mut rng = crate::random::thread_rng();
        let upper = crate::random::random_bits(&mut rng);
        let lower = crate::random::random_bits(&mut rng);
        let seed = ((upper as u64) << 32u64) | (lower as u64);
        DropoutLayer { rate, seed, enabled: true }
    }

    /// Lets the layer drop entries.
    pub fn enable(&mut self)
        ensures
            final(self)@ == (DropoutView { enabled: true, ..old(self)@ }),
    {
        self.enabled = true;
    }

    /// Lets all entries pass.
    pub fn disable(&mut self)
        ensures
            final(self)@ == (DropoutView { enabled: false, ..old(self)@ }),
    {
        self.enabled = false;
    }

    /// Renews the seed, so that other entries are dropped from now on.
    pub fn reseed(&mut self)
        ensures
            final(self)@ == old(self)@.reseeded(),
    {
        self.seed = next_seed(self.seed);
    }

    /// What the entry in row `r` of column `c` is multiplied with.
    pub fn factor(&self, r: usize, c: usize) -> (out: S)
        ensures
            out == self@.factor(r as int, c as int),
    {
        let unit: S = crate::random::unit_from(draw(self.seed, r as u64, c as u64));
        if unit.lt(self.rate) {
            S::zero()
        } else {
            S::one().div(S::one().sub(self.rate))
        }
    }

    /// What the layer makes of a matrix, forwards and backwards alike.
    pub fn masked(&self, matrix: Matrix<S>) -> (out: Matrix<S>)
        ensures
            out@.wf(),
            out@ == self@.masked(matrix@),
            out@.nrow == matrix@.nrow,
            out@.ncol() == matrix@.ncol(),
    {
        let dims = matrix.dim();
        if !self.enabled {
            return matrix;
        }
        let mut columns: Vec<Vec<S>> = Vec::new();
        let mut c: usize = 0;
        while c < dims.1
            invariant
                c <= dims.1,
                matrix@.wf(),
                dims.0 == matrix@.nrow,
                dims.1 == matrix@.ncol(),
                columns@.len() == c,
                forall|k: int|
                    0 <= k < c ==> (#[trigger] columns@[k])@ == self@.masked(matrix@).columns[k],
                self.enabled,
            decreases dims.1 - c,
        {
            let mut column: Vec<S> = Vec::new();
            let mut r: usize = 0;
            while r < dims.0
                invariant
                    r <= dims.0,
                    c < dims.1,
                    matrix@.wf(),
                    dims.0 == matrix@.nrow,
                    dims.1 == matrix@.ncol(),
                    column@.len() == r,
                    forall|k: int|
                        0 <= k < r ==> (#[trigger] column@[k]) == matrix@.at(k, c as int).mul_spec(
                            self@.factor(k, c as int),
                        ),
                decreases dims.0 - r,
            {
                let entry = match matrix.index(r, c) {
                    Some(entry) => entry,
                    None => S::zero(),
                };
                column.push(entry.mul(self.factor(r, c)));
                r += 1;
            }
            assert(column@ =~= self@.masked(matrix@).columns[c as int]);
            columns.push(column);
            c += 1;
        }
        let built = Matrix::from_leading_columns(dims.0, &columns, dims.1);
        match built {
            Some(out) => {
                assert(out@.columns =~= self@.masked(matrix@).columns);
                out
            },
            None => {
                assert(false);
                matrix
            },
        }
    }

    /// Sends `input` through the layer.
    pub fn forward(&self, input: Matrix<S>) -> (out: Matrix<S>)
        ensures
            out@.wf(),
            out@ == self@.masked(input@),
            out@.nrow == input@.nrow,
            out@.ncol() == input@.ncol(),
    {
        self.masked(input)
    }

    /// Sends the gradient of the loss back through the layer: the entries that were dropped
    /// on the way forward pass no gradient, the others pass it scaled as they were.
    pub fn backward(&self, _epoch: usize, output_gradient: Matrix<S>) -> (out: Matrix<S>)
        ensures
            out@.wf(),
            out@ == self@.masked(output_gradient@),
            out@.nrow == output_gradient@.nrow,
            out@.ncol() == output_gradient@.ncol(),
    {
        self.masked(output_gradient)
    }
}

} // verus!
