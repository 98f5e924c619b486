//! How learnable tensors are filled before training.

use crate::linalg::Matrix;
use crate::scalar::Scalar;
use crate::vision::image::Image;
use vstd::prelude::*;

verus! {

/// The ways to fill a learnable tensor before training.
#[derive(Debug, Clone, Copy, PartialEq, Eq, Structural)]
pub enum Initializers {
    /// Zero everywhere.
    Zeros,
    /// Random numbers between zero and one.
    Uniform,
    /// Random numbers between minus one and one.
    UniformSigned,
    /// Random numbers between minus and plus the square root of six over the number of
    /// inputs plus the number of outputs.
    GlorotUniform,
}

impl Initializers {
    /// The number minus one.
    pub open spec fn minus_one<S: Scalar>() -> S {
        S::zero_spec().sub_spec(S::one_spec())
    }

    /// The bound of the Glorot initializer for `fan_in` inputs and `fan_out` outputs:
    /// `sqrt(6 / (fan_in + fan_out))`.
    pub open spec fn glorot_limit<S: Scalar>(fan_in: usize, fan_out: usize) -> S {
        S::from_count_spec(6).div_spec(
            S::from_count_spec(fan_in).add_spec(S::from_count_spec(fan_out)),
        ).sqrt_spec()
    }

    /// The range that the initializer draws from for a tensor with `fan_in` inputs and
    /// `fan_out` outputs: its lower and its upper end. None for the initializer that does
    /// not draw.
    pub open spec fn range<S: Scalar>(self, fan_in: usize, fan_out: usize) -> Option<(S, S)> {
        match self {
            Initializers::Zeros => None,
            Initializers::Uniform => Some((S::zero_spec(), S::one_spec())),
            Initializers::UniformSigned => Some((Self::minus_one::<S>(), S::one_spec())),
            Initializers::GlorotUniform => Some(
                (
                    S::zero_spec().sub_spec(Self::glorot_limit::<S>(fan_in, fan_out)),
                    Self::glorot_limit::<S>(fan_in, fan_out),
                ),
            ),
        }
    }

    /// Whether `value` is an entry that the initializer can give.
    pub open spec fn gives<S: Scalar>(self, fan_in: usize, fan_out: usize, value: S) -> bool {
        match self.range::<S>(fan_in, fan_out) {
            Some(range) => crate::random::is_uniform_draw(value, range.0, range.1),
            None => value == S::zero_spec(),
        }
    }

    /// The range that the initializer draws from, if it draws.
    pub fn get_range<S: Scalar>(&self, fan_in: usize, fan_out: usize) -> (out: Option<(S, S)>)
        ensures
            out == self.range::<S>(fan_in, fan_out),
    {
        match self {
            Initializers::Zeros => None,
            Initializers::Uniform => Some((S::zero(), S::one())),
            Initializers::UniformSigned => Some((S::zero().sub(S::one()), S::one())),
            Initializers::GlorotUniform => {
                let limit = S::from_count(6).div(
                    S::from_count(fan_in).add(S::from_count(fan_out)),
                ).sqrt();
                Some((S::zero().sub(limit), limit))
            },
        }
    }

    /// A matrix of `nrow` rows and `ncol` columns, filled by the initializer. Its columns
    /// count as inputs, its rows as outputs.
    pub fn gen_matrix<S: Scalar>(&self, nrow: usize, ncol: usize) -> (out: Matrix<S>)
        ensures
            out@.has_shape(nrow as nat, ncol as nat),
            forall|r: int, c: int|
                0 <= r < nrow && 0 <= c < ncol ==> self.gives(
                    ncol,
                    nrow,
                    #[trigger] out@.columns[c][r],
                ),
    {
        match self.get_range::<S>(ncol, nrow) {
            Some(range) => Matrix::random_uniform(nrow, ncol, range.0, range.1),
            None => Matrix::zeros(nrow, ncol),
        }
    }

    /// A matrix of one column of `nrow` rows, filled by the initializer.
    pub fn gen_vector<S: Scalar>(&self, nrow: usize) -> (out: Matrix<S>)
        ensures
            out@.has_shape(nrow as nat, 1),
            forall|r: int| 0 <= r < nrow ==> self.gives(1, nrow, #[trigger] out@.columns[0][r]),
    {
        self.gen_matrix(nrow, 1)
    }

    /// An image of the given dimensions, filled by the initializer. The entries of one
    /// sample over all but the last channel count as inputs, the samples as outputs.
    pub fn gen_image<S: Scalar>(
        &self,
        nrow: usize,
        ncol: usize,
        nchan: usize,
        samples: usize,
    ) -> (out: Image<S>)
        ensures
            out@.has_shape(nrow as nat, ncol as nat, nchan as nat, samples as nat),
            forall|r: int, c: int, ch: int, s: int|
                0 <= r < nrow && 0 <= c < ncol && 0 <= ch < nchan && 0 <= s < samples
                    ==> self.gives(nchan, samples, #[trigger] out@.at(r, c, ch, s)),
    {
        match self.get_range::<S>(nchan, samples) {
            Some(range) => Image::random_uniform(nrow, ncol, nchan, samples, range.0, range.1),
            None => Image::zeros(nrow, ncol, nchan, samples),
        }
    }
}

} // verus!
