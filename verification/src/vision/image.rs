//! Images: rank-4 tensors of rows, columns, channels and samples.

use crate::error::Error;
use crate::linalg::{BinaryOp, Matrix, MatrixView, UnaryOp};
use crate::scalar::Scalar;
use crate::vision::pooling::Place;
use vstd::prelude::*;

pub mod parts;

verus! {

/// Mathematical model of an image: for each sample its channels, each a plane of `nrow`
/// rows and `ncol` columns.
pub struct ImageView<S: Scalar> {
    pub nrow: nat,
    pub ncol: nat,
    pub nchan: nat,
    pub samples: Seq<Seq<MatrixView<S>>>,
}

impl<S: Scalar> ImageView<S> {
    /// The number of samples.
    pub open spec fn nsamples(self) -> nat {
        self.samples.len()
    }

    /// Every sample has `nchan` channels, each a plane of `nrow` rows and `ncol` columns.
    pub open spec fn wf(self) -> bool {
        forall|s: int|
            0 <= s < self.samples.len() ==> {
                &&& (#[trigger] self.samples[s]).len() == self.nchan
                &&& forall|ch: int|
                    0 <= ch < self.nchan ==> (#[trigger] self.samples[s][ch]).has_shape(
                        self.nrow,
                        self.ncol,
                    )
            }
    }

    /// Whether the image has these dimensions.
    pub open spec fn has_shape(self, nrow: nat, ncol: nat, nchan: nat, nsamples: nat) -> bool {
        &&& self.wf()
        &&& self.nrow == nrow
        &&& self.ncol == ncol
        &&& self.nchan == nchan
        &&& self.nsamples() == nsamples
    }

    /// The entry in row `r` and column `c` of channel `ch` of sample `s`.
    pub open spec fn at(self, r: int, c: int, ch: int, s: int) -> S {
        self.samples[s][ch].columns[c][r]
    }

    /// The image of the given dimensions whose planes are given by `plane`, from channel
    /// and sample.
    pub open spec fn tabulate(
        nrow: nat,
        ncol: nat,
        nchan: nat,
        nsamples: nat,
        plane: spec_fn(int, int) -> MatrixView<S>,
    ) -> Self {
        ImageView {
            nrow,
            ncol,
            nchan,
            samples: Seq::new(nsamples, |s: int| Seq::new(nchan, |ch: int| plane(ch, s))),
        }
    }

    /// The image of the given dimensions that holds `value` everywhere.
    pub open spec fn constant(nrow: nat, ncol: nat, nchan: nat, nsamples: nat, value: S) -> Self {
        Self::tabulate(
            nrow,
            ncol,
            nchan,
            nsamples,
            |ch: int, s: int| MatrixView::constant(nrow, ncol, value),
        )
    }

    /// Whether the two can be combined entry by entry: they have the same rows, columns
    /// and channels, and the same samples unless one of them has a single sample, which
    /// then stands for all.
    pub open spec fn fits(self, other: Self) -> bool {
        &&& self.nrow == other.nrow
        &&& self.ncol == other.ncol
        &&& self.nchan == other.nchan
        &&& (self.nsamples() == other.nsamples() || self.nsamples() == 1 || other.nsamples()
            == 1)
    }

    /// The sample of this image that is combined with sample `s` of the other operand.
    pub open spec fn broadcast(self, s: int) -> Seq<MatrixView<S>> {
        if self.nsamples() == 1 {
            self.samples[0]
        } else {
            self.samples[s]
        }
    }

    /// Two planes of one shape combined entry by entry.
    pub open spec fn zip_planes(op: BinaryOp, a: MatrixView<S>, b: MatrixView<S>) -> MatrixView<
        S,
    > {
        MatrixView {
            nrow: a.nrow,
            columns: Seq::new(a.ncol(), |c: int| op.zip(a.columns[c], b.columns[c])),
        }
    }

    /// The two images combined entry by entry; a single sample is combined with each
    /// sample of the other image.
    pub open spec fn zip(self, op: BinaryOp, other: Self) -> Self {
        Self::tabulate(
            self.nrow,
            self.ncol,
            self.nchan,
            if self.nsamples() == 1 {
                other.nsamples()
            } else {
                self.nsamples()
            },
            |ch: int, s: int| Self::zip_planes(op, self.broadcast(s)[ch], other.broadcast(s)[ch]),
        )
    }

    /// Each entry combined with `value`.
    pub open spec fn with_scalar(self, op: BinaryOp, value: S) -> Self {
        Self::tabulate(
            self.nrow,
            self.ncol,
            self.nchan,
            self.nsamples(),
            |ch: int, s: int| self.samples[s][ch].with_scalar(op, value),
        )
    }

    /// The operation applied to each entry.
    pub open spec fn map(self, op: UnaryOp) -> Self {
        Self::tabulate(
            self.nrow,
            self.ncol,
            self.nchan,
            self.nsamples(),
            |ch: int, s: int| self.samples[s][ch].map(op),
        )
    }

    /// The image with the roles of channels and samples exchanged: channel `ch` of sample
    /// `s` becomes channel `s` of sample `ch`.
    pub open spec fn exchanged(self) -> Self {
        Self::tabulate(
            self.nrow,
            self.ncol,
            self.nsamples(),
            self.nchan,
            |ch: int, s: int| self.samples[ch][s],
        )
    }

    /// The image of one sample that holds, entry by entry, the sum over the samples.
    pub open spec fn sum_samples(self) -> Self {
        Self::tabulate(
            self.nrow,
            self.ncol,
            self.nchan,
            1,
            |ch: int, s: int|
                MatrixView::sum_of(
                    self.nrow,
                    self.ncol,
                    Seq::new(self.nsamples(), |n: int| self.samples[n][ch]),
                ),
        )
    }

    /// Whether the image can be correlated with a bank of kernels: the kernels have an
    /// entry, fit into the planes, and have a channel for each channel of the image.
    pub open spec fn holds(self, kernels: Self) -> bool {
        &&& self.nchan == kernels.nchan
        &&& 1 <= kernels.nrow <= self.nrow
        &&& 1 <= kernels.ncol <= self.ncol
    }

    /// The cross-correlation of the image with a bank of kernels, one sample of the bank
    /// for each kernel: channel `f` of sample `n` of the result is the sum, over the
    /// channels, of the cross-correlation of that channel of sample `n` with that channel
    /// of kernel `f`.
    pub open spec fn cross_correlate(self, kernels: Self) -> Self {
        Self::tabulate(
            (self.nrow - kernels.nrow + 1) as nat,
            (self.ncol - kernels.ncol + 1) as nat,
            kernels.nsamples(),
            self.nsamples(),
            |f: int, n: int|
                MatrixView::sum_of(
                    (self.nrow - kernels.nrow + 1) as nat,
                    (self.ncol - kernels.ncol + 1) as nat,
                    Seq::new(
                        self.nchan,
                        |ch: int| self.samples[n][ch].cross_correlate(kernels.samples[f][ch]),
                    ),
                ),
        )
    }

    /// Whether the image can be convolved in full with a bank of kernels: the kernels have
    /// an entry and a channel for each channel of the image, and the result has a number of
    /// rows and of columns that the machine can count.
    pub open spec fn spreads(self, kernels: Self) -> bool {
        &&& self.nchan == kernels.nchan
        &&& 1 <= kernels.nrow
        &&& 1 <= kernels.ncol
        &&& self.nrow + kernels.nrow - 1 <= usize::MAX
        &&& self.ncol + kernels.ncol - 1 <= usize::MAX
    }

    /// The full convolution of the image with a bank of kernels: channel `f` of sample `n`
    /// of the result is the sum, over the channels, of the full convolution of that channel
    /// of sample `n` with that channel of kernel `f`.
    pub open spec fn convolve_full(self, kernels: Self) -> Self {
        Self::tabulate(
            (self.nrow + kernels.nrow - 1) as nat,
            (self.ncol + kernels.ncol - 1) as nat,
            kernels.nsamples(),
            self.nsamples(),
            |f: int, n: int|
                MatrixView::sum_of(
                    (self.nrow + kernels.nrow - 1) as nat,
                    (self.ncol + kernels.ncol - 1) as nat,
                    Seq::new(
                        self.nchan,
                        |ch: int| self.samples[n][ch].convolve_full(kernels.samples[f][ch]),
                    ),
                ),
        )
    }

    /// The image pooled by the mean over windows of `k` rows and `k` columns, plane by
    /// plane.
    pub open spec fn avg_pool(self, k: usize) -> Self {
        Self::tabulate(
            self.nrow / (k as nat),
            self.ncol / (k as nat),
            self.nchan,
            self.nsamples(),
            |ch: int, s: int| crate::vision::pooling::avg_pool_spec(self.samples[s][ch], k),
        )
    }

    /// The gradient of the mean pooling with respect to an image of `nrow` rows and `ncol`
    /// columns, plane by plane.
    pub open spec fn avg_unpool(self, k: usize, nrow: nat, ncol: nat) -> Self {
        Self::tabulate(
            nrow,
            ncol,
            self.nchan,
            self.nsamples(),
            |ch: int, s: int|
                crate::vision::pooling::avg_unpool_spec(self.samples[s][ch], k, nrow, ncol),
        )
    }

    /// The image pooled by the maximum over windows of `k` rows and `k` columns, plane by
    /// plane.
    pub open spec fn max_pool(self, k: usize) -> Self {
        Self::tabulate(
            self.nrow / (k as nat),
            self.ncol / (k as nat),
            self.nchan,
            self.nsamples(),
            |ch: int, s: int| crate::vision::pooling::max_pool_spec(self.samples[s][ch], k),
        )
    }

    /// Whether `places` holds, for each plane of the image, where the largest entry of each
    /// window stands.
    pub open spec fn records_max_places(self, places: Seq<Seq<Seq<Seq<Place>>>>, k: usize) -> bool {
        &&& places.len() == self.nsamples()
        &&& forall|s: int|
            0 <= s < places.len() ==> {
                &&& (#[trigger] places[s]).len() == self.nchan
                &&& forall|ch: int|
                    0 <= ch < self.nchan ==> crate::vision::pooling::records_max_places(
                        #[trigger] places[s][ch],
                        self.samples[s][ch],
                        k,
                    )
            }
    }

    /// The gradient of the maximum pooling with respect to an image of `nrow` rows and
    /// `ncol` columns, plane by plane.
    pub open spec fn max_unpool(
        self,
        places: Seq<Seq<Seq<Seq<Place>>>>,
        k: usize,
        nrow: nat,
        ncol: nat,
    ) -> Self {
        Self::tabulate(
            nrow,
            ncol,
            self.nchan,
            self.nsamples(),
            |ch: int, s: int|
                crate::vision::pooling::max_unpool_spec(
                    self.samples[s][ch],
                    places[s][ch],
                    k,
                    nrow,
                    ncol,
                ),
        )
    }

    /// Whether the tables of places have an entry for each entry of the image.
    pub open spec fn covered_by(self, places: Seq<Vec<Vec<Vec<Place>>>>) -> bool {
        &&& places.len() == self.nsamples()
        &&& forall|s: int|
            0 <= s < places.len() ==> {
                &&& (#[trigger] places[s])@.len() == self.nchan
                &&& forall|ch: int|
                    0 <= ch < self.nchan ==> {
                        &&& (#[trigger] places[s]@[ch])@.len() == self.ncol
                        &&& forall|c: int|
                            0 <= c < self.ncol ==> (#[trigger] places[s]@[ch]@[c])@.len()
                                == self.nrow
                    }
            }
    }

    /// Whether `n` is the square of a number.
    pub open spec fn is_square(n: nat) -> bool {
        exists|side: nat| #[trigger] (side * side) == n
    }

    /// Whether a matrix of `rows` rows holds, in each column, one sample of a square image
    /// of `channels` channels.
    pub open spec fn holds_images(rows: nat, channels: usize) -> bool {
        &&& channels >= 1
        &&& rows % (channels as nat) == 0
        &&& Self::is_square(rows / (channels as nat))
    }

    /// The number whose square `n` is.
    pub open spec fn side_spec(n: nat) -> nat {
        choose|side: nat| #[trigger] (side * side) == n
    }

    /// Planes without entries: `nchan` of them, of `nrow` rows and `ncol` columns, of which
    /// one is zero.
    pub open spec fn empty_planes(nrow: nat, ncol: nat, nchan: nat) -> Seq<MatrixView<S>> {
        Seq::new(
            nchan,
            |ch: int| MatrixView { nrow, columns: Seq::new(ncol, |c: int| Seq::<S>::empty()) },
        )
    }

    /// The planes of one sample, read back from the list of its entries: the list is cut
    /// into `nchan` channels, and each channel into columns of `nrow` entries. Nothing where
    /// the list does not hold exactly that.
    pub open spec fn unflatten_sample(data: Seq<S>, nrow: nat, ncol: nat, nchan: nat) -> Option<
        Seq<MatrixView<S>>,
    > {
        if nrow == 0 || ncol == 0 {
            if data.len() == 0 {
                Some(Self::empty_planes(nrow, ncol, nchan))
            } else {
                None
            }
        } else {
            let flats = crate::vision::layout::pieces(data, ncol * nrow);
            if flats.len() == nchan && crate::vision::layout::concat(flats) == data {
                Some(
                    Seq::new(
                        nchan,
                        |ch: int|
                            MatrixView {
                                nrow,
                                columns: crate::vision::layout::pieces(flats[ch], nrow),
                            },
                    ),
                )
            } else {
                None
            }
        }
    }

    /// Whether the columns of a matrix each hold one sample of an image of these
    /// dimensions.
    pub open spec fn holds_samples(matrix: MatrixView<S>, nrow: nat, ncol: nat, nchan: nat) -> bool {
        &&& matrix.nrow == nchan * (ncol * nrow)
        &&& forall|s: int|
            0 <= s < matrix.ncol() ==> Self::unflatten_sample(
                #[trigger] matrix.columns[s],
                nrow,
                ncol,
                nchan,
            ) is Some
    }

    /// The image of these dimensions that the columns of a matrix hold, one sample in each
    /// column.
    pub open spec fn unflatten(matrix: MatrixView<S>, nrow: nat, ncol: nat, nchan: nat) -> Self {
        ImageView {
            nrow,
            ncol,
            nchan,
            samples: Seq::new(
                matrix.ncol(),
                |s: int| Self::unflatten_sample(matrix.columns[s], nrow, ncol, nchan)->0,
            ),
        }
    }

    /// Whether each of the lists holds one sample of an image of these dimensions.
    pub open spec fn holds_vectors(vectors: Seq<Seq<S>>, nrow: nat, ncol: nat, nchan: nat) -> bool {
        forall|s: int|
            0 <= s < vectors.len() ==> Self::unflatten_sample(
                #[trigger] vectors[s],
                nrow,
                ncol,
                nchan,
            ) is Some
    }

    /// The image of these dimensions that the lists hold, one sample in each list.
    pub open spec fn from_vectors(vectors: Seq<Seq<S>>, nrow: nat, ncol: nat, nchan: nat) -> Self {
        ImageView {
            nrow,
            ncol,
            nchan,
            samples: Seq::new(
                vectors.len(),
                |s: int| Self::unflatten_sample(vectors[s], nrow, ncol, nchan)->0,
            ),
        }
    }

    /// The square image of `channels` channels that the columns of a matrix hold.
    pub open spec fn unflatten_square(matrix: MatrixView<S>, channels: usize) -> Self {
        let side = Self::side_spec(matrix.nrow / (channels as nat));
        Self::unflatten(matrix, side, side, channels as nat)
    }

    /// The entries of sample `s` in one list: channel after channel, each channel column
    /// after column.
    pub open spec fn flat_sample(self, s: int) -> Seq<S> {
        crate::vision::layout::concat(Seq::new(self.nchan, |ch: int| crate::vision::layout::concat(self.samples[s][ch].columns)))
    }

    /// The image as a matrix with one column for each sample.
    pub open spec fn flatten(self) -> MatrixView<S> {
        MatrixView {
            nrow: if self.nsamples() == 0 {
                0
            } else {
                self.flat_sample(0).len()
            },
            columns: Seq::new(self.nsamples(), |s: int| self.flat_sample(s)),
        }
    }
}

/// An image of numbers: for each sample its channels, each a matrix.
#[derive(Debug)]
pub struct Image<S: Scalar> {
    nrow: usize,
    ncol: usize,
    nchan: usize,
    samples: Vec<Vec<Matrix<S>>>,
}

impl<S: Scalar> View for Image<S> {
    type V = ImageView<S>;

    closed spec fn view(&self) -> ImageView<S> {
        ImageView {
            nrow: self.nrow as nat,
            ncol: self.ncol as nat,
            nchan: self.nchan as nat,
            samples: self.samples@.map_values(
                |sample: Vec<Matrix<S>>| sample@.map_values(|plane: Matrix<S>| plane@),
            ),
        }
    }
}

impl<S: Scalar> Image<S> {
    #[verifier::type_invariant]
    spec fn well_formed(&self) -> bool {
        forall|s: int|
            0 <= s < self.samples@.len() ==> {
                &&& (#[trigger] self.samples@[s])@.len() == self.nchan
                &&& forall|ch: int|
                    0 <= ch < self.nchan ==> (#[trigger] self.samples@[s]@[ch])@.has_shape(
                        self.nrow as nat,
                        self.ncol as nat,
                    )
            }
    }

    /// The planes of a list of samples.
    pub open spec fn planes_view(samples: Seq<Vec<Matrix<S>>>) -> Seq<Seq<MatrixView<S>>> {
        samples.map_values(|sample: Vec<Matrix<S>>| sample@.map_values(|plane: Matrix<S>| plane@))
    }

    /// The image of the given planes.
    fn assemble(nrow: usize, ncol: usize, nchan: usize, samples: Vec<Vec<Matrix<S>>>) -> (out:
        Self)
        requires
            forall|s: int|
                0 <= s < samples@.len() ==> {
                    &&& (#[trigger] samples@[s])@.len() == nchan
                    &&& forall|ch: int|
                        0 <= ch < nchan ==> (#[trigger] samples@[s]@[ch])@.has_shape(
                            nrow as nat,
                            ncol as nat,
                        )
                },
        ensures
            out@.wf(),
            out@ == (ImageView {
                nrow: nrow as nat,
                ncol: ncol as nat,
                nchan: nchan as nat,
                samples: Self::planes_view(samples@),
            }),
    {
        let out = Image { nrow, ncol, nchan, samples };
        proof {
            assert forall|s: int| 0 <= s < out@.samples.len() implies {
                &&& (#[trigger] out@.samples[s]).len() == out@.nchan
                &&& forall|ch: int|
                    0 <= ch < out@.nchan ==> (#[trigger] out@.samples[s][ch]).has_shape(
                        out@.nrow,
                        out@.ncol,
                    )
            } by {
                assert(out@.samples[s] == samples@[s]@.map_values(|plane: Matrix<S>| plane@));
                assert forall|ch: int| 0 <= ch < out@.nchan implies (
                #[trigger] out@.samples[s][ch]).has_shape(out@.nrow, out@.ncol) by {
                    assert(out@.samples[s][ch] == samples@[s]@[ch]@);
                }
            }
        }
        out
    }

    /// The dimensions of each sample: rows, columns and channels. Every sample of an image
    /// has as many channels, each a plane of as many rows and columns.
    pub fn image_dims(&self) -> (dims: (usize, usize, usize))
        ensures
            dims.0 == self@.nrow,
            dims.1 == self@.ncol,
            dims.2 == self@.nchan,
            self@.wf(),
    {
        proof {
            use_type_invariant(self);
            assert forall|s: int| 0 <= s < self@.samples.len() implies {
                &&& (#[trigger] self@.samples[s]).len() == self@.nchan
                &&& forall|ch: int|
                    0 <= ch < self@.nchan ==> (#[trigger] self@.samples[s][ch]).has_shape(
                        self@.nrow,
                        self@.ncol,
                    )
            } by {
                assert(self@.samples[s] == self.samples@[s]@.map_values(
                    |plane: Matrix<S>| plane@,
                ));
                assert forall|ch: int| 0 <= ch < self@.nchan implies (
                #[trigger] self@.samples[s][ch]).has_shape(self@.nrow, self@.ncol) by {
                    assert(self@.samples[s][ch] == self.samples@[s]@[ch]@);
                }
            }
        }
        (self.nrow, self.ncol, self.nchan)
    }

    /// The number of channels.
    pub fn channels(&self) -> (channels: usize)
        ensures
            channels == self@.nchan,
    {
        self.nchan
    }

    /// The number of samples.
    pub fn samples(&self) -> (samples: usize)
        ensures
            samples == self@.nsamples(),
    {
        self.samples.len()
    }

    /// The plane of channel `ch` of sample `s`, which the image has.
    fn plane(&self, ch: usize, s: usize) -> (plane: &Matrix<S>)
        requires
            ch < self@.nchan,
            s < self@.nsamples(),
        ensures
            plane@ == self@.samples[s as int][ch as int],
            plane@.has_shape(self@.nrow, self@.ncol),
    {
        proof {
            use_type_invariant(self);
            assert(self@.samples[s as int] == self.samples@[s as int]@.map_values(
                |plane: Matrix<S>| plane@,
            ));
        }
        &self.samples[s][ch]
    }

    /// The image of the given dimensions that holds `value` everywhere.
    pub fn constant(nrow: usize, ncol: usize, nchan: usize, samples: usize, value: S) -> (out:
        Self)
        ensures
            out@.wf(),
            out@ == ImageView::constant(
                nrow as nat,
                ncol as nat,
                nchan as nat,
                samples as nat,
                value,
            ),
    {
        let ghost wanted = ImageView::constant(
            nrow as nat,
            ncol as nat,
            nchan as nat,
            samples as nat,
            value,
        );
        let mut all: Vec<Vec<Matrix<S>>> = Vec::new();
        let mut s: usize = 0;
        while s < samples
            invariant
                s <= samples,
                all@.len() == s,
                forall|n: int|
                    0 <= n < s ==> {
                        &&& (#[trigger] all@[n])@.len() == nchan
                        &&& forall|ch: int|
                            0 <= ch < nchan ==> (#[trigger] all@[n]@[ch])@
                                == MatrixView::constant(nrow as nat, ncol as nat, value)
                                && all@[n]@[ch]@.wf()
                    },
            decreases samples - s,
        {
            let mut planes: Vec<Matrix<S>> = Vec::new();
            let mut ch: usize = 0;
            while ch < nchan
                invariant
                    ch <= nchan,
                    planes@.len() == ch,
                    forall|k: int|
                        0 <= k < ch ==> (#[trigger] planes@[k])@ == MatrixView::constant(
                            nrow as nat,
                            ncol as nat,
                            value,
                        ) && planes@[k]@.wf(),
                decreases nchan - ch,
            {
                planes.push(Matrix::constant(nrow, ncol, value));
                ch += 1;
            }
            all.push(planes);
            s += 1;
        }
        let out = Image::assemble(nrow, ncol, nchan, all);
        proof {
            assert forall|n: int| 0 <= n < samples implies out@.samples[n]
                =~= wanted.samples[n] by {
                assert(out@.samples[n] == all@[n]@.map_values(|plane: Matrix<S>| plane@));
                assert forall|ch: int| 0 <= ch < nchan implies out@.samples[n][ch]
                    == wanted.samples[n][ch] by {
                    assert(out@.samples[n][ch] == all@[n]@[ch]@);
                }
            }
            assert(out@.samples =~= wanted.samples);
        }
        out
    }

    /// The image of the given dimensions that holds zero everywhere.
    pub fn zeros(nrow: usize, ncol: usize, nchan: usize, samples: usize) -> (out: Self)
        ensures
            out@.wf(),
            out@ == ImageView::constant(
                nrow as nat,
                ncol as nat,
                nchan as nat,
                samples as nat,
                S::zero_spec(),
            ),
    {
        Image::constant(nrow, ncol, nchan, samples, S::zero())
    }

    /// The image of the given dimensions whose planes `make` computes, from channel and
    /// sample.
    fn build<F: Fn(usize, usize) -> Matrix<S>>(
        nrow: usize,
        ncol: usize,
        nchan: usize,
        samples: usize,
        make: F,
        Ghost(plane): Ghost<spec_fn(int, int) -> MatrixView<S>>,
    ) -> (out: Self)
        requires
            forall|ch: usize, s: usize| ch < nchan && s < samples ==> call_requires(make, (ch, s)),
            forall|ch: usize, s: usize, made: Matrix<S>|
                ch < nchan && s < samples && call_ensures(make, (ch, s), made) ==> made@ == plane(
                    ch as int,
                    s as int,
                ) && made@.has_shape(nrow as nat, ncol as nat),
        ensures
            out@.wf(),
            out@ == ImageView::tabulate(
                nrow as nat,
                ncol as nat,
                nchan as nat,
                samples as nat,
                plane,
            ),
    {
        let ghost wanted = ImageView::tabulate(
            nrow as nat,
            ncol as nat,
            nchan as nat,
            samples as nat,
            plane,
        );
        let mut all: Vec<Vec<Matrix<S>>> = Vec::new();
        let mut s: usize = 0;
        while s < samples
            invariant
                forall|ch: usize, s: usize|
                    ch < nchan && s < samples ==> call_requires(make, (ch, s)),
                forall|ch: usize, s: usize, made: Matrix<S>|
                    ch < nchan && s < samples && call_ensures(make, (ch, s), made) ==> made@
                        == plane(ch as int, s as int) && made@.has_shape(
                        nrow as nat,
                        ncol as nat,
                    ),
                s <= samples,
                all@.len() == s,
                forall|n: int|
                    0 <= n < s ==> {
                        &&& (#[trigger] all@[n])@.len() == nchan
                        &&& forall|ch: int|
                            0 <= ch < nchan ==> (#[trigger] all@[n]@[ch])@ == plane(ch, n)
                                && all@[n]@[ch]@.has_shape(nrow as nat, ncol as nat)
                    },
            decreases samples - s,
        {
            let mut planes: Vec<Matrix<S>> = Vec::new();
            let mut ch: usize = 0;
            while ch < nchan
                invariant
                    forall|ch: usize, s: usize|
                        ch < nchan && s < samples ==> call_requires(make, (ch, s)),
                    forall|ch: usize, s: usize, made: Matrix<S>|
                        ch < nchan && s < samples && call_ensures(make, (ch, s), made) ==> made@
                            == plane(ch as int, s as int) && made@.has_shape(
                            nrow as nat,
                            ncol as nat,
                        ),
                    s < samples,
                    ch <= nchan,
                    planes@.len() == ch,
                    forall|k: int|
                        0 <= k < ch ==> (#[trigger] planes@[k])@ == plane(k, s as int)
                            && planes@[k]@.has_shape(nrow as nat, ncol as nat),
                decreases nchan - ch,
            {
                planes.push(make(ch, s));
                ch += 1;
            }
            all.push(planes);
            s += 1;
        }
        let out = Image::assemble(nrow, ncol, nchan, all);
        proof {
            assert forall|n: int| 0 <= n < samples implies out@.samples[n]
                =~= wanted.samples[n] by {
                assert(out@.samples[n] == all@[n]@.map_values(|plane: Matrix<S>| plane@));
                assert forall|ch: int| 0 <= ch < nchan implies out@.samples[n][ch]
                    == wanted.samples[n][ch] by {
                    assert(out@.samples[n][ch] == all@[n]@[ch]@);
                }
            }
            assert(out@.samples =~= wanted.samples);
        }
        out
    }

    /// Combines the two images entry by entry. Where one of them has a single sample, it is
    /// combined with each sample of the other.
    pub fn zip_with(&self, op: BinaryOp, other: &Self) -> (out: Result<Self, Error>)
        ensures
            out matches Ok(image) ==> image@.wf(),
            out is Ok <==> self@.fits(other@),
            out matches Ok(image) ==> image@ == self@.zip(op, other@),
            out matches Err(error) ==> error == Error::ShapeMismatch,
    {
        let dims = self.image_dims();
        let other_dims = other.image_dims();
        let n = self.samples();
        let m = other.samples();
        if dims.0 != other_dims.0 || dims.1 != other_dims.1 || dims.2 != other_dims.2 || !(n == m
            || n == 1 || m == 1) {
            return Err(Error::ShapeMismatch);
        }
        let samples = if n == 1 {
            m
        } else {
            n
        };
        let ghost plane = |ch: int, s: int|
            ImageView::zip_planes(op, self@.broadcast(s)[ch], other@.broadcast(s)[ch]);
        let make = |ch: usize, s: usize| -> (made: Matrix<S>)
            requires
                ch < dims.2,
                s < samples,
            ensures
                made@ == plane(ch as int, s as int),
                made@.has_shape(dims.0 as nat, dims.1 as nat),
            {
                let a = self.plane(
                    ch,
                    if n == 1 {
                        0
                    } else {
                        s
                    },
                );
                let b = other.plane(
                    ch,
                    if m == 1 {
                        0
                    } else {
                        s
                    },
                );
                Self::zip_planes(op, a, b)
            };
        Ok(Image::build(dims.0, dims.1, dims.2, samples, make, Ghost(plane)))
    }

    /// Two planes of one shape combined entry by entry.
    fn zip_planes(op: BinaryOp, a: &Matrix<S>, b: &Matrix<S>) -> (out: Matrix<S>)
        requires
            a@.wf(),
            b@.has_shape(a@.nrow, a@.ncol()),
        ensures
            out@ == ImageView::zip_planes(op, a@, b@),
            out@.has_shape(a@.nrow, a@.ncol()),
    {
        match a.zip_with(op, b) {
            Ok(out) => {
                proof {
                    let wanted = ImageView::zip_planes(op, a@, b@);
                    assert forall|c: int| 0 <= c < a@.ncol() implies out@.columns[c]
                        == wanted.columns[c] by {
                        assert(a@.broadcast(c) == a@.columns[c]);
                        assert(b@.broadcast(c) == b@.columns[c]);
                    }
                    assert(out@.columns =~= wanted.columns);
                }
                out
            },
            Err(_) => {
                assert(false);
                Matrix::zeros(0, 0)
            },
        }
    }

    /// Combines each entry with `value`.
    pub fn scalar_with(&self, op: BinaryOp, value: S) -> (out: Self)
        ensures
            out@.wf(),
            out@ == self@.with_scalar(op, value),
    {
        let dims = self.image_dims();
        let samples = self.samples();
        let ghost plane = |ch: int, s: int| self@.samples[s][ch].with_scalar(op, value);
        let make = |ch: usize, s: usize| -> (made: Matrix<S>)
            requires
                ch < dims.2,
                s < samples,
            ensures
                made@ == plane(ch as int, s as int),
                made@.has_shape(dims.0 as nat, dims.1 as nat),
            {
                self.plane(ch, s).scalar_with(op, value)
            };
        Image::build(dims.0, dims.1, dims.2, samples, make, Ghost(plane))
    }

    /// Applies `op` to each entry.
    pub fn map_with(&self, op: UnaryOp) -> (out: Self)
        ensures
            out@.wf(),
            out@ == self@.map(op),
    {
        let dims = self.image_dims();
        let samples = self.samples();
        let ghost plane = |ch: int, s: int| self@.samples[s][ch].map(op);
        let make = |ch: usize, s: usize| -> (made: Matrix<S>)
            requires
                ch < dims.2,
                s < samples,
            ensures
                made@ == plane(ch as int, s as int),
                made@.has_shape(dims.0 as nat, dims.1 as nat),
            {
                self.plane(ch, s).map_with(op)
            };
        Image::build(dims.0, dims.1, dims.2, samples, make, Ghost(plane))
    }

    /// The image with the roles of channels and samples exchanged.
    pub fn exchanged(&self) -> (out: Self)
        ensures
            out@.wf(),
            out@ == self@.exchanged(),
    {
        let dims = self.image_dims();
        let samples = self.samples();
        let ghost plane = |ch: int, s: int| self@.samples[ch][s];
        let make = |ch: usize, s: usize| -> (made: Matrix<S>)
            requires
                ch < samples,
                s < dims.2,
            ensures
                made@ == plane(ch as int, s as int),
                made@.has_shape(dims.0 as nat, dims.1 as nat),
            {
                self.plane(s, ch).clone()
            };
        Image::build(dims.0, dims.1, samples, dims.2, make, Ghost(plane))
    }

    /// The sum over the samples of the planes of channel `ch`.
    fn summed_channel(&self, ch: usize) -> (out: Matrix<S>)
        requires
            ch < self@.nchan,
        ensures
            out@ == MatrixView::sum_of(
                self@.nrow,
                self@.ncol,
                Seq::new(self@.nsamples(), |n: int| self@.samples[n][ch as int]),
            ),
            out@.has_shape(self@.nrow, self@.ncol),
    {
        let dims = self.image_dims();
        let ghost wanted = Seq::new(self@.nsamples(), |n: int| self@.samples[n][ch as int]);
        let mut planes: Vec<Matrix<S>> = Vec::new();
        let mut n: usize = 0;
        while n < self.samples()
            invariant
                ch < self@.nchan,
                dims.0 == self@.nrow,
                dims.1 == self@.ncol,
                n <= self@.nsamples(),
                planes@.len() == n,
                forall|k: int|
                    0 <= k < n ==> (#[trigger] planes@[k])@ == self@.samples[k][ch as int]
                        && planes@[k]@.has_shape(dims.0 as nat, dims.1 as nat),
            decreases self@.nsamples() - n,
        {
            planes.push(self.plane(ch, n).clone());
            n += 1;
        }
        assert(planes@.map_values(|plane: Matrix<S>| plane@) =~= wanted);
        match Matrix::sum_of(dims.0, dims.1, &planes) {
            Ok(total) => {
                proof {
                    Self::lemma_sum_of_shape(dims.0 as nat, dims.1 as nat, wanted);
                }
                total
            },
            Err(_) => {
                assert(false);
                Matrix::zeros(0, 0)
            },
        }
    }

    /// A sum of planes has the shape it is asked for.
    pub proof fn lemma_sum_of_shape(nrow: nat, ncol: nat, planes: Seq<MatrixView<S>>)
        ensures
            MatrixView::sum_of(nrow, ncol, planes).has_shape(nrow, ncol),
    {
        let total = MatrixView::sum_of(nrow, ncol, planes);
        assert forall|c: int| 0 <= c < total.columns.len() implies (#[trigger] total.columns[c]).len()
            == total.nrow by {}
    }

    /// The image of one sample that holds, entry by entry, the sum over the samples.
    pub fn sum_samples(&self) -> (out: Self)
        ensures
            out@.wf(),
            out@ == self@.sum_samples(),
    {
        let dims = self.image_dims();
        let ghost plane = |ch: int, s: int|
            MatrixView::sum_of(
                self@.nrow,
                self@.ncol,
                Seq::new(self@.nsamples(), |n: int| self@.samples[n][ch]),
            );
        let make = |ch: usize, s: usize| -> (made: Matrix<S>)
            requires
                ch < dims.2,
                s < 1,
            ensures
                made@ == plane(ch as int, s as int),
                made@.has_shape(dims.0 as nat, dims.1 as nat),
            {
                self.summed_channel(ch)
            };
        Image::build(dims.0, dims.1, dims.2, 1, make, Ghost(plane))
    }

    /// Channel `f` of sample `n` of the cross-correlation with `kernels`.
    fn correlated_plane(&self, kernels: &Self, f: usize, n: usize) -> (out: Matrix<S>)
        requires
            self@.holds(kernels@),
            f < kernels@.nsamples(),
            n < self@.nsamples(),
        ensures
            out@ == MatrixView::sum_of(
                (self@.nrow - kernels@.nrow + 1) as nat,
                (self@.ncol - kernels@.ncol + 1) as nat,
                Seq::new(
                    self@.nchan,
                    |ch: int|
                        self@.samples[n as int][ch].cross_correlate(
                            kernels@.samples[f as int][ch],
                        ),
                ),
            ),
            out@.has_shape(
                (self@.nrow - kernels@.nrow + 1) as nat,
                (self@.ncol - kernels@.ncol + 1) as nat,
            ),
    {
        let dims = self.image_dims();
        let kernel_dims = kernels.image_dims();
        let nrow = dims.0 - kernel_dims.0 + 1;
        let ncol = dims.1 - kernel_dims.1 + 1;
        let ghost wanted = Seq::new(
            self@.nchan,
            |ch: int| self@.samples[n as int][ch].cross_correlate(kernels@.samples[f as int][ch]),
        );
        let mut planes: Vec<Matrix<S>> = Vec::new();
        let mut ch: usize = 0;
        while ch < dims.2
            invariant
                self@.holds(kernels@),
                f < kernels@.nsamples(),
                n < self@.nsamples(),
                dims.2 == self@.nchan,
                nrow == self@.nrow - kernels@.nrow + 1,
                ncol == self@.ncol - kernels@.ncol + 1,
                ch <= dims.2,
                planes@.len() == ch,
                forall|k: int|
                    0 <= k < ch ==> (#[trigger] planes@[k])@
                        == self@.samples[n as int][k].cross_correlate(
                        kernels@.samples[f as int][k],
                    ) && planes@[k]@.has_shape(nrow as nat, ncol as nat),
            decreases dims.2 - ch,
        {
            let signal = self.plane(ch, n);
            let kernel = kernels.plane(ch, f);
            match signal.cross_correlate(kernel) {
                Ok(plane) => {
                    planes.push(plane);
                },
                Err(_) => {
                    assert(false);
                },
            }
            ch += 1;
        }
        assert(planes@.map_values(|plane: Matrix<S>| plane@) =~= wanted);
        match Matrix::sum_of(nrow, ncol, &planes) {
            Ok(total) => {
                proof {
                    Self::lemma_sum_of_shape(nrow as nat, ncol as nat, wanted);
                }
                total
            },
            Err(_) => {
                assert(false);
                Matrix::zeros(0, 0)
            },
        }
    }

    /// The cross-correlation of the image with a bank of kernels, which must have an entry,
    /// fit into the planes, and have a channel for each channel of the image. The result
    /// has a channel for each kernel.
    pub fn cross_correlate(&self, kernels: &Self) -> (out: Result<Self, Error>)
        ensures
            out matches Ok(image) ==> image@.wf(),
            out is Ok <==> self@.holds(kernels@),
            out matches Ok(image) ==> image@ == self@.cross_correlate(kernels@),
            out matches Err(error) ==> error == Error::ShapeMismatch,
    {
        let dims = self.image_dims();
        let kernel_dims = kernels.image_dims();
        if dims.2 != kernel_dims.2 || kernel_dims.0 == 0 || kernel_dims.1 == 0 || kernel_dims.0
            > dims.0 || kernel_dims.1 > dims.1 {
            return Err(Error::ShapeMismatch);
        }
        let nrow = dims.0 - kernel_dims.0 + 1;
        let ncol = dims.1 - kernel_dims.1 + 1;
        let filters = kernels.samples();
        let samples = self.samples();
        let ghost plane = |f: int, n: int|
            MatrixView::sum_of(
                (self@.nrow - kernels@.nrow + 1) as nat,
                (self@.ncol - kernels@.ncol + 1) as nat,
                Seq::new(
                    self@.nchan,
                    |ch: int| self@.samples[n][ch].cross_correlate(kernels@.samples[f][ch]),
                ),
            );
        let make = |f: usize, n: usize| -> (made: Matrix<S>)
            requires
                f < filters,
                n < samples,
            ensures
                made@ == plane(f as int, n as int),
                made@.has_shape(nrow as nat, ncol as nat),
            {
                self.correlated_plane(kernels, f, n)
            };
        Ok(Image::build(nrow, ncol, filters, samples, make, Ghost(plane)))
    }

    /// Channel `f` of sample `n` of the full convolution with `kernels`.
    fn convolved_plane(&self, kernels: &Self, f: usize, n: usize) -> (out: Matrix<S>)
        requires
            self@.spreads(kernels@),
            f < kernels@.nsamples(),
            n < self@.nsamples(),
        ensures
            out@ == MatrixView::sum_of(
                (self@.nrow + kernels@.nrow - 1) as nat,
                (self@.ncol + kernels@.ncol - 1) as nat,
                Seq::new(
                    self@.nchan,
                    |ch: int|
                        self@.samples[n as int][ch].convolve_full(kernels@.samples[f as int][ch]),
                ),
            ),
            out@.has_shape(
                (self@.nrow + kernels@.nrow - 1) as nat,
                (self@.ncol + kernels@.ncol - 1) as nat,
            ),
    {
        let dims = self.image_dims();
        let kernel_dims = kernels.image_dims();
        let nrow = dims.0 + (kernel_dims.0 - 1);
        let ncol = dims.1 + (kernel_dims.1 - 1);
        let ghost wanted = Seq::new(
            self@.nchan,
            |ch: int| self@.samples[n as int][ch].convolve_full(kernels@.samples[f as int][ch]),
        );
        let mut planes: Vec<Matrix<S>> = Vec::new();
        let mut ch: usize = 0;
        while ch < dims.2
            invariant
                self@.spreads(kernels@),
                f < kernels@.nsamples(),
                n < self@.nsamples(),
                dims.2 == self@.nchan,
                nrow == self@.nrow + kernels@.nrow - 1,
                ncol == self@.ncol + kernels@.ncol - 1,
                ch <= dims.2,
                planes@.len() == ch,
                forall|k: int|
                    0 <= k < ch ==> (#[trigger] planes@[k])@
                        == self@.samples[n as int][k].convolve_full(
                        kernels@.samples[f as int][k],
                    ) && planes@[k]@.has_shape(nrow as nat, ncol as nat),
            decreases dims.2 - ch,
        {
            let signal = self.plane(ch, n);
            let kernel = kernels.plane(ch, f);
            match signal.convolve_full(kernel) {
                Ok(plane) => {
                    planes.push(plane);
                },
                Err(_) => {
                    assert(false);
                },
            }
            ch += 1;
        }
        assert(planes@.map_values(|plane: Matrix<S>| plane@) =~= wanted);
        match Matrix::sum_of(nrow, ncol, &planes) {
            Ok(total) => {
                proof {
                    Self::lemma_sum_of_shape(nrow as nat, ncol as nat, wanted);
                }
                total
            },
            Err(_) => {
                assert(false);
                Matrix::zeros(0, 0)
            },
        }
    }

    /// The full convolution of the image with a bank of kernels, which must have an entry
    /// and a channel for each channel of the image. The result has a channel for each
    /// kernel.
    pub fn convolve_full(&self, kernels: &Self) -> (out: Result<Self, Error>)
        ensures
            out matches Ok(image) ==> image@.wf(),
            out is Ok <==> self@.spreads(kernels@),
            out matches Ok(image) ==> image@ == self@.convolve_full(kernels@),
            out matches Err(error) ==> error == Error::ShapeMismatch,
    {
        let dims = self.image_dims();
        let kernel_dims = kernels.image_dims();
        if dims.2 != kernel_dims.2 || kernel_dims.0 == 0 || kernel_dims.1 == 0 {
            return Err(Error::ShapeMismatch);
        }
        if kernel_dims.0 - 1 > usize::MAX - dims.0 || kernel_dims.1 - 1 > usize::MAX - dims.1 {
            return Err(Error::ShapeMismatch);
        }
        let nrow = dims.0 + (kernel_dims.0 - 1);
        let ncol = dims.1 + (kernel_dims.1 - 1);
        let filters = kernels.samples();
        let samples = self.samples();
        let ghost plane = |f: int, n: int|
            MatrixView::sum_of(
                (self@.nrow + kernels@.nrow - 1) as nat,
                (self@.ncol + kernels@.ncol - 1) as nat,
                Seq::new(
                    self@.nchan,
                    |ch: int| self@.samples[n][ch].convolve_full(kernels@.samples[f][ch]),
                ),
            );
        let make = |f: usize, n: usize| -> (made: Matrix<S>)
            requires
                f < filters,
                n < samples,
            ensures
                made@ == plane(f as int, n as int),
                made@.has_shape(nrow as nat, ncol as nat),
            {
                self.convolved_plane(kernels, f, n)
            };
        Ok(Image::build(nrow, ncol, filters, samples, make, Ghost(plane)))
    }

    /// The sum of the two images, entry by entry.
    pub fn component_add(&self, other: &Self) -> (out: Result<Self, Error>)
        ensures
            out matches Ok(image) ==> image@.wf(),
            out is Ok <==> self@.fits(other@),
            out matches Ok(image) ==> image@ == self@.zip(BinaryOp::Add, other@),
            out matches Err(error) ==> error == Error::ShapeMismatch,
    {
        self.zip_with(BinaryOp::Add, other)
    }

    /// The difference of the two images, entry by entry.
    pub fn component_sub(&self, other: &Self) -> (out: Result<Self, Error>)
        ensures
            out matches Ok(image) ==> image@.wf(),
            out is Ok <==> self@.fits(other@),
            out matches Ok(image) ==> image@ == self@.zip(BinaryOp::Sub, other@),
            out matches Err(error) ==> error == Error::ShapeMismatch,
    {
        self.zip_with(BinaryOp::Sub, other)
    }

    /// The product of the two images, entry by entry.
    pub fn component_mul(&self, other: &Self) -> (out: Result<Self, Error>)
        ensures
            out matches Ok(image) ==> image@.wf(),
            out is Ok <==> self@.fits(other@),
            out matches Ok(image) ==> image@ == self@.zip(BinaryOp::Mul, other@),
            out matches Err(error) ==> error == Error::ShapeMismatch,
    {
        self.zip_with(BinaryOp::Mul, other)
    }

    /// The quotient of the two images, entry by entry.
    pub fn component_div(&self, other: &Self) -> (out: Result<Self, Error>)
        ensures
            out matches Ok(image) ==> image@.wf(),
            out is Ok <==> self@.fits(other@),
            out matches Ok(image) ==> image@ == self@.zip(BinaryOp::Div, other@),
            out matches Err(error) ==> error == Error::ShapeMismatch,
    {
        self.zip_with(BinaryOp::Div, other)
    }

    /// The larger entry of the two images, entry by entry.
    pub fn maxof(&self, other: &Self) -> (out: Result<Self, Error>)
        ensures
            out matches Ok(image) ==> image@.wf(),
            out is Ok <==> self@.fits(other@),
            out matches Ok(image) ==> image@ == self@.zip(BinaryOp::Max, other@),
            out matches Err(error) ==> error == Error::ShapeMismatch,
    {
        self.zip_with(BinaryOp::Max, other)
    }

    /// The smaller entry of the two images, entry by entry.
    pub fn minof(&self, other: &Self) -> (out: Result<Self, Error>)
        ensures
            out matches Ok(image) ==> image@.wf(),
            out is Ok <==> self@.fits(other@),
            out matches Ok(image) ==> image@ == self@.zip(BinaryOp::Min, other@),
            out matches Err(error) ==> error == Error::ShapeMismatch,
    {
        self.zip_with(BinaryOp::Min, other)
    }

    /// Each entry plus `scalar`.
    pub fn scalar_add(&self, scalar: S) -> (out: Self)
        ensures
            out@.wf(),
            out@ == self@.with_scalar(BinaryOp::Add, scalar),
    {
        self.scalar_with(BinaryOp::Add, scalar)
    }

    /// Each entry minus `scalar`.
    pub fn scalar_sub(&self, scalar: S) -> (out: Self)
        ensures
            out@.wf(),
            out@ == self@.with_scalar(BinaryOp::Sub, scalar),
    {
        self.scalar_with(BinaryOp::Sub, scalar)
    }

    /// Each entry times `scalar`.
    pub fn scalar_mul(&self, scalar: S) -> (out: Self)
        ensures
            out@.wf(),
            out@ == self@.with_scalar(BinaryOp::Mul, scalar),
    {
        self.scalar_with(BinaryOp::Mul, scalar)
    }

    /// Each entry over `scalar`.
    pub fn scalar_div(&self, scalar: S) -> (out: Self)
        ensures
            out@.wf(),
            out@ == self@.with_scalar(BinaryOp::Div, scalar),
    {
        self.scalar_with(BinaryOp::Div, scalar)
    }

    /// Each entry times itself.
    pub fn square(&self) -> (out: Self)
        ensures
            out@.wf(),
            out@ == self@.map(UnaryOp::Square),
    {
        self.map_with(UnaryOp::Square)
    }

    /// The square root of each entry.
    pub fn sqrt(&self) -> (out: Self)
        ensures
            out@.wf(),
            out@ == self@.map(UnaryOp::Sqrt),
    {
        self.map_with(UnaryOp::Sqrt)
    }

    /// The exponential of each entry.
    pub fn exp(&self) -> (out: Self)
        ensures
            out@.wf(),
            out@ == self@.map(UnaryOp::Exp),
    {
        self.map_with(UnaryOp::Exp)
    }

    /// A copy of the planes of the image: for each sample, its channels.
    pub fn get_planes(&self) -> (out: Vec<Vec<Matrix<S>>>)
        ensures
            Self::planes_view(out@) == self@.samples,
    {
        let dims = self.image_dims();
        let mut out: Vec<Vec<Matrix<S>>> = Vec::new();
        let mut s: usize = 0;
        while s < self.samples()
            invariant
                dims.2 == self@.nchan,
                self@.wf(),
                s <= self@.nsamples(),
                out@.len() == s,
                forall|n: int|
                    0 <= n < s ==> (#[trigger] out@[n])@.map_values(|plane: Matrix<S>| plane@)
                        == self@.samples[n],
            decreases self@.nsamples() - s,
        {
            let mut planes: Vec<Matrix<S>> = Vec::new();
            let mut ch: usize = 0;
            while ch < dims.2
                invariant
                    dims.2 == self@.nchan,
                    self@.wf(),
                    s < self@.nsamples(),
                    ch <= dims.2,
                    planes@.len() == ch,
                    forall|k: int|
                        0 <= k < ch ==> (#[trigger] planes@[k])@ == self@.samples[s as int][k],
                decreases dims.2 - ch,
            {
                planes.push(self.plane(ch, s).clone());
                ch += 1;
            }
            assert(planes@.map_values(|plane: Matrix<S>| plane@) =~= self@.samples[s as int]);
            out.push(planes);
            s += 1;
        }
        assert(Self::planes_view(out@) =~= self@.samples);
        out
    }

    /// The image of the given planes: for each sample its channels, `nchan` of them, each a
    /// matrix of `nrow` rows and `ncol` columns.
    pub fn from_planes(nrow: usize, ncol: usize, nchan: usize, samples: Vec<Vec<Matrix<S>>>) -> (out:
        Result<Self, Error>)
        ensures
            out is Ok <==> (ImageView {
                nrow: nrow as nat,
                ncol: ncol as nat,
                nchan: nchan as nat,
                samples: Self::planes_view(samples@),
            }).wf(),
            out matches Ok(image) ==> image@.wf() && image@ == (ImageView {
                nrow: nrow as nat,
                ncol: ncol as nat,
                nchan: nchan as nat,
                samples: Self::planes_view(samples@),
            }),
            out matches Err(error) ==> error == Error::ShapeMismatch,
    {
        let ghost wanted = ImageView {
            nrow: nrow as nat,
            ncol: ncol as nat,
            nchan: nchan as nat,
            samples: Self::planes_view(samples@),
        };
        let mut s: usize = 0;
        while s < samples.len()
            invariant
                wanted == (ImageView {
                    nrow: nrow as nat,
                    ncol: ncol as nat,
                    nchan: nchan as nat,
                    samples: Self::planes_view(samples@),
                }),
                s <= samples@.len(),
                forall|n: int|
                    0 <= n < s ==> {
                        &&& (#[trigger] samples@[n])@.len() == nchan
                        &&& forall|ch: int|
                            0 <= ch < nchan ==> (#[trigger] samples@[n]@[ch])@.has_shape(
                                nrow as nat,
                                ncol as nat,
                            )
                    },
            decreases samples@.len() - s,
        {
            assert(wanted.samples[s as int] == samples@[s as int]@.map_values(
                |plane: Matrix<S>| plane@,
            ));
            if samples[s].len() != nchan {
                return Err(Error::ShapeMismatch);
            }
            let mut ch: usize = 0;
            while ch < nchan
                invariant
                    wanted == (ImageView {
                        nrow: nrow as nat,
                        ncol: ncol as nat,
                        nchan: nchan as nat,
                        samples: Self::planes_view(samples@),
                    }),
                    s < samples@.len(),
                    samples@[s as int]@.len() == nchan,
                    ch <= nchan,
                    forall|k: int|
                        0 <= k < ch ==> (#[trigger] samples@[s as int]@[k])@.has_shape(
                            nrow as nat,
                            ncol as nat,
                        ),
                decreases nchan - ch,
            {
                let shape = samples[s][ch].dim();
                if shape.0 != nrow || shape.1 != ncol {
                    assert(wanted.samples[s as int] == samples@[s as int]@.map_values(
                        |plane: Matrix<S>| plane@,
                    ));
                    assert(wanted.samples[s as int][ch as int] == samples@[s as int]@[ch as int]@);
                    return Err(Error::ShapeMismatch);
                }
                ch += 1;
            }
            s += 1;
        }
        Ok(Image::assemble(nrow, ncol, nchan, samples))
    }

    /// The entry in row `r` and column `c` of channel `ch` of sample `s`, if the image has
    /// it.
    pub fn get(&self, r: usize, c: usize, ch: usize, s: usize) -> (out: Option<S>)
        ensures
            out is Some <==> r < self@.nrow && c < self@.ncol && ch < self@.nchan && s
                < self@.nsamples(),
            out matches Some(entry) ==> entry == self@.at(r as int, c as int, ch as int, s as int),
    {
        let dims = self.image_dims();
        if ch < dims.2 && s < self.samples() {
            self.plane(ch, s).index(r, c)
        } else {
            None
        }
    }

    /// The image of the given dimensions whose entries `f` computes. `f` is given the
    /// column of the entry first, then its row, its channel and its sample.
    pub fn from_fn<F: Fn(usize, usize, usize, usize) -> S>(
        nrows: usize,
        ncols: usize,
        nchan: usize,
        samples: usize,
        f: F,
    ) -> (out: Self)
        requires
            forall|c: usize, r: usize, ch: usize, s: usize|
                r < nrows && c < ncols && ch < nchan && s < samples ==> call_requires(
                    f,
                    (c, r, ch, s),
                ),
        ensures
            out@.has_shape(nrows as nat, ncols as nat, nchan as nat, samples as nat),
            forall|c: usize, r: usize, ch: usize, s: usize|
                r < nrows && c < ncols && ch < nchan && s < samples ==> call_ensures(
                    f,
                    (c, r, ch, s),
                    #[trigger] out@.at(r as int, c as int, ch as int, s as int),
                ),
    {
        let mut all: Vec<Vec<Matrix<S>>> = Vec::new();
        let mut s: usize = 0;
        while s < samples
            invariant
                forall|c: usize, r: usize, ch: usize, s: usize|
                    r < nrows && c < ncols && ch < nchan && s < samples ==> call_requires(
                        f,
                        (c, r, ch, s),
                    ),
                s <= samples,
                all@.len() == s,
                forall|n: int|
                    0 <= n < s ==> {
                        &&& (#[trigger] all@[n])@.len() == nchan
                        &&& forall|ch: int|
                            0 <= ch < nchan ==> (#[trigger] all@[n]@[ch])@.has_shape(
                                nrows as nat,
                                ncols as nat,
                            )
                    },
                forall|c: usize, r: usize, ch: usize, n: usize|
                    r < nrows && c < ncols && ch < nchan && n < s ==> call_ensures(
                        f,
                        (c, r, ch, n),
                        #[trigger] all@[n as int]@[ch as int]@.columns[c as int][r as int],
                    ),
            decreases samples - s,
        {
            let mut planes: Vec<Matrix<S>> = Vec::new();
            let mut ch: usize = 0;
            while ch < nchan
                invariant
                    forall|c: usize, r: usize, ch: usize, s: usize|
                        r < nrows && c < ncols && ch < nchan && s < samples ==> call_requires(
                            f,
                            (c, r, ch, s),
                        ),
                    s < samples,
                    ch <= nchan,
                    planes@.len() == ch,
                    forall|k: int|
                        0 <= k < ch ==> (#[trigger] planes@[k])@.has_shape(
                            nrows as nat,
                            ncols as nat,
                        ),
                    forall|c: usize, r: usize, k: usize|
                        r < nrows && c < ncols && k < ch ==> call_ensures(
                            f,
                            (c, r, k, s),
                            #[trigger] planes@[k as int]@.columns[c as int][r as int],
                        ),
                decreases nchan - ch,
            {
                let mut columns: Vec<Vec<S>> = Vec::new();
                let mut c: usize = 0;
                while c < ncols
                    invariant
                        forall|c: usize, r: usize, ch: usize, s: usize|
                            r < nrows && c < ncols && ch < nchan && s < samples ==> call_requires(
                                f,
                                (c, r, ch, s),
                            ),
                        s < samples,
                        ch < nchan,
                        c <= ncols,
                        columns@.len() == c,
                        forall|q: int| 0 <= q < c ==> (#[trigger] columns@[q])@.len() == nrows,
                        forall|q: usize, r: usize|
                            r < nrows && q < c ==> call_ensures(
                                f,
                                (q, r, ch, s),
                                #[trigger] columns@[q as int]@[r as int],
                            ),
                    decreases ncols - c,
                {
                    let mut column: Vec<S> = Vec::new();
                    let mut r: usize = 0;
                    while r < nrows
                        invariant
                            forall|c: usize, r: usize, ch: usize, s: usize|
                                r < nrows && c < ncols && ch < nchan && s < samples
                                    ==> call_requires(f, (c, r, ch, s)),
                            s < samples,
                            ch < nchan,
                            c < ncols,
                            r <= nrows,
                            column@.len() == r,
                            forall|q: usize|
                                q < r ==> call_ensures(f, (c, q, ch, s), #[trigger] column@[q as int]),
                        decreases nrows - r,
                    {
                        column.push(f(c, r, ch, s));
                        r += 1;
                    }
                    columns.push(column);
                    c += 1;
                }
                let plane = match Matrix::from_leading_columns(nrows, &columns, ncols) {
                    Some(plane) => plane,
                    None => {
                        assert(false);
                        Matrix::zeros(0, 0)
                    },
                };
                assert forall|c: usize, r: usize|
                    r < nrows && c < ncols implies call_ensures(
                    f,
                    (c, r, ch, s),
                    #[trigger] plane@.columns[c as int][r as int],
                ) by {
                    assert(plane@.columns[c as int] == columns@[c as int]@);
                }
                planes.push(plane);
                ch += 1;
            }
            all.push(planes);
            s += 1;
        }
        let out = Image::assemble(nrows, ncols, nchan, all);
        proof {
            assert forall|c: usize, r: usize, ch: usize, s: usize|
                r < nrows && c < ncols && ch < nchan && s < samples implies call_ensures(
                f,
                (c, r, ch, s),
                #[trigger] out@.at(r as int, c as int, ch as int, s as int),
            ) by {
                assert(out@.samples[s as int] == all@[s as int]@.map_values(
                    |plane: Matrix<S>| plane@,
                ));
                assert(out@.samples[s as int][ch as int] == all@[s as int]@[ch as int]@);
            }
        }
        out
    }
}

/// The tables of places of the planes of an image.
pub type Places = Vec<Vec<Vec<Vec<Place>>>>;

/// The tables that `places` holds, as lists.
pub open spec fn places_view(places: Seq<Vec<Vec<Vec<Place>>>>) -> Seq<Seq<Seq<Seq<Place>>>> {
    places.map_values(
        |sample: Vec<Vec<Vec<Place>>>|
            sample@.map_values(
                |plane: Vec<Vec<Place>>| plane@.map_values(|column: Vec<Place>| column@),
            ),
    )
}

impl<S: Scalar> Image<S> {
    /// Pools the image by the mean over windows of `k` rows and `k` columns; `k` is at
    /// least one.
    pub fn avg_pool(&self, k: usize) -> (out: Result<Self, Error>)
        ensures
            out is Ok <==> k >= 1,
            out matches Ok(pooled) ==> pooled@.wf() && pooled@ == self@.avg_pool(k),
            out matches Err(error) ==> error == Error::ShapeMismatch,
    {
        if k == 0 {
            return Err(Error::ShapeMismatch);
        }
        let dims = self.image_dims();
        let samples = self.samples();
        let ghost plane = |ch: int, s: int|
            crate::vision::pooling::avg_pool_spec(self@.samples[s][ch], k);
        let make = |ch: usize, s: usize| -> (made: Matrix<S>)
            requires
                ch < dims.2,
                s < samples,
            ensures
                made@ == plane(ch as int, s as int),
                made@.has_shape((dims.0 / k) as nat, (dims.1 / k) as nat),
            {
                match crate::vision::pooling::avg_pool(self.plane(ch, s), k) {
                    Ok(pooled) => pooled,
                    Err(_) => {
                        assert(false);
                        Matrix::zeros(0, 0)
                    },
                }
            };
        Ok(Image::build(dims.0 / k, dims.1 / k, dims.2, samples, make, Ghost(plane)))
    }

    /// The gradient of the mean pooling over windows of `k` rows and `k` columns with
    /// respect to an image of `nrow` rows and `ncol` columns, given the gradient with
    /// respect to the pooled image; `k` is at least one.
    pub fn avg_unpool(&self, k: usize, nrow: usize, ncol: usize) -> (out: Result<Self, Error>)
        ensures
            out is Ok <==> k >= 1,
            out matches Ok(spread) ==> spread@.wf() && spread@ == self@.avg_unpool(
                k,
                nrow as nat,
                ncol as nat,
            ),
            out matches Err(error) ==> error == Error::ShapeMismatch,
    {
        if k == 0 {
            return Err(Error::ShapeMismatch);
        }
        let dims = self.image_dims();
        let samples = self.samples();
        let ghost plane = |ch: int, s: int|
            crate::vision::pooling::avg_unpool_spec(
                self@.samples[s][ch],
                k,
                nrow as nat,
                ncol as nat,
            );
        let make = |ch: usize, s: usize| -> (made: Matrix<S>)
            requires
                ch < dims.2,
                s < samples,
            ensures
                made@ == plane(ch as int, s as int),
                made@.has_shape(nrow as nat, ncol as nat),
            {
                match crate::vision::pooling::avg_unpool(self.plane(ch, s), k, nrow, ncol) {
                    Ok(spread) => spread,
                    Err(_) => {
                        assert(false);
                        Matrix::zeros(0, 0)
                    },
                }
            };
        Ok(Image::build(nrow, ncol, dims.2, samples, make, Ghost(plane)))
    }

    /// Pools the image by the maximum over windows of `k` rows and `k` columns, and records
    /// where the largest entry of each window stands; `k` is at least one.
    pub fn max_pool(&self, k: usize) -> (out: Result<(Self, Places), Error>)
        ensures
            out is Ok <==> k >= 1,
            out matches Ok(pooled) ==> {
                &&& pooled.0@.wf()
                &&& pooled.0@ == self@.max_pool(k)
                &&& self@.records_max_places(places_view(pooled.1@), k)
            },
            out matches Err(error) ==> error == Error::ShapeMismatch,
    {
        if k == 0 {
            return Err(Error::ShapeMismatch);
        }
        let dims = self.image_dims();
        let samples = self.samples();
        let nrow = dims.0 / k;
        let ncol = dims.1 / k;
        let ghost wanted = self@.max_pool(k);
        let mut all: Vec<Vec<Matrix<S>>> = Vec::new();
        let mut places: Places = Vec::new();
        let mut s: usize = 0;
        while s < samples
            invariant
                k >= 1,
                self@.wf(),
                dims.0 == self@.nrow,
                dims.1 == self@.ncol,
                dims.2 == self@.nchan,
                samples == self@.nsamples(),
                nrow == dims.0 / k,
                ncol == dims.1 / k,
                s <= samples,
                all@.len() == s,
                places@.len() == s,
                forall|n: int|
                    0 <= n < s ==> {
                        &&& (#[trigger] all@[n])@.len() == dims.2
                        &&& forall|ch: int|
                            0 <= ch < dims.2 ==> (#[trigger] all@[n]@[ch])@
                                == crate::vision::pooling::max_pool_spec(self@.samples[n][ch], k)
                                && all@[n]@[ch]@.has_shape(nrow as nat, ncol as nat)
                    },
                forall|n: int|
                    0 <= n < s ==> {
                        &&& (#[trigger] places@[n])@.len() == dims.2
                        &&& forall|ch: int|
                            0 <= ch < dims.2 ==> crate::vision::pooling::records_max_places(
                                (#[trigger] places@[n]@[ch])@.map_values(
                                    |column: Vec<Place>| column@,
                                ),
                                self@.samples[n][ch],
                                k,
                            )
                    },
            decreases samples - s,
        {
            let mut planes: Vec<Matrix<S>> = Vec::new();
            let mut plane_places: Vec<Vec<Vec<Place>>> = Vec::new();
            let mut ch: usize = 0;
            while ch < dims.2
                invariant
                    k >= 1,
                    self@.wf(),
                    dims.0 == self@.nrow,
                    dims.1 == self@.ncol,
                    dims.2 == self@.nchan,
                    samples == self@.nsamples(),
                    nrow == dims.0 / k,
                    ncol == dims.1 / k,
                    s < samples,
                    ch <= dims.2,
                    planes@.len() == ch,
                    plane_places@.len() == ch,
                    forall|q: int|
                        0 <= q < ch ==> (#[trigger] planes@[q])@
                            == crate::vision::pooling::max_pool_spec(
                            self@.samples[s as int][q],
                            k,
                        ) && planes@[q]@.has_shape(nrow as nat, ncol as nat),
                    forall|q: int|
                        0 <= q < ch ==> crate::vision::pooling::records_max_places(
                            (#[trigger] plane_places@[q])@.map_values(|column: Vec<Place>| column@),
                            self@.samples[s as int][q],
                            k,
                        ),
                decreases dims.2 - ch,
            {
                match crate::vision::pooling::max_pool(self.plane(ch, s), k) {
                    Ok(pooled) => {
                        planes.push(pooled.0);
                        plane_places.push(pooled.1);
                    },
                    Err(_) => {
                        assert(false);
                    },
                }
                ch += 1;
            }
            all.push(planes);
            places.push(plane_places);
            s += 1;
        }
        let out = Image::assemble(nrow, ncol, dims.2, all);
        proof {
            assert forall|n: int| 0 <= n < samples implies out@.samples[n]
                =~= wanted.samples[n] by {
                assert(out@.samples[n] == all@[n]@.map_values(|plane: Matrix<S>| plane@));
                assert forall|ch: int| 0 <= ch < dims.2 implies out@.samples[n][ch]
                    == wanted.samples[n][ch] by {
                    assert(out@.samples[n][ch] == all@[n]@[ch]@);
                }
            }
            assert(out@.samples =~= wanted.samples);
            let tables = places_view(places@);
            assert forall|n: int| 0 <= n < tables.len() implies {
                &&& (#[trigger] tables[n]).len() == self@.nchan
                &&& forall|ch: int|
                    0 <= ch < self@.nchan ==> crate::vision::pooling::records_max_places(
                        #[trigger] tables[n][ch],
                        self@.samples[n][ch],
                        k,
                    )
            } by {
                assert(tables[n] == places@[n]@.map_values(
                    |plane: Vec<Vec<Place>>| plane@.map_values(|column: Vec<Place>| column@),
                ));
                assert forall|ch: int| 0 <= ch < self@.nchan implies
                    crate::vision::pooling::records_max_places(
                    #[trigger] tables[n][ch],
                    self@.samples[n][ch],
                    k,
                ) by {
                    assert(tables[n][ch] == places@[n]@[ch]@.map_values(
                        |column: Vec<Place>| column@,
                    ));
                }
            }
        }
        Ok((out, places))
    }

    /// Whether the tables of places have an entry for each entry of the image.
    fn covered_by(&self, places: &Places) -> (covered: bool)
        ensures
            covered == self@.covered_by(places@),
    {
        let dims = self.image_dims();
        if places.len() != self.samples() {
            return false;
        }
        let mut s: usize = 0;
        while s < places.len()
            invariant
                dims.0 == self@.nrow,
                dims.1 == self@.ncol,
                dims.2 == self@.nchan,
                s <= places@.len(),
                forall|n: int|
                    0 <= n < s ==> {
                        &&& (#[trigger] places@[n])@.len() == self@.nchan
                        &&& forall|ch: int|
                            0 <= ch < self@.nchan ==> {
                                &&& (#[trigger] places@[n]@[ch])@.len() == self@.ncol
                                &&& forall|c: int|
                                    0 <= c < self@.ncol ==> (#[trigger] places@[n]@[ch]@[c])@.len()
                                        == self@.nrow
                            }
                    },
            decreases places@.len() - s,
        {
            if places[s].len() != dims.2 {
                return false;
            }
            let mut ch: usize = 0;
            while ch < dims.2
                invariant
                    dims.0 == self@.nrow,
                    dims.1 == self@.ncol,
                    dims.2 == self@.nchan,
                    s < places@.len(),
                    places@[s as int]@.len() == dims.2,
                    ch <= dims.2,
                    forall|q: int|
                        0 <= q < ch ==> {
                            &&& (#[trigger] places@[s as int]@[q])@.len() == self@.ncol
                            &&& forall|c: int|
                                0 <= c < self@.ncol ==> (#[trigger] places@[s as int]@[q]@[c])@.len()
                                    == self@.nrow
                        },
                decreases dims.2 - ch,
            {
                if places[s][ch].len() != dims.1 {
                    return false;
                }
                let mut c: usize = 0;
                while c < dims.1
                    invariant
                        dims.0 == self@.nrow,
                        dims.1 == self@.ncol,
                        s < places@.len(),
                        ch < places@[s as int]@.len(),
                        places@[s as int]@[ch as int]@.len() == dims.1,
                        c <= dims.1,
                        forall|q: int|
                            0 <= q < c ==> (#[trigger] places@[s as int]@[ch as int]@[q])@.len()
                                == self@.nrow,
                    decreases dims.1 - c,
                {
                    if places[s][ch][c].len() != dims.0 {
                        return false;
                    }
                    c += 1;
                }
                ch += 1;
            }
            s += 1;
        }
        true
    }

    /// The gradient of the maximum pooling over windows of `k` rows and `k` columns with
    /// respect to an image of `nrow` rows and `ncol` columns, given the gradient with
    /// respect to the pooled image and the places that the pooling recorded; `k` is at least
    /// one, and the tables of places have an entry for each entry of the gradient.
    pub fn max_unpool(&self, places: &Places, k: usize, nrow: usize, ncol: usize) -> (out: Result<
        Self,
        Error,
    >)
        ensures
            out is Ok <==> (k >= 1 && self@.covered_by(places@)),
            out matches Ok(routed) ==> routed@.wf() && routed@ == self@.max_unpool(
                places_view(places@),
                k,
                nrow as nat,
                ncol as nat,
            ),
            out matches Err(error) ==> error == Error::ShapeMismatch,
    {
        if k == 0 || !self.covered_by(places) {
            return Err(Error::ShapeMismatch);
        }
        let dims = self.image_dims();
        let samples = self.samples();
        let ghost plane = |ch: int, s: int|
            crate::vision::pooling::max_unpool_spec(
                self@.samples[s][ch],
                places_view(places@)[s][ch],
                k,
                nrow as nat,
                ncol as nat,
            );
        let make = |ch: usize, s: usize| -> (made: Matrix<S>)
            requires
                ch < dims.2,
                s < samples,
            ensures
                made@ == plane(ch as int, s as int),
                made@.has_shape(nrow as nat, ncol as nat),
            {
                proof {
                    assert(places_view(places@)[s as int] == places@[s as int]@.map_values(
                        |plane: Vec<Vec<Place>>| plane@.map_values(|column: Vec<Place>| column@),
                    ));
                    assert(places_view(places@)[s as int][ch as int]
                        == places@[s as int]@[ch as int]@.map_values(
                        |column: Vec<Place>| column@,
                    ));
                }
                match crate::vision::pooling::max_unpool(
                    self.plane(ch, s),
                    &places[s][ch],
                    k,
                    nrow,
                    ncol,
                ) {
                    Ok(routed) => routed,
                    Err(_) => {
                        assert(false);
                        Matrix::zeros(0, 0)
                    },
                }
            };
        Ok(Image::build(nrow, ncol, dims.2, samples, make, Ghost(plane)))
    }
}

impl<S: Scalar> ImageView<S> {
    /// A sample of an image, laid out in one list, has as many entries as the image has
    /// channels, times the entries of a plane.
    pub proof fn lemma_flat_sample_len(self, s: int)
        requires
            self.wf(),
            0 <= s < self.nsamples(),
        ensures
            self.flat_sample(s).len() == self.nchan * (self.ncol * self.nrow),
    {
        let flats = Seq::new(
            self.nchan,
            |ch: int| crate::vision::layout::concat(self.samples[s][ch].columns),
        );
        assert forall|ch: int| 0 <= ch < flats.len() implies (#[trigger] flats[ch]).len()
            == self.ncol * self.nrow by {
            let plane = self.samples[s][ch];
            assert(plane.has_shape(self.nrow, self.ncol));
            crate::vision::layout::lemma_concat_len(plane.columns, self.nrow);
        }
        crate::vision::layout::lemma_concat_len(flats, self.ncol * self.nrow);
    }

    /// The samples of an image are as long as each other when they are laid out in lists.
    pub proof fn lemma_flat_samples_len(self, s: int, t: int)
        requires
            self.wf(),
            0 <= s < self.nsamples(),
            0 <= t < self.nsamples(),
        ensures
            self.flat_sample(s).len() == self.flat_sample(t).len(),
    {
        self.lemma_flat_sample_len(s);
        self.lemma_flat_sample_len(t);
    }

    /// Reading back the planes of a sample from the list of their entries gives the planes.
    pub proof fn lemma_unflatten_sample(planes: Seq<MatrixView<S>>, nrow: nat, ncol: nat)
        requires
            forall|ch: int| 0 <= ch < planes.len() ==> (#[trigger] planes[ch]).has_shape(nrow, ncol),
        ensures
            Self::unflatten_sample(
                crate::vision::layout::concat(
                    Seq::new(
                        planes.len(),
                        |ch: int| crate::vision::layout::concat(planes[ch].columns),
                    ),
                ),
                nrow,
                ncol,
                planes.len(),
            ) == Some(planes),
    {
        let flats = Seq::new(
            planes.len(),
            |ch: int| crate::vision::layout::concat(planes[ch].columns),
        );
        let data = crate::vision::layout::concat(flats);
        let size = ncol * nrow;
        assert forall|ch: int| 0 <= ch < flats.len() implies (#[trigger] flats[ch]).len()
            == size by {
            assert(planes[ch].has_shape(nrow, ncol));
            crate::vision::layout::lemma_concat_len(planes[ch].columns, nrow);
        }
        crate::vision::layout::lemma_concat_len(flats, size);
        if nrow == 0 || ncol == 0 {
            assert(size == 0) by (nonlinear_arith)
                requires
                    size == ncol * nrow,
                    nrow == 0 || ncol == 0,
            ;
            assert(flats.len() * size == 0) by (nonlinear_arith)
                requires
                    size == 0,
            ;
            let empty = Self::empty_planes(nrow, ncol, planes.len());
            assert forall|ch: int| 0 <= ch < planes.len() implies planes[ch] == empty[ch] by {
                assert(planes[ch].has_shape(nrow, ncol));
                assert forall|c: int| 0 <= c < ncol implies (#[trigger] planes[ch].columns[c])
                    =~= Seq::<S>::empty() by {}
                assert(planes[ch].columns =~= empty[ch].columns);
            }
            assert(planes =~= empty);
        } else {
            assert(size >= 1) by (nonlinear_arith)
                requires
                    size == ncol * nrow,
                    nrow >= 1,
                    ncol >= 1,
            ;
            crate::vision::layout::lemma_pieces_of_concat(flats, size);
            let read = Seq::new(
                planes.len(),
                |ch: int|
                    MatrixView {
                        nrow,
                        columns: crate::vision::layout::pieces(flats[ch], nrow),
                    },
            );
            assert forall|ch: int| 0 <= ch < planes.len() implies planes[ch] == read[ch] by {
                assert(planes[ch].has_shape(nrow, ncol));
                crate::vision::layout::lemma_pieces_of_concat(planes[ch].columns, nrow);
            }
            assert(planes =~= read);
        }
    }

    /// Reading back an image from the matrix that it was laid out in gives the image.
    pub proof fn lemma_unflatten_flatten(self)
        requires
            self.wf(),
        ensures
            Self::unflatten(self.flatten(), self.nrow, self.ncol, self.nchan) == self,
    {
        let read = Self::unflatten(self.flatten(), self.nrow, self.ncol, self.nchan);
        assert forall|s: int| 0 <= s < self.nsamples() implies read.samples[s]
            == self.samples[s] by {
            let planes = self.samples[s];
            assert(planes.len() == self.nchan);
            assert forall|ch: int| 0 <= ch < planes.len() implies (#[trigger] planes[ch]).has_shape(
                self.nrow,
                self.ncol,
            ) by {}
            Self::lemma_unflatten_sample(planes, self.nrow, self.ncol);
            assert(Seq::new(
                planes.len(),
                |ch: int| crate::vision::layout::concat(planes[ch].columns),
            ) =~= Seq::new(
                self.nchan,
                |ch: int| crate::vision::layout::concat(self.samples[s][ch].columns),
            ));
        }
        assert(read.samples =~= self.samples);
    }

    /// The lists that an image is laid out in hold the image.
    pub proof fn lemma_from_vectors_flatten(self)
        requires
            self.wf(),
        ensures
            Self::holds_vectors(self.flatten().columns, self.nrow, self.ncol, self.nchan),
            Self::from_vectors(self.flatten().columns, self.nrow, self.ncol, self.nchan) == self,
    {
        self.lemma_unflatten_flatten();
        let vectors = self.flatten().columns;
        let read = Self::from_vectors(vectors, self.nrow, self.ncol, self.nchan);
        assert(read.samples =~= Self::unflatten(
            self.flatten(),
            self.nrow,
            self.ncol,
            self.nchan,
        ).samples);
        assert forall|s: int| 0 <= s < vectors.len() implies Self::unflatten_sample(
            #[trigger] vectors[s],
            self.nrow,
            self.ncol,
            self.nchan,
        ) is Some by {
            let planes = self.samples[s];
            assert(planes.len() == self.nchan);
            assert forall|ch: int| 0 <= ch < planes.len() implies (#[trigger] planes[ch]).has_shape(
                self.nrow,
                self.ncol,
            ) by {}
            Self::lemma_unflatten_sample(planes, self.nrow, self.ncol);
            assert(Seq::new(
                planes.len(),
                |ch: int| crate::vision::layout::concat(planes[ch].columns),
            ) =~= Seq::new(
                self.nchan,
                |ch: int| crate::vision::layout::concat(self.samples[s][ch].columns),
            ));
        }
    }

    /// A list that planes can be read from has as many entries as there are channels,
    /// times the entries of a plane.
    pub proof fn lemma_unflatten_sample_len(data: Seq<S>, nrow: nat, ncol: nat, nchan: nat)
        requires
            Self::unflatten_sample(data, nrow, ncol, nchan) is Some,
        ensures
            data.len() == nchan * (ncol * nrow),
    {
        let size = ncol * nrow;
        if nrow == 0 || ncol == 0 {
            assert(nchan * (ncol * nrow) == 0) by (nonlinear_arith)
                requires
                    nrow == 0 || ncol == 0,
            ;
        } else {
            let flats = crate::vision::layout::pieces(data, size);
            crate::vision::layout::lemma_pieces_len(data, size);
            crate::vision::layout::lemma_concat_len(flats, size);
        }
    }

    /// The flattened image is a matrix.
    pub proof fn lemma_flatten_wf(self)
        requires
            self.wf(),
        ensures
            self.flatten().wf(),
            self.flatten().ncol() == self.nsamples(),
    {
        let flat = self.flatten();
        assert forall|s: int| 0 <= s < flat.columns.len() implies (#[trigger] flat.columns[s]).len()
            == flat.nrow by {
            self.lemma_flat_samples_len(s, 0);
        }
    }
}

impl<S: Scalar> Image<S> {
    /// The entries of a plane in one list, column after column.
    fn flat_plane(plane: &Matrix<S>) -> (out: Vec<S>)
        ensures
            out@ == crate::vision::layout::concat(plane@.columns),
    {
        let shape = plane.dim();
        let mut out: Vec<S> = Vec::new();
        let mut c: usize = 0;
        while c < shape.1
            invariant
                shape.1 == plane@.ncol(),
                c <= shape.1,
                out@ == crate::vision::layout::concat(plane@.columns.take(c as int)),
            decreases shape.1 - c,
        {
            proof {
                assert(plane@.columns.take(c + 1).drop_last() =~= plane@.columns.take(c as int));
            }
            match plane.get_column(c) {
                Some(mut column) => {
                    out.append(&mut column);
                },
                None => {
                    assert(false);
                },
            }
            c += 1;
        }
        assert(plane@.columns.take(c as int) =~= plane@.columns);
        out
    }

    /// The entries of sample `s` in one list: channel after channel, each channel column
    /// after column.
    fn flat_sample(&self, s: usize) -> (out: Vec<S>)
        requires
            s < self@.nsamples(),
        ensures
            out@ == self@.flat_sample(s as int),
    {
        let dims = self.image_dims();
        let ghost parts = Seq::new(
            self@.nchan,
            |ch: int| crate::vision::layout::concat(self@.samples[s as int][ch].columns),
        );
        let mut out: Vec<S> = Vec::new();
        let mut ch: usize = 0;
        while ch < dims.2
            invariant
                self@.wf(),
                s < self@.nsamples(),
                dims.2 == self@.nchan,
                parts == Seq::new(
                    self@.nchan,
                    |ch: int| crate::vision::layout::concat(self@.samples[s as int][ch].columns),
                ),
                ch <= dims.2,
                out@ == crate::vision::layout::concat(parts.take(ch as int)),
            decreases dims.2 - ch,
        {
            proof {
                assert(parts.take(ch + 1).drop_last() =~= parts.take(ch as int));
            }
            let mut flat = Self::flat_plane(self.plane(ch, s));
            out.append(&mut flat);
            ch += 1;
        }
        assert(parts.take(ch as int) =~= parts);
        out
    }

    /// The image as a matrix with one column for each sample: the entries of the sample,
    /// channel after channel, each channel column after column.
    pub fn flatten(&self) -> (out: Matrix<S>)
        ensures
            out@.wf(),
            out@ == self@.flatten(),
    {
        let _dims = self.image_dims();
        let mut columns: Vec<Vec<S>> = Vec::new();
        let mut s: usize = 0;
        while s < self.samples()
            invariant
                self@.wf(),
                s <= self@.nsamples(),
                columns@.len() == s,
                forall|n: int| 0 <= n < s ==> (#[trigger] columns@[n])@ == self@.flat_sample(n),
            decreases self@.nsamples() - s,
        {
            columns.push(self.flat_sample(s));
            s += 1;
        }
        proof {
            let lists = MatrixView::<S>::nested(columns@);
            assert(lists =~= self@.flatten().columns);
            assert forall|n: int| 0 <= n < lists.len() implies (#[trigger] lists[n]).len()
                == lists[0].len() by {
                self@.lemma_flat_samples_len(n, 0);
            }
        }
        match Matrix::from_column_leading_vector2(&columns) {
            Ok(out) => out,
            Err(_) => {
                assert(false);
                Matrix::zeros(0, 0)
            },
        }
    }
}

/// The number whose square `n` is, if there is one.
pub fn side_of(n: usize) -> (out: Option<usize>)
    ensures
        out matches Some(side) ==> side * side == n,
        out is None ==> !exists|side: nat| #[trigger] (side * side) == n,
{
    let mut s: usize = 0;
    loop
        invariant
            s <= n,
            forall|t: nat| t < s ==> #[trigger] (t * t) < n,
        decreases n - s,
    {
        match s.checked_mul(s) {
            Some(square) => {
                if square == n {
                    return Some(s);
                }
                if square > n {
                    proof {
                        assert forall|side: nat| #[trigger] (side * side) != n by {
                            if side >= s {
                                vstd::arithmetic::mul::lemma_mul_inequality(
                                    s as int,
                                    side as int,
                                    s as int,
                                );
                                vstd::arithmetic::mul::lemma_mul_inequality(
                                    s as int,
                                    side as int,
                                    side as int,
                                );
                                vstd::arithmetic::mul::lemma_mul_is_commutative(
                                    side as int,
                                    s as int,
                                );
                            }
                        }
                    }
                    return None;
                }
                proof {
                    if s >= 1 {
                        vstd::arithmetic::mul::lemma_mul_inequality(1, s as int, s as int);
                    }
                }
            },
            None => {
                proof {
                    assert forall|side: nat| #[trigger] (side * side) != n by {
                        if side >= s {
                            vstd::arithmetic::mul::lemma_mul_inequality(
                                s as int,
                                side as int,
                                s as int,
                            );
                            vstd::arithmetic::mul::lemma_mul_inequality(
                                s as int,
                                side as int,
                                side as int,
                            );
                            vstd::arithmetic::mul::lemma_mul_is_commutative(
                                side as int,
                                s as int,
                            );
                        }
                    }
                }
                return None;
            },
        }
        s += 1;
    }
}

/// A copy of `len` entries of `data` from place `from` on.
fn chunk<S: Scalar>(data: &Vec<S>, from: usize, len: usize) -> (out: Vec<S>)
    requires
        from + len <= data@.len(),
    ensures
        out@ == data@.subrange(from as int, from + len),
{
    let size = data.len();
    let mut out: Vec<S> = Vec::new();
    let mut i: usize = 0;
    assert(out@ =~= data@.subrange(from as int, from as int));
    while i < len
        invariant
            size == data@.len(),
            from + len <= data@.len(),
            i <= len,
            out@ == data@.subrange(from as int, from + i),
        decreases len - i,
    {
        out.push(data[from + i]);
        assert(out@ =~= data@.subrange(from as int, from + i + 1));
        i += 1;
    }
    out
}

/// Where the columns of the planes of a sample lie in the list of its entries: column `c`
/// of channel `ch` starts `ch * (ncol * nrow) + c * nrow` entries in, and ends within the
/// `channels * (ncol * nrow)` entries of the sample.
pub proof fn lemma_plane_column_within(ch: int, c: int, nrow: int, ncol: int, channels: int)
    requires
        0 <= ch < channels,
        0 <= c < ncol,
        0 <= nrow,
    ensures
        0 <= ch * (ncol * nrow) + c * nrow,
        ch * (ncol * nrow) + c * nrow + nrow <= channels * (ncol * nrow),
        (c + 1) * nrow == c * nrow + nrow,
        (ch + 1) * (ncol * nrow) == ch * (ncol * nrow) + ncol * nrow,
{
    let per = ncol * nrow;
    vstd::arithmetic::mul::lemma_mul_is_distributive_add_other_way(nrow, c, 1);
    vstd::arithmetic::mul::lemma_mul_is_distributive_add_other_way(per, ch, 1);
    vstd::arithmetic::mul::lemma_mul_inequality(c + 1, ncol, nrow);
    vstd::arithmetic::mul::lemma_mul_inequality(ch + 1, channels, per);
    vstd::arithmetic::mul::lemma_mul_nonnegative(ch, per);
    vstd::arithmetic::mul::lemma_mul_nonnegative(c, nrow);
    vstd::arithmetic::mul::lemma_mul_nonnegative(ncol, nrow);
}

/// A number is the square of one number only.
pub proof fn lemma_side_unique(a: nat, b: nat)
    requires
        a * a == b * b,
    ensures
        a == b,
{
    if a < b {
        vstd::arithmetic::mul::lemma_mul_strict_inequality(a as int, b as int, b as int);
        vstd::arithmetic::mul::lemma_mul_inequality(a as int, b as int, a as int);
        vstd::arithmetic::mul::lemma_mul_is_commutative(a as int, b as int);
    }
    if b < a {
        vstd::arithmetic::mul::lemma_mul_strict_inequality(b as int, a as int, a as int);
        vstd::arithmetic::mul::lemma_mul_inequality(b as int, a as int, b as int);
        vstd::arithmetic::mul::lemma_mul_is_commutative(a as int, b as int);
    }
}

impl<S: Scalar> Image<S> {
    /// The planes of a sample of `channels` channels of `nrow` rows and `ncol` columns, read
    /// from the list of its entries.
    fn planes_of(data: &Vec<S>, nrow: usize, ncol: usize, channels: usize) -> (out: Vec<
        Matrix<S>,
    >)
        requires
            data@.len() == channels * (ncol * nrow),
        ensures
            out@.len() == channels,
            forall|ch: int|
                0 <= ch < channels ==> (#[trigger] out@[ch])@.has_shape(nrow as nat, ncol as nat),
            out@.map_values(|plane: Matrix<S>| plane@) == ImageView::unflatten_sample(
                data@,
                nrow as nat,
                ncol as nat,
                channels as nat,
            )->0,
            ImageView::unflatten_sample(data@, nrow as nat, ncol as nat, channels as nat) is Some,
    {
        let ghost per = ncol * nrow;
        let size = data.len();
        let mut out: Vec<Matrix<S>> = Vec::new();
        let mut from: usize = 0;
        let mut ch: usize = 0;
        proof {
            assert(Seq::new(0nat, |k: int| crate::vision::layout::concat(out@[k]@.columns))
                =~= Seq::<Seq<S>>::empty());
            assert(data@.take(0) =~= Seq::<S>::empty());
        }
        while ch < channels
            invariant
                per == ncol * nrow,
                size == data@.len(),
                data@.len() == channels * per,
                ch <= channels,
                from == ch * per,
                out@.len() == ch,
                forall|k: int|
                    0 <= k < ch ==> (#[trigger] out@[k])@.has_shape(nrow as nat, ncol as nat),
                crate::vision::layout::concat(
                    Seq::new(ch as nat, |k: int| crate::vision::layout::concat(out@[k]@.columns)),
                ) == data@.take(from as int),
            decreases channels - ch,
        {
            let ghost start = from;
            let mut columns: Vec<Vec<S>> = Vec::new();
            let mut c: usize = 0;
            proof {
                vstd::arithmetic::mul::lemma_mul_inequality(
                    ch as int,
                    channels as int,
                    per as int,
                );
                assert(MatrixView::<S>::nested(columns@) =~= Seq::<Seq<S>>::empty());
                assert(data@.subrange(start as int, from as int) =~= Seq::<S>::empty());
            }
            while c < ncol
                invariant
                    per == ncol * nrow,
                    size == data@.len(),
                    data@.len() == channels * per,
                    ch < channels,
                    c <= ncol,
                    start == ch * per,
                    from == ch * per + c * nrow,
                    columns@.len() == c,
                    forall|k: int| 0 <= k < c ==> (#[trigger] columns@[k])@.len() == nrow,
                    crate::vision::layout::concat(MatrixView::<S>::nested(columns@))
                        == data@.subrange(start as int, from as int),
                decreases ncol - c,
            {
                proof {
                    lemma_plane_column_within(
                        ch as int,
                        c as int,
                        nrow as int,
                        ncol as int,
                        channels as int,
                    );
                }
                let ghost lists = MatrixView::<S>::nested(columns@);
                let piece = chunk(data, from, nrow);
                columns.push(piece);
                proof {
                    let longer = MatrixView::<S>::nested(columns@);
                    assert(longer.drop_last() =~= lists);
                    assert(longer.last() == piece@);
                    assert(data@.subrange(start as int, from as int) + piece@
                        =~= data@.subrange(start as int, from + nrow));
                }
                from += nrow;
                c += 1;
            }
            let plane = match Matrix::from_leading_columns(nrow, &columns, ncol) {
                Some(plane) => plane,
                None => {
                    assert(false);
                    Matrix::zeros(0, 0)
                },
            };
            proof {
                assert(MatrixView::<S>::nested(columns@).take(ncol as int)
                    =~= MatrixView::<S>::nested(columns@));
                vstd::arithmetic::mul::lemma_mul_is_distributive_add_other_way(
                    per as int,
                    ch as int,
                    1,
                );
                vstd::arithmetic::mul::lemma_mul_inequality(
                    ch + 1,
                    channels as int,
                    per as int,
                );
                assert(from == (ch + 1) * per);
            }
            let ghost flats = Seq::new(
                ch as nat,
                |k: int| crate::vision::layout::concat(out@[k]@.columns),
            );
            out.push(plane);
            proof {
                let longer = Seq::new(
                    (ch + 1) as nat,
                    |k: int| crate::vision::layout::concat(out@[k]@.columns),
                );
                assert(longer.drop_last() =~= flats);
                assert(longer.last() == crate::vision::layout::concat(plane@.columns));
                assert(data@.take(start as int) + data@.subrange(start as int, from as int)
                    =~= data@.take(from as int));
            }
            ch += 1;
        }
        proof {
            assert(data@.take(from as int) =~= data@);
            let planes = out@.map_values(|plane: Matrix<S>| plane@);
            let flats = Seq::new(
                planes.len(),
                |k: int| crate::vision::layout::concat(planes[k].columns),
            );
            assert(flats =~= Seq::new(
                channels as nat,
                |k: int| crate::vision::layout::concat(out@[k]@.columns),
            ));
            ImageView::lemma_unflatten_sample(planes, nrow as nat, ncol as nat);
        }
        out
    }

    /// The image of these dimensions that the columns of `samples` hold: each column is
    /// one sample, laid out channel after channel, each channel column after column.
    pub fn from_matrix(samples: &Matrix<S>, nrow: usize, ncol: usize, nchan: usize) -> (out:
        Result<Self, Error>)
        ensures
            out is Ok <==> ImageView::holds_samples(
                samples@,
                nrow as nat,
                ncol as nat,
                nchan as nat,
            ),
            out matches Ok(image) ==> {
                &&& image@.wf()
                &&& image@ == ImageView::unflatten(samples@, nrow as nat, ncol as nat, nchan as nat)
                &&& image@.nsamples() == samples@.ncol()
            },
            out matches Err(error) ==> error == Error::ShapeMismatch,
    {
        let shape = samples.dim();
        if nchan == 0 {
            assert(nchan * (ncol * nrow) == 0) by (nonlinear_arith)
                requires
                    nchan == 0,
            ;
            if shape.0 != 0 {
                return Err(Error::ShapeMismatch);
            }
        } else {
            let per = match ncol.checked_mul(nrow) {
                Some(per) => per,
                None => {
                    assert(nchan * (ncol * nrow) > usize::MAX) by (nonlinear_arith)
                        requires
                            ncol * nrow > usize::MAX,
                            nchan >= 1,
                    ;
                    return Err(Error::ShapeMismatch);
                },
            };
            match nchan.checked_mul(per) {
                Some(total) => {
                    if total != shape.0 {
                        return Err(Error::ShapeMismatch);
                    }
                },
                None => {
                    return Err(Error::ShapeMismatch);
                },
            }
        }
        let ghost wanted = ImageView::unflatten(samples@, nrow as nat, ncol as nat, nchan as nat);
        let mut all: Vec<Vec<Matrix<S>>> = Vec::new();
        let mut s: usize = 0;
        while s < shape.1
            invariant
                samples@.wf(),
                shape.0 == samples@.nrow,
                shape.1 == samples@.ncol(),
                shape.0 == nchan * (ncol * nrow),
                s <= shape.1,
                all@.len() == s,
                forall|n: int|
                    0 <= n < s ==> {
                        &&& (#[trigger] all@[n])@.len() == nchan
                        &&& forall|ch: int|
                            0 <= ch < nchan ==> (#[trigger] all@[n]@[ch])@.has_shape(
                                nrow as nat,
                                ncol as nat,
                            )
                        &&& all@[n]@.map_values(|plane: Matrix<S>| plane@)
                            == ImageView::unflatten_sample(
                            samples@.columns[n],
                            nrow as nat,
                            ncol as nat,
                            nchan as nat,
                        )->0
                        &&& ImageView::unflatten_sample(
                            samples@.columns[n],
                            nrow as nat,
                            ncol as nat,
                            nchan as nat,
                        ) is Some
                    },
            decreases shape.1 - s,
        {
            match samples.get_column(s) {
                Some(column) => {
                    all.push(Self::planes_of(&column, nrow, ncol, nchan));
                },
                None => {
                    assert(false);
                },
            }
            s += 1;
        }
        let out = Image::assemble(nrow, ncol, nchan, all);
        proof {
            assert forall|n: int| 0 <= n < shape.1 implies out@.samples[n]
                == wanted.samples[n] by {
                assert(out@.samples[n] == all@[n]@.map_values(|plane: Matrix<S>| plane@));
            }
            assert(out@.samples =~= wanted.samples);
            assert forall|n: int| 0 <= n < samples@.ncol() implies ImageView::unflatten_sample(
                #[trigger] samples@.columns[n],
                nrow as nat,
                ncol as nat,
                nchan as nat,
            ) is Some by {
                assert(all@[n]@.len() == nchan);
            }
        }
        Ok(out)
    }

    /// The image of these dimensions that the vectors hold: each vector is one sample, laid
    /// out channel after channel, each channel column after column.
    pub fn from_vectors(vectors: &Vec<Vec<S>>, nrow: usize, ncol: usize, nchan: usize) -> (out:
        Result<Self, Error>)
        ensures
            out is Ok <==> ImageView::holds_vectors(
                MatrixView::<S>::nested(vectors@),
                nrow as nat,
                ncol as nat,
                nchan as nat,
            ),
            out matches Ok(image) ==> {
                &&& image@.wf()
                &&& image@ == ImageView::from_vectors(
                    MatrixView::<S>::nested(vectors@),
                    nrow as nat,
                    ncol as nat,
                    nchan as nat,
                )
            },
            out matches Err(error) ==> error == Error::ShapeMismatch,
    {
        let ghost lists = MatrixView::<S>::nested(vectors@);
        let ghost wanted = ImageView::from_vectors(lists, nrow as nat, ncol as nat, nchan as nat);
        let total: Option<usize> = if nchan == 0 {
            assert(nchan * (ncol * nrow) == 0) by (nonlinear_arith)
                requires
                    nchan == 0,
            ;
            Some(0)
        } else {
            match ncol.checked_mul(nrow) {
                Some(per) => nchan.checked_mul(per),
                None => {
                    assert(nchan * (ncol * nrow) > usize::MAX) by (nonlinear_arith)
                        requires
                            ncol * nrow > usize::MAX,
                            nchan >= 1,
                    ;
                    None
                },
            }
        };
        let mut all: Vec<Vec<Matrix<S>>> = Vec::new();
        let mut s: usize = 0;
        while s < vectors.len()
            invariant
                lists == MatrixView::<S>::nested(vectors@),
                total matches Some(size) ==> size == nchan * (ncol * nrow),
                total is None ==> nchan * (ncol * nrow) > usize::MAX,
                s <= vectors@.len(),
                all@.len() == s,
                forall|n: int|
                    0 <= n < s ==> {
                        &&& (#[trigger] all@[n])@.len() == nchan
                        &&& forall|ch: int|
                            0 <= ch < nchan ==> (#[trigger] all@[n]@[ch])@.has_shape(
                                nrow as nat,
                                ncol as nat,
                            )
                        &&& all@[n]@.map_values(|plane: Matrix<S>| plane@)
                            == ImageView::unflatten_sample(
                            lists[n],
                            nrow as nat,
                            ncol as nat,
                            nchan as nat,
                        )->0
                        &&& ImageView::unflatten_sample(
                            lists[n],
                            nrow as nat,
                            ncol as nat,
                            nchan as nat,
                        ) is Some
                    },
            decreases vectors@.len() - s,
        {
            let vector = &vectors[s];
            assert(lists[s as int] == vector@);
            let len = vector.len();
            let fits = match total {
                Some(size) => len == size,
                None => false,
            };
            if !fits {
                proof {
                    if ImageView::unflatten_sample(
                        vector@,
                        nrow as nat,
                        ncol as nat,
                        nchan as nat,
                    ) is Some {
                        ImageView::lemma_unflatten_sample_len(
                            vector@,
                            nrow as nat,
                            ncol as nat,
                            nchan as nat,
                        );
                        assert(false);
                    }
                    assert(ImageView::unflatten_sample(
                        lists[s as int],
                        nrow as nat,
                        ncol as nat,
                        nchan as nat,
                    ) is None);
                }
                return Err(Error::ShapeMismatch);
            }
            all.push(Self::planes_of(vector, nrow, ncol, nchan));
            s += 1;
        }
        let out = Image::assemble(nrow, ncol, nchan, all);
        proof {
            assert forall|n: int| 0 <= n < vectors@.len() implies out@.samples[n]
                == wanted.samples[n] by {
                assert(out@.samples[n] == all@[n]@.map_values(|plane: Matrix<S>| plane@));
            }
            assert(out@.samples =~= wanted.samples);
            assert forall|n: int| 0 <= n < lists.len() implies ImageView::unflatten_sample(
                #[trigger] lists[n],
                nrow as nat,
                ncol as nat,
                nchan as nat,
            ) is Some by {
                assert(all@[n]@.len() == nchan);
            }
        }
        Ok(out)
    }

    /// The square images that the columns of `samples` hold: each column is one sample of
    /// `channels` channels, laid out channel after channel, each channel column after
    /// column.
    pub fn from_samples(samples: &Matrix<S>, channels: usize) -> (out: Result<Self, Error>)
        ensures
            out is Ok <==> ImageView::<S>::holds_images(samples@.nrow, channels),
            out matches Ok(image) ==> {
                &&& image@.wf()
                &&& image@ == ImageView::unflatten_square(samples@, channels)
                &&& image@.nrow == image@.ncol
                &&& image@.nchan == channels
                &&& image@.nsamples() == samples@.ncol()
            },
            out matches Err(error) ==> error == Error::ShapeMismatch,
    {
        let shape = samples.dim();
        if channels == 0 || shape.0 % channels != 0 {
            return Err(Error::ShapeMismatch);
        }
        let side = match side_of(shape.0 / channels) {
            Some(side) => side,
            None => {
                return Err(Error::ShapeMismatch);
            },
        };
        proof {
            vstd::arithmetic::div_mod::lemma_fundamental_div_mod(shape.0 as int, channels as int);
            vstd::arithmetic::mul::lemma_mul_is_commutative(
                channels as int,
                (shape.0 / channels) as int,
            );
            let n = samples@.nrow / (channels as nat);
            assert((side as nat) * (side as nat) == n);
            assert(ImageView::<S>::is_square(n));
            let chosen = ImageView::<S>::side_spec(n);
            assert(chosen * chosen == n);
            lemma_side_unique(side as nat, chosen);
        }
        match Self::from_matrix(samples, side, side, channels) {
            Ok(image) => Ok(image),
            Err(error) => {
                proof {
                    assert forall|s: int| 0 <= s < samples@.ncol() implies ImageView::unflatten_sample(
                        #[trigger] samples@.columns[s],
                        side as nat,
                        side as nat,
                        channels as nat,
                    ) is Some by {
                        Self::lemma_column_holds_sample(
                            samples@.columns[s],
                            side as nat,
                            side as nat,
                            channels as nat,
                        );
                    }
                    assert(false);
                }
                Err(error)
            },
        }
    }

    /// A list of as many entries as a sample has can be read back as the planes of a
    /// sample.
    pub proof fn lemma_column_holds_sample(data: Seq<S>, nrow: nat, ncol: nat, nchan: nat)
        requires
            data.len() == nchan * (ncol * nrow),
        ensures
            ImageView::unflatten_sample(data, nrow, ncol, nchan) is Some,
        decreases nchan,
    {
        let size = ncol * nrow;
        if nrow == 0 || ncol == 0 {
            assert(nchan * (ncol * nrow) == 0) by (nonlinear_arith)
                requires
                    nrow == 0 || ncol == 0,
            ;
        } else {
            assert(size >= 1) by (nonlinear_arith)
                requires
                    size == ncol * nrow,
                    nrow >= 1,
                    ncol >= 1,
            ;
            Self::lemma_pieces_whole(data, size, nchan);
        }
    }

    /// A list of `count` times `size` entries is cut into `count` pieces that come, one
    /// after the other, to the list.
    pub proof fn lemma_pieces_whole(data: Seq<S>, size: nat, count: nat)
        requires
            size >= 1,
            data.len() == count * size,
        ensures
            crate::vision::layout::pieces(data, size).len() == count,
            crate::vision::layout::concat(crate::vision::layout::pieces(data, size)) == data,
        decreases count,
    {
        if count == 0 {
            assert(count * size == 0) by (nonlinear_arith)
                requires
                    count == 0,
            ;
            assert(crate::vision::layout::concat(crate::vision::layout::pieces(data, size))
                =~= data);
        } else {
            assert(count * size == (count - 1) * size + size) by (nonlinear_arith);
            assert((count - 1) * size >= 0) by (nonlinear_arith)
                requires
                    count >= 1,
                    size >= 1,
            ;
            let head = data.take(data.len() - size);
            let tail = data.skip(data.len() - size);
            Self::lemma_pieces_whole(head, size, (count - 1) as nat);
            let cut = crate::vision::layout::pieces(data, size);
            assert(cut == crate::vision::layout::pieces(head, size).push(tail));
            assert(cut.drop_last() =~= crate::vision::layout::pieces(head, size));
            assert(cut.last() == tail);
            assert(head + tail =~= data);
        }
    }
}

impl<S: Scalar> Image<S> {
    /// An image of the given dimensions of random numbers between `min` and `max`, spread
    /// evenly. Whatever chance gives, each entry is a number that some draw stands for.
    pub fn random_uniform(
        nrow: usize,
        ncol: usize,
        nchan: usize,
        samples: usize,
        min: S,
        max: S,
    ) -> (out: Self)
        ensures
            out@.has_shape(nrow as nat, ncol as nat, nchan as nat, samples as nat),
            forall|r: int, c: int, ch: int, s: int|
                0 <= r < nrow && 0 <= c < ncol && 0 <= ch < nchan && 0 <= s < samples
                    ==> crate::random::is_uniform_draw(#[trigger] out@.at(r, c, ch, s), min, max),
    {
        let mut all: Vec<Vec<Matrix<S>>> = Vec::new();
        let mut s: usize = 0;
        while s < samples
            invariant
                s <= samples,
                all@.len() == s,
                forall|n: int|
                    0 <= n < s ==> {
                        &&& (#[trigger] all@[n])@.len() == nchan
                        &&& forall|ch: int|
                            0 <= ch < nchan ==> (#[trigger] all@[n]@[ch])@.has_shape(
                                nrow as nat,
                                ncol as nat,
                            )
                    },
                forall|r: int, c: int, ch: int, n: int|
                    0 <= r < nrow && 0 <= c < ncol && 0 <= ch < nchan && 0 <= n < s
                        ==> crate::random::is_uniform_draw(
                        #[trigger] all@[n]@[ch]@.columns[c][r],
                        min,
                        max,
                    ),
            decreases samples - s,
        {
            let mut planes: Vec<Matrix<S>> = Vec::new();
            let mut ch: usize = 0;
            while ch < nchan
                invariant
                    ch <= nchan,
                    planes@.len() == ch,
                    forall|k: int|
                        0 <= k < ch ==> (#[trigger] planes@[k])@.has_shape(nrow as nat, ncol as nat),
                    forall|r: int, c: int, k: int|
                        0 <= r < nrow && 0 <= c < ncol && 0 <= k < ch
                            ==> crate::random::is_uniform_draw(
                            #[trigger] planes@[k]@.columns[c][r],
                            min,
                            max,
                        ),
                decreases nchan - ch,
            {
                planes.push(Matrix::random_uniform(nrow, ncol, min, max));
                ch += 1;
            }
            all.push(planes);
            s += 1;
        }
        let out = Image::assemble(nrow, ncol, nchan, all);
        assert forall|r: int, c: int, ch: int, s: int|
            0 <= r < nrow && 0 <= c < ncol && 0 <= ch < nchan && 0 <= s
                < samples implies crate::random::is_uniform_draw(
            #[trigger] out@.at(r, c, ch, s),
            min,
            max,
        ) by {
            assert(out@.samples[s] == all@[s]@.map_values(|plane: Matrix<S>| plane@));
            assert(out@.samples[s][ch] == all@[s]@[ch]@);
            assert(crate::random::is_uniform_draw(all@[s]@[ch]@.columns[c][r], min, max));
        }
        out
    }

    /// An image of the given dimensions of random numbers around `mean`, spread in the
    /// shape of a bell with the standard deviation `std_dev`. Whatever chance gives, each
    /// entry is a number that some twelve draws stand for.
    pub fn random_normal(
        nrow: usize,
        ncol: usize,
        nchan: usize,
        samples: usize,
        mean: S,
        std_dev: S,
    ) -> (out: Self)
        ensures
            out@.has_shape(nrow as nat, ncol as nat, nchan as nat, samples as nat),
            forall|r: int, c: int, ch: int, s: int|
                0 <= r < nrow && 0 <= c < ncol && 0 <= ch < nchan && 0 <= s < samples
                    ==> crate::random::is_normal_draw(
                    #[trigger] out@.at(r, c, ch, s),
                    mean,
                    std_dev,
                ),
    {
        let mut all: Vec<Vec<Matrix<S>>> = Vec::new();
        let mut s: usize = 0;
        while s < samples
            invariant
                s <= samples,
                all@.len() == s,
                forall|n: int|
                    0 <= n < s ==> {
                        &&& (#[trigger] all@[n])@.len() == nchan
                        &&& forall|ch: int|
                            0 <= ch < nchan ==> (#[trigger] all@[n]@[ch])@.has_shape(
                                nrow as nat,
                                ncol as nat,
                            )
                    },
                forall|r: int, c: int, ch: int, n: int|
                    0 <= r < nrow && 0 <= c < ncol && 0 <= ch < nchan && 0 <= n < s
                        ==> crate::random::is_normal_draw(
                        #[trigger] all@[n]@[ch]@.columns[c][r],
                        mean,
                        std_dev,
                    ),
            decreases samples - s,
        {
            let mut planes: Vec<Matrix<S>> = Vec::new();
            let mut ch: usize = 0;
            while ch < nchan
                invariant
                    ch <= nchan,
                    planes@.len() == ch,
                    forall|k: int|
                        0 <= k < ch ==> (#[trigger] planes@[k])@.has_shape(nrow as nat, ncol as nat),
                    forall|r: int, c: int, k: int|
                        0 <= r < nrow && 0 <= c < ncol && 0 <= k < ch
                            ==> crate::random::is_normal_draw(
                            #[trigger] planes@[k]@.columns[c][r],
                            mean,
                            std_dev,
                        ),
                decreases nchan - ch,
            {
                planes.push(Matrix::random_normal(nrow, ncol, mean, std_dev));
                ch += 1;
            }
            all.push(planes);
            s += 1;
        }
        let out = Image::assemble(nrow, ncol, nchan, all);
        assert forall|r: int, c: int, ch: int, s: int|
            0 <= r < nrow && 0 <= c < ncol && 0 <= ch < nchan && 0 <= s
                < samples implies crate::random::is_normal_draw(
            #[trigger] out@.at(r, c, ch, s),
            mean,
            std_dev,
        ) by {
            assert(out@.samples[s] == all@[s]@.map_values(|plane: Matrix<S>| plane@));
            assert(out@.samples[s][ch] == all@[s]@[ch]@);
            assert(crate::random::is_normal_draw(all@[s]@[ch]@.columns[c][r], mean, std_dev));
        }
        out
    }
}

impl<S: Scalar> Clone for Image<S> {
    fn clone(&self) -> (out: Self)
        ensures
            out@ == self@,
            out@.wf(),
    {
        let dims = self.image_dims();
        let planes = self.get_planes();
        match Image::from_planes(dims.0, dims.1, dims.2, planes) {
            Ok(out) => out,
            Err(_) => {
                assert(false);
                Image::zeros(0, 0, 0, 0)
            },
        }
    }
}

} // verus!
