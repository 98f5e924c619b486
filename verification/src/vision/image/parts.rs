//! Parts of images, images joined from parts, and what an image comes to as a whole.

use crate::error::Error;
use crate::linalg::{Matrix, MatrixView, UnaryOp};
use crate::scalar::Scalar;
use crate::vision::image::{Image, ImageView};
use vstd::prelude::*;

verus! {

impl<S: Scalar> ImageView<S> {
    /// The image of sample `s` alone.
    pub open spec fn sample(self, s: int) -> Self {
        ImageView { samples: seq![self.samples[s]], ..self }
    }

    /// The image of channel `ch` of the first sample alone.
    pub open spec fn channel(self, ch: int) -> Self {
        ImageView { nchan: 1, samples: seq![seq![self.samples[0][ch]]], ..self }
    }

    /// The image of channel `ch` alone, for every sample.
    pub open spec fn channel_across_samples(self, ch: int) -> Self {
        ImageView {
            nchan: 1,
            samples: Seq::new(self.nsamples(), |s: int| seq![self.samples[s][ch]]),
            ..self
        }
    }

    /// The samples of a list of images, image after image.
    pub open spec fn joined_samples(images: Seq<Self>) -> Seq<Seq<MatrixView<S>>>
        decreases images.len(),
    {
        if images.len() == 0 {
            Seq::empty()
        } else {
            Self::joined_samples(images.drop_last()) + images.last().samples
        }
    }

    /// The channels that a list of images has for sample `s`, image after image.
    pub open spec fn joined_channels(images: Seq<Self>, s: int) -> Seq<MatrixView<S>>
        decreases images.len(),
    {
        if images.len() == 0 {
            Seq::empty()
        } else {
            Self::joined_channels(images.drop_last(), s) + images.last().samples[s]
        }
    }

    /// The number of channels that a list of images has together.
    pub open spec fn channels_of(images: Seq<Self>) -> nat
        decreases images.len(),
    {
        if images.len() == 0 {
            0
        } else {
            Self::channels_of(images.drop_last()) + images.last().nchan
        }
    }

    /// Whether the images of a list can be joined sample after sample: there is an image,
    /// and the images have as many rows, columns and channels.
    pub open spec fn joins_samples(images: Seq<Self>) -> bool {
        &&& images.len() > 0
        &&& forall|i: int|
            0 <= i < images.len() ==> {
                &&& (#[trigger] images[i]).nrow == images[0].nrow
                &&& images[i].ncol == images[0].ncol
                &&& images[i].nchan == images[0].nchan
            }
    }

    /// Whether the images of a list can be joined channel after channel: there is an image,
    /// and the images have as many rows, columns and samples.
    pub open spec fn joins_channels(images: Seq<Self>) -> bool {
        &&& images.len() > 0
        &&& forall|i: int|
            0 <= i < images.len() ==> {
                &&& (#[trigger] images[i]).nrow == images[0].nrow
                &&& images[i].ncol == images[0].ncol
                &&& images[i].nsamples() == images[0].nsamples()
            }
    }

    /// The sum of all entries: that of the image as a matrix with one column for each
    /// sample.
    pub open spec fn total(self) -> S {
        self.flatten().total()
    }

    /// The mean of all entries: that of the image as a matrix with one column for each
    /// sample.
    pub open spec fn mean(self) -> S {
        self.flatten().mean()
    }

    /// The size of dimension `dim`: rows, columns, channels and samples are the dimensions
    /// zero to three.
    pub open spec fn size_along(self, dim: int) -> nat {
        if dim == 0 {
            self.nrow
        } else if dim == 1 {
            self.ncol
        } else if dim == 2 {
            self.nchan
        } else {
            self.nsamples()
        }
    }

    /// The entries that differ from the one in row `r`, column `c`, channel `ch` and
    /// sample `s` in their place along dimension `dim` only, in the order of that place.
    pub open spec fn along(self, dim: int, r: int, c: int, ch: int, s: int) -> Seq<S> {
        Seq::new(
            self.size_along(dim),
            |k: int|
                if dim == 0 {
                    self.at(k, c, ch, s)
                } else if dim == 1 {
                    self.at(r, k, ch, s)
                } else if dim == 2 {
                    self.at(r, c, k, s)
                } else {
                    self.at(r, c, ch, k)
                },
        )
    }
}

impl<S: Scalar> Image<S> {
    /// The image of sample `sample` alone, if the image has that sample.
    pub fn get_sample(&self, sample: usize) -> (out: Option<Self>)
        ensures
            out is Some <==> sample < self@.nsamples(),
            out matches Some(image) ==> image@.wf() && image@ == self@.sample(sample as int),
    {
        let dims = self.image_dims();
        if sample >= self.samples() {
            return None;
        }
        let ghost plane = |ch: int, s: int| self@.samples[sample as int][ch];
        let make = |ch: usize, s: usize| -> (made: Matrix<S>)
            requires
                ch < dims.2,
            ensures
                made@ == plane(ch as int, s as int),
                made@.has_shape(dims.0 as nat, dims.1 as nat),
            {
                self.plane(ch, sample).clone()
            };
        let out = Image::build(dims.0, dims.1, dims.2, 1, make, Ghost(plane));
        proof {
            assert(out@.samples[0] =~= self@.samples[sample as int]);
            assert(out@.samples =~= seq![self@.samples[sample as int]]);
        }
        Some(out)
    }

    /// The image of channel `channel` of the first sample alone, if the image has a sample
    /// and that channel.
    pub fn get_channel(&self, channel: usize) -> (out: Option<Self>)
        ensures
            out is Some <==> channel < self@.nchan && self@.nsamples() > 0,
            out matches Some(image) ==> image@.wf() && image@ == self@.channel(channel as int),
    {
        let dims = self.image_dims();
        if channel >= dims.2 || self.samples() == 0 {
            return None;
        }
        let ghost plane = |ch: int, s: int| self@.samples[0][channel as int];
        let make = |ch: usize, s: usize| -> (made: Matrix<S>)
            ensures
                made@ == plane(ch as int, s as int),
                made@.has_shape(dims.0 as nat, dims.1 as nat),
            {
                self.plane(channel, 0).clone()
            };
        let out = Image::build(dims.0, dims.1, 1, 1, make, Ghost(plane));
        proof {
            assert(out@.samples[0] =~= seq![self@.samples[0][channel as int]]);
            assert(out@.samples =~= seq![seq![self@.samples[0][channel as int]]]);
        }
        Some(out)
    }

    /// The image of channel `channel` alone, for every sample, if the image has that
    /// channel.
    pub fn get_channel_across_samples(&self, channel: usize) -> (out: Option<Self>)
        ensures
            out is Some <==> channel < self@.nchan,
            out matches Some(image) ==> image@.wf() && image@ == self@.channel_across_samples(
                channel as int,
            ),
    {
        let dims = self.image_dims();
        let samples = self.samples();
        if channel >= dims.2 {
            return None;
        }
        let ghost plane = |ch: int, s: int| self@.samples[s][channel as int];
        let make = |ch: usize, s: usize| -> (made: Matrix<S>)
            requires
                s < samples,
            ensures
                made@ == plane(ch as int, s as int),
                made@.has_shape(dims.0 as nat, dims.1 as nat),
            {
                self.plane(channel, s).clone()
            };
        let out = Image::build(dims.0, dims.1, 1, samples, make, Ghost(plane));
        proof {
            let wanted = self@.channel_across_samples(channel as int);
            assert forall|s: int| 0 <= s < out@.samples.len() implies out@.samples[s]
                == wanted.samples[s] by {
                assert(out@.samples[s] =~= seq![self@.samples[s][channel as int]]);
            }
            assert(out@.samples =~= wanted.samples);
        }
        Some(out)
    }

    /// The image that holds the samples of the given images, image after image. There must
    /// be an image, and the images must have as many rows, columns and channels.
    pub fn join_samples(images: &Vec<Image<S>>) -> (out: Result<Self, Error>)
        ensures
            out is Ok <==> ImageView::joins_samples(images@.map_values(|image: Image<S>| image@)),
            out matches Ok(image) ==> image@.wf() && image@ == (ImageView {
                samples: ImageView::joined_samples(images@.map_values(|image: Image<S>| image@)),
                ..images@[0]@
            }),
            out matches Err(error) ==> error == Error::ShapeMismatch,
    {
        let ghost views = images@.map_values(|image: Image<S>| image@);
        if images.len() == 0 {
            return Err(Error::ShapeMismatch);
        }
        let dims = images[0].image_dims();
        let mut all: Vec<Vec<Matrix<S>>> = Vec::new();
        let mut i: usize = 0;
        proof {
            assert(views.take(0) =~= Seq::<ImageView<S>>::empty());
            assert(Image::<S>::planes_view(all@) =~= Seq::<Seq<MatrixView<S>>>::empty());
        }
        while i < images.len()
            invariant
                i <= images@.len(),
                images@.len() > 0,
                views == images@.map_values(|image: Image<S>| image@),
                dims.0 == views[0].nrow,
                dims.1 == views[0].ncol,
                dims.2 == views[0].nchan,
                forall|k: int|
                    0 <= k < i ==> {
                        &&& (#[trigger] views[k]).nrow == views[0].nrow
                        &&& views[k].ncol == views[0].ncol
                        &&& views[k].nchan == views[0].nchan
                    },
                Image::<S>::planes_view(all@) == ImageView::joined_samples(views.take(i as int)),
                (ImageView {
                    nrow: dims.0 as nat,
                    ncol: dims.1 as nat,
                    nchan: dims.2 as nat,
                    samples: Image::<S>::planes_view(all@),
                }).wf(),
            decreases images@.len() - i,
        {
            let image = &images[i];
            let shape = image.image_dims();
            assert(views[i as int] == image@);
            if shape.0 != dims.0 || shape.1 != dims.1 || shape.2 != dims.2 {
                return Err(Error::ShapeMismatch);
            }
            let added = image.get_planes();
            let ghost before = Image::<S>::planes_view(all@);
            let mut s: usize = 0;
            while s < added.len()
                invariant
                    s <= added@.len(),
                    Image::<S>::planes_view(added@) == image@.samples,
                    image@.wf(),
                    image@.nrow == dims.0,
                    image@.ncol == dims.1,
                    image@.nchan == dims.2,
                    Image::<S>::planes_view(all@) == before + image@.samples.take(s as int),
                    (ImageView {
                        nrow: dims.0 as nat,
                        ncol: dims.1 as nat,
                        nchan: dims.2 as nat,
                        samples: Image::<S>::planes_view(all@),
                    }).wf(),
                decreases added@.len() - s,
            {
                let planes = Self::copied_planes(&added[s]);
                let ghost so_far = all@;
                proof {
                    assert(Image::<S>::planes_view(added@)[s as int] == added@[s as int]@.map_values(
                        |plane: Matrix<S>| plane@,
                    ));
                }
                all.push(planes);
                proof {
                    so_far.lemma_push_map_commute(
                        |sample: Vec<Matrix<S>>| sample@.map_values(|plane: Matrix<S>| plane@),
                        planes,
                    );
                    let held = image@.samples;
                    assert(held.take(s + 1) =~= held.take(s as int).push(held[s as int]));
                    assert(Image::<S>::planes_view(all@) =~= before + held.take(s + 1));
                    let joined = Image::<S>::planes_view(all@);
                    assert forall|k: int| 0 <= k < joined.len() implies {
                        &&& (#[trigger] joined[k]).len() == dims.2
                        &&& forall|ch: int|
                            0 <= ch < dims.2 ==> (#[trigger] joined[k][ch]).has_shape(
                                dims.0 as nat,
                                dims.1 as nat,
                            )
                    } by {
                        if k < so_far.len() {
                            let earlier = ImageView {
                                nrow: dims.0 as nat,
                                ncol: dims.1 as nat,
                                nchan: dims.2 as nat,
                                samples: Image::<S>::planes_view(so_far),
                            };
                            assert(earlier.wf());
                            assert(joined[k] == earlier.samples[k]);
                            assert(earlier.samples[k].len() == dims.2);
                            assert forall|ch: int| 0 <= ch < dims.2 implies (
                            #[trigger] joined[k][ch]).has_shape(dims.0 as nat, dims.1 as nat) by {
                                assert(earlier.samples[k][ch].has_shape(
                                    dims.0 as nat,
                                    dims.1 as nat,
                                ));
                            }
                        } else {
                            assert(joined[k] == image@.samples[s as int]);
                            assert(image@.samples[s as int].len() == dims.2);
                            assert forall|ch: int| 0 <= ch < dims.2 implies (
                            #[trigger] joined[k][ch]).has_shape(dims.0 as nat, dims.1 as nat) by {
                                assert(image@.samples[s as int][ch].has_shape(
                                    dims.0 as nat,
                                    dims.1 as nat,
                                ));
                            }
                        }
                    }
                }
                s += 1;
            }
            proof {
                let held = image@.samples;
                assert(Image::<S>::planes_view(added@).len() == added@.len());
                assert(held.take(s as int) =~= held);
                assert(views.take(i + 1).drop_last() =~= views.take(i as int));
                assert(views.take(i + 1).last() == image@);
            }
            i += 1;
        }
        assert(views.take(i as int) =~= views);
        match Image::from_planes(dims.0, dims.1, dims.2, all) {
            Ok(out) => Ok(out),
            Err(error) => {
                assert(false);
                Err(error)
            },
        }
    }

    /// The image that holds the channels of the given images, image after image. There
    /// must be an image, the images must have as many rows, columns and samples, and their
    /// channels together must be countable.
    pub fn join_channels(images: &Vec<Image<S>>) -> (out: Result<Self, Error>)
        ensures
            out is Ok <==> ImageView::joins_channels(images@.map_values(|image: Image<S>| image@))
                && ImageView::channels_of(images@.map_values(|image: Image<S>| image@))
                <= usize::MAX,
            out matches Ok(image) ==> image@.wf() && image@ == (ImageView {
                nrow: images@[0]@.nrow,
                ncol: images@[0]@.ncol,
                nchan: ImageView::channels_of(images@.map_values(|image: Image<S>| image@)),
                samples: Seq::new(
                    images@[0]@.nsamples(),
                    |s: int|
                        ImageView::joined_channels(
                            images@.map_values(|image: Image<S>| image@),
                            s,
                        ),
                ),
            }),
            out matches Err(error) ==> error == Error::ShapeMismatch,
    {
        let ghost views = images@.map_values(|image: Image<S>| image@);
        if images.len() == 0 {
            return Err(Error::ShapeMismatch);
        }
        let dims = images[0].image_dims();
        let samples = images[0].samples();
        let mut nchan: usize = 0;
        let mut i: usize = 0;
        proof {
            assert(views.take(0) =~= Seq::<ImageView<S>>::empty());
        }
        while i < images.len()
            invariant
                i <= images@.len(),
                images@.len() > 0,
                views == images@.map_values(|image: Image<S>| image@),
                dims.0 == views[0].nrow,
                dims.1 == views[0].ncol,
                samples == views[0].nsamples(),
                forall|k: int|
                    0 <= k < i ==> {
                        &&& (#[trigger] views[k]).nrow == views[0].nrow
                        &&& views[k].ncol == views[0].ncol
                        &&& views[k].nsamples() == views[0].nsamples()
                        &&& views[k].wf()
                    },
                nchan == ImageView::channels_of(views.take(i as int)),
            decreases images@.len() - i,
        {
            let image = &images[i];
            let shape = image.image_dims();
            assert(views[i as int] == image@);
            if shape.0 != dims.0 || shape.1 != dims.1 || image.samples() != samples {
                return Err(Error::ShapeMismatch);
            }
            proof {
                assert(views.take(i + 1).drop_last() =~= views.take(i as int));
                assert(views.take(i + 1).last() == image@);
            }
            nchan = match nchan.checked_add(shape.2) {
                Some(nchan) => nchan,
                None => {
                    proof {
                        Self::lemma_channels_grow(views, i + 1);
                    }
                    return Err(Error::ShapeMismatch);
                },
            };
            i += 1;
        }
        assert(views.take(i as int) =~= views);
        let ghost wanted = Seq::new(samples as nat, |s: int| ImageView::joined_channels(views, s));
        let mut all: Vec<Vec<Matrix<S>>> = Vec::new();
        let mut s: usize = 0;
        while s < samples
            invariant
                s <= samples,
                images@.len() > 0,
                views == images@.map_values(|image: Image<S>| image@),
                dims.0 == views[0].nrow,
                dims.1 == views[0].ncol,
                samples == views[0].nsamples(),
                ImageView::joins_channels(views),
                forall|k: int| 0 <= k < views.len() ==> (#[trigger] views[k]).wf(),
                nchan == ImageView::channels_of(views),
                wanted == Seq::new(samples as nat, |s: int| ImageView::joined_channels(views, s)),
                all@.len() == s,
                forall|k: int|
                    0 <= k < s ==> (#[trigger] all@[k])@.map_values(|plane: Matrix<S>| plane@)
                        == wanted[k],
                forall|k: int|
                    0 <= k < s ==> {
                        &&& (#[trigger] all@[k])@.len() == nchan
                        &&& forall|ch: int|
                            0 <= ch < nchan ==> (#[trigger] all@[k]@[ch])@.has_shape(
                                dims.0 as nat,
                                dims.1 as nat,
                            )
                    },
            decreases samples - s,
        {
            let mut planes: Vec<Matrix<S>> = Vec::new();
            let mut i: usize = 0;
            proof {
                assert(views.take(0) =~= Seq::<ImageView<S>>::empty());
                assert(planes@.map_values(|plane: Matrix<S>| plane@) =~= Seq::<
                    MatrixView<S>,
                >::empty());
            }
            while i < images.len()
                invariant
                    i <= images@.len(),
                    s < samples,
                    views == images@.map_values(|image: Image<S>| image@),
                    dims.0 == views[0].nrow,
                    dims.1 == views[0].ncol,
                    samples == views[0].nsamples(),
                    ImageView::joins_channels(views),
                    forall|k: int| 0 <= k < views.len() ==> (#[trigger] views[k]).wf(),
                    planes@.map_values(|plane: Matrix<S>| plane@) == ImageView::joined_channels(
                        views.take(i as int),
                        s as int,
                    ),
                    planes@.len() == ImageView::channels_of(views.take(i as int)),
                    forall|ch: int|
                        0 <= ch < planes@.len() ==> (#[trigger] planes@[ch])@.has_shape(
                            dims.0 as nat,
                            dims.1 as nat,
                        ),
                decreases images@.len() - i,
            {
                let image = &images[i];
                let shape = image.image_dims();
                proof {
                    assert(views[i as int] == image@);
                    assert(views[i as int].nrow == views[0].nrow);
                    assert(views.take(i + 1).drop_last() =~= views.take(i as int));
                    assert(views.take(i + 1).last() == image@);
                }
                let ghost before = planes@;
                let mut ch: usize = 0;
                while ch < shape.2
                    invariant
                        ch <= shape.2,
                        s < image@.nsamples(),
                        shape.2 == image@.nchan,
                        image@.wf(),
                        image@.nrow == dims.0,
                        image@.ncol == dims.1,
                        planes@.map_values(|plane: Matrix<S>| plane@) == before.map_values(
                            |plane: Matrix<S>| plane@,
                        ) + image@.samples[s as int].take(ch as int),
                        planes@.len() == before.len() + ch,
                        forall|k: int|
                            0 <= k < planes@.len() ==> (#[trigger] planes@[k])@.has_shape(
                                dims.0 as nat,
                                dims.1 as nat,
                            ),
                    decreases shape.2 - ch,
                {
                    let plane = image.plane(ch, s).clone();
                    let ghost so_far = planes@;
                    planes.push(plane);
                    proof {
                        so_far.lemma_push_map_commute(|plane: Matrix<S>| plane@, plane);
                        let held = image@.samples[s as int];
                        assert(held.take(ch + 1) =~= held.take(ch as int).push(held[ch as int]));
                        assert(planes@.map_values(|plane: Matrix<S>| plane@) =~= before.map_values(
                            |plane: Matrix<S>| plane@,
                        ) + held.take(ch + 1));
                    }
                    ch += 1;
                }
                proof {
                    let held = image@.samples[s as int];
                    assert(held.len() == image@.nchan);
                    assert(held.take(ch as int) =~= held);
                }
                i += 1;
            }
            proof {
                assert(views.take(i as int) =~= views);
            }
            all.push(planes);
            s += 1;
        }
        proof {
            assert(Image::<S>::planes_view(all@) =~= wanted);
        }
        match Image::from_planes(dims.0, dims.1, nchan, all) {
            Ok(out) => Ok(out),
            Err(error) => {
                proof {
                    let built = ImageView {
                        nrow: dims.0 as nat,
                        ncol: dims.1 as nat,
                        nchan: nchan as nat,
                        samples: Image::<S>::planes_view(all@),
                    };
                    assert forall|k: int| 0 <= k < built.samples.len() implies {
                        &&& (#[trigger] built.samples[k]).len() == built.nchan
                        &&& forall|ch: int|
                            0 <= ch < built.nchan ==> (#[trigger] built.samples[k][ch]).has_shape(
                                built.nrow,
                                built.ncol,
                            )
                    } by {
                        assert(built.samples[k] == all@[k]@.map_values(|plane: Matrix<S>| plane@));
                        assert forall|ch: int| 0 <= ch < built.nchan implies (
                        #[trigger] built.samples[k][ch]).has_shape(built.nrow, built.ncol) by {
                            assert(all@[k]@[ch]@.has_shape(dims.0 as nat, dims.1 as nat));
                        }
                    }
                    assert(false);
                }
                Err(error)
            },
        }
    }

    /// The channels of the first images of a list are no more than the channels of all.
    proof fn lemma_channels_grow(views: Seq<ImageView<S>>, n: int)
        requires
            0 <= n <= views.len(),
        ensures
            ImageView::channels_of(views.take(n)) <= ImageView::channels_of(views),
        decreases views.len() - n,
    {
        if n < views.len() {
            assert(views.take(n + 1).drop_last() =~= views.take(n));
            Self::lemma_channels_grow(views, n + 1);
        } else {
            assert(views.take(n) =~= views);
        }
    }

    /// A copy of a list of planes.
    fn copied_planes(planes: &Vec<Matrix<S>>) -> (out: Vec<Matrix<S>>)
        ensures
            out@.map_values(|plane: Matrix<S>| plane@) == planes@.map_values(
                |plane: Matrix<S>| plane@,
            ),
    {
        let mut out: Vec<Matrix<S>> = Vec::new();
        let mut k: usize = 0;
        while k < planes.len()
            invariant
                k <= planes@.len(),
                out@.len() == k,
                forall|i: int| 0 <= i < k ==> (#[trigger] out@[i])@ == planes@[i]@,
            decreases planes@.len() - k,
        {
            out.push(planes[k].clone());
            k += 1;
        }
        assert(out@.map_values(|plane: Matrix<S>| plane@) =~= planes@.map_values(
            |plane: Matrix<S>| plane@,
        ));
        out
    }

    /// The sum of all entries.
    pub fn sum(&self) -> (total: S)
        ensures
            total == self@.total(),
    {
        self.flatten().sum()
    }

    /// The mean of all entries.
    pub fn mean(&self) -> (mean: S)
        ensures
            mean == self@.mean(),
    {
        self.flatten().mean()
    }

    /// The sign of each entry: minus one where it is below zero, else one.
    pub fn sign(&self) -> (out: Self)
        ensures
            out@.wf(),
            out@ == self@.map(UnaryOp::Sign),
    {
        self.map_with(UnaryOp::Sign)
    }

    /// The image repeated along each dimension: as many times as given along its rows,
    /// columns, channels and samples. The dimensions of the result must be countable.
    pub fn tile(
        &self,
        repetitions_row: usize,
        repetitions_col: usize,
        repetitions_chan: usize,
        repetition_sample: usize,
    ) -> (out: Result<Self, Error>)
        ensures
            out is Ok <==> self@.nrow * repetitions_row <= usize::MAX && self@.ncol
                * repetitions_col <= usize::MAX && self@.nchan * repetitions_chan <= usize::MAX
                && self@.nsamples() * repetition_sample <= usize::MAX,
            out matches Ok(image) ==> {
                &&& image@.has_shape(
                    (self@.nrow * repetitions_row) as nat,
                    (self@.ncol * repetitions_col) as nat,
                    (self@.nchan * repetitions_chan) as nat,
                    (self@.nsamples() * repetition_sample) as nat,
                )
                &&& forall|r: int, c: int, ch: int, s: int|
                    0 <= r < image@.nrow && 0 <= c < image@.ncol && 0 <= ch < image@.nchan && 0
                        <= s < image@.nsamples() ==> #[trigger] image@.at(r, c, ch, s)
                        == self@.at(
                        r % (self@.nrow as int),
                        c % (self@.ncol as int),
                        ch % (self@.nchan as int),
                        s % (self@.nsamples() as int),
                    )
            },
            out matches Err(error) ==> error == Error::ShapeMismatch,
    {
        let dims = self.image_dims();
        let samples = self.samples();
        let nrow = match dims.0.checked_mul(repetitions_row) {
            Some(nrow) => nrow,
            None => {
                return Err(Error::ShapeMismatch);
            },
        };
        let ncol = match dims.1.checked_mul(repetitions_col) {
            Some(ncol) => ncol,
            None => {
                return Err(Error::ShapeMismatch);
            },
        };
        let nchan = match dims.2.checked_mul(repetitions_chan) {
            Some(nchan) => nchan,
            None => {
                return Err(Error::ShapeMismatch);
            },
        };
        let nsamples = match samples.checked_mul(repetition_sample) {
            Some(nsamples) => nsamples,
            None => {
                return Err(Error::ShapeMismatch);
            },
        };
        let entry = |c: usize, r: usize, ch: usize, s: usize| -> (value: S)
            requires
                r < nrow,
                c < ncol,
                ch < nchan,
                s < nsamples,
            ensures
                value == self@.at(
                    (r as int) % (dims.0 as int),
                    (c as int) % (dims.1 as int),
                    (ch as int) % (dims.2 as int),
                    (s as int) % (samples as int),
                ),
            {
                assert(dims.0 > 0 && dims.1 > 0 && dims.2 > 0 && samples > 0) by (nonlinear_arith)
                    requires
                        r < dims.0 * repetitions_row,
                        c < dims.1 * repetitions_col,
                        ch < dims.2 * repetitions_chan,
                        s < samples * repetition_sample,
                ;
                match self.get(r % dims.0, c % dims.1, ch % dims.2, s % samples) {
                    Some(value) => value,
                    None => S::zero(),
                }
            };
        Ok(Image::from_fn(nrow, ncol, nchan, nsamples, entry))
    }

    /// The mean of the numbers that differ from the entry in row `r`, column `c`, channel
    /// `ch` and sample `s` in their place along dimension `dim` only.
    pub fn mean_at(&self, dim: usize, r: usize, c: usize, ch: usize, s: usize) -> (out: S)
        requires
            dim <= 3,
            dim == 0 || r < self@.nrow,
            dim == 1 || c < self@.ncol,
            dim == 2 || ch < self@.nchan,
            dim == 3 || s < self@.nsamples(),
        ensures
            out == crate::scalar::mean_spec(
                self@.along(dim as int, r as int, c as int, ch as int, s as int),
            ),
    {
        let dims = self.image_dims();
        let samples = self.samples();
        let size = if dim == 0 {
            dims.0
        } else if dim == 1 {
            dims.1
        } else if dim == 2 {
            dims.2
        } else {
            samples
        };
        let ghost wanted = self@.along(dim as int, r as int, c as int, ch as int, s as int);
        let mut values: Vec<S> = Vec::new();
        let mut k: usize = 0;
        while k < size
            invariant
                k <= size,
                size == self@.size_along(dim as int),
                dim <= 3,
                dim == 0 || r < self@.nrow,
                dim == 1 || c < self@.ncol,
                dim == 2 || ch < self@.nchan,
                dim == 3 || s < self@.nsamples(),
                wanted == self@.along(dim as int, r as int, c as int, ch as int, s as int),
                values@.len() == k,
                forall|i: int| 0 <= i < k ==> (#[trigger] values@[i]) == wanted[i],
            decreases size - k,
        {
            let found = if dim == 0 {
                self.get(k, c, ch, s)
            } else if dim == 1 {
                self.get(r, k, ch, s)
            } else if dim == 2 {
                self.get(r, c, k, s)
            } else {
                self.get(r, c, ch, k)
            };
            let value = match found {
                Some(value) => value,
                None => S::zero(),
            };
            values.push(value);
            k += 1;
        }
        assert(values@ =~= wanted);
        crate::scalar::mean(&values)
    }

    /// The mean along dimension `dim`: the image with one place along that dimension,
    /// which holds the mean of the entries along it. Rows, columns, channels and samples
    /// are the dimensions zero to three.
    pub fn mean_along(&self, dim: usize) -> (out: Result<Self, Error>)
        ensures
            out is Ok <==> dim <= 3,
            out matches Ok(image) ==> {
                &&& image@.has_shape(
                    if dim == 0 {
                        1
                    } else {
                        self@.nrow
                    },
                    if dim == 1 {
                        1
                    } else {
                        self@.ncol
                    },
                    if dim == 2 {
                        1
                    } else {
                        self@.nchan
                    },
                    if dim == 3 {
                        1
                    } else {
                        self@.nsamples()
                    },
                )
                &&& forall|r: int, c: int, ch: int, s: int|
                    0 <= r < image@.nrow && 0 <= c < image@.ncol && 0 <= ch < image@.nchan && 0
                        <= s < image@.nsamples() ==> #[trigger] image@.at(r, c, ch, s)
                        == crate::scalar::mean_spec(self@.along(dim as int, r, c, ch, s))
            },
            out matches Err(error) ==> error == Error::ShapeMismatch,
    {
        if dim > 3 {
            return Err(Error::ShapeMismatch);
        }
        let dims = self.image_dims();
        let samples = self.samples();
        let nrow = if dim == 0 {
            1
        } else {
            dims.0
        };
        let ncol = if dim == 1 {
            1
        } else {
            dims.1
        };
        let nchan = if dim == 2 {
            1
        } else {
            dims.2
        };
        let nsamples = if dim == 3 {
            1
        } else {
            samples
        };
        let entry = |c: usize, r: usize, ch: usize, s: usize| -> (value: S)
            requires
                r < nrow,
                c < ncol,
                ch < nchan,
                s < nsamples,
            ensures
                value == crate::scalar::mean_spec(
                    self@.along(dim as int, r as int, c as int, ch as int, s as int),
                ),
            {
                self.mean_at(dim, r, c, ch, s)
            };
        Ok(Image::from_fn(nrow, ncol, nchan, nsamples, entry))
    }
}

} // verus!
