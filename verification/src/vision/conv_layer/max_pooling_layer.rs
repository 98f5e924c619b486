//! Pooling by the maximum.

use crate::error::Error;
use crate::scalar::Scalar;
use crate::vision::conv_layer::avg_pooling_layer::Dims;
use crate::vision::image::{places_view, Image, ImageView, Places};
use crate::vision::pooling::Place;
use vstd::prelude::*;

verus! {

/// What a maximum pooling keeps of a forward pass: the dimensions of the input, and for
/// each window the place of its largest entry.
#[derive(Debug)]
pub struct MaxPoolingCache {
    pub input_dims: Dims,
    pub places: Places,
}

/// A layer that replaces each window of `kernel_size` rows and columns by its largest
/// entry. It has nothing to learn.
#[derive(Debug)]
pub struct MaxPoolingLayer {
    /// The number of rows and of columns of a window.
    pub kernel_size: usize,
    /// What is kept of the last forward pass.
    pub cache: Option<MaxPoolingCache>,
}

/// Mathematical model of a [`MaxPoolingLayer`]: the tables of places are lists.
pub struct MaxPoolingView {
    pub kernel_size: usize,
    pub cache: Option<(Dims, Seq<Seq<Seq<Seq<Place>>>>)>,
}

impl MaxPoolingView {
    /// Whether the layer pools: its windows have an entry.
    pub open spec fn pools(self) -> bool {
        self.kernel_size >= 1
    }

    /// What the layer makes of `input`: each plane pooled by the maximum.
    pub open spec fn output<S: Scalar>(self, input: ImageView<S>) -> ImageView<S> {
        input.max_pool(self.kernel_size)
    }

    /// For each window of each plane of `input`, the place of its largest entry.
    pub open spec fn places_of<S: Scalar>(input: ImageView<S>, k: usize) -> Seq<
        Seq<Seq<Seq<Place>>>,
    > {
        let rows = input.nrow / (k as nat);
        let columns = input.ncol / (k as nat);
        Seq::new(
            input.nsamples(),
            |s: int|
                Seq::new(
                    input.nchan,
                    |ch: int|
                        Seq::new(
                            columns,
                            |c: int|
                                Seq::new(
                                    rows,
                                    |r: int|
                                        (
                                            crate::vision::pooling::max_place_spec(
                                                input.samples[s][ch],
                                                k,
                                                r,
                                                c,
                                            ).0 as usize,
                                            crate::vision::pooling::max_place_spec(
                                                input.samples[s][ch],
                                                k,
                                                r,
                                                c,
                                            ).1 as usize,
                                        ),
                                ),
                        ),
                ),
        )
    }

    /// The layer after a forward pass of `input`.
    pub open spec fn after_forward<S: Scalar>(self, input: ImageView<S>) -> Self {
        MaxPoolingView {
            kernel_size: self.kernel_size,
            cache: Some(
                (
                    (
                        input.nrow as usize,
                        input.ncol as usize,
                        input.nchan as usize,
                        input.nsamples() as usize,
                    ),
                    Self::places_of(input, self.kernel_size),
                ),
            ),
        }
    }

    /// Whether the tables of places have an entry for each entry of `image`.
    pub open spec fn covers<S: Scalar>(places: Seq<Seq<Seq<Seq<Place>>>>, image: ImageView<S>) -> bool {
        &&& places.len() == image.nsamples()
        &&& forall|s: int|
            0 <= s < places.len() ==> {
                &&& (#[trigger] places[s]).len() == image.nchan
                &&& forall|ch: int|
                    0 <= ch < image.nchan ==> {
                        &&& (#[trigger] places[s][ch]).len() == image.ncol
                        &&& forall|c: int|
                            0 <= c < image.ncol ==> (#[trigger] places[s][ch][c]).len()
                                == image.nrow
                    }
            }
    }

    /// Whether a gradient can be sent back: an input has gone through, the gradient has the
    /// shape of the output for that input, and so have the tables of places.
    pub open spec fn accepts_gradient<S: Scalar>(self, output_gradient: ImageView<S>) -> bool {
        &&& self.pools()
        &&& self.cache matches Some(cache) && output_gradient.nrow == cache.0.0
            / self.kernel_size && output_gradient.ncol == cache.0.1 / self.kernel_size
            && output_gradient.nchan == cache.0.2 && output_gradient.nsamples() == cache.0.3
            && Self::covers(cache.1, output_gradient)
    }

    /// The gradient of the loss with respect to the input: the entry that was the largest
    /// of its window gets the whole gradient of the window's entry; every other entry gets
    /// zero.
    pub open spec fn input_gradient<S: Scalar>(self, output_gradient: ImageView<S>) -> ImageView<
        S,
    > {
        let cache = self.cache->0;
        output_gradient.max_unpool(cache.1, self.kernel_size, cache.0.0 as nat, cache.0.1 as nat)
    }

    /// Tables that have an entry for each entry of an image as lists have one as vectors,
    /// and the other way round.
    pub proof fn lemma_covers<S: Scalar>(places: Seq<Vec<Vec<Vec<Place>>>>, image: ImageView<S>)
        ensures
            Self::covers(places_view(places), image) == image.covered_by(places),
    {
        let tables = places_view(places);
        assert forall|s: int| 0 <= s < places.len() implies (#[trigger] tables[s])
            == places[s]@.map_values(
            |plane: Vec<Vec<Place>>| plane@.map_values(|column: Vec<Place>| column@),
        ) by {}
        assert forall|s: int, ch: int|
            0 <= s < places.len() && 0 <= ch < places[s]@.len() implies (#[trigger] tables[s][ch])
            == places[s]@[ch]@.map_values(|column: Vec<Place>| column@) by {
            assert(tables[s] == places[s]@.map_values(
                |plane: Vec<Vec<Place>>| plane@.map_values(|column: Vec<Place>| column@),
            ));
        }
        if image.covered_by(places) {
            assert forall|s: int| 0 <= s < tables.len() implies {
                &&& (#[trigger] tables[s]).len() == image.nchan
                &&& forall|ch: int|
                    0 <= ch < image.nchan ==> {
                        &&& (#[trigger] tables[s][ch]).len() == image.ncol
                        &&& forall|c: int|
                            0 <= c < image.ncol ==> (#[trigger] tables[s][ch][c]).len()
                                == image.nrow
                    }
            } by {
                assert(places[s]@.len() == image.nchan);
                assert forall|ch: int| 0 <= ch < image.nchan implies {
                    &&& (#[trigger] tables[s][ch]).len() == image.ncol
                    &&& forall|c: int|
                        0 <= c < image.ncol ==> (#[trigger] tables[s][ch][c]).len() == image.nrow
                } by {
                    assert(places[s]@[ch]@.len() == image.ncol);
                    assert forall|c: int| 0 <= c < image.ncol implies (
                    #[trigger] tables[s][ch][c]).len() == image.nrow by {
                        assert(places[s]@[ch]@[c]@.len() == image.nrow);
                    }
                }
            }
        }
        if Self::covers(tables, image) {
            assert forall|s: int| 0 <= s < places.len() implies {
                &&& (#[trigger] places[s])@.len() == image.nchan
                &&& forall|ch: int|
                    0 <= ch < image.nchan ==> {
                        &&& (#[trigger] places[s]@[ch])@.len() == image.ncol
                        &&& forall|c: int|
                            0 <= c < image.ncol ==> (#[trigger] places[s]@[ch]@[c])@.len()
                                == image.nrow
                    }
            } by {
                assert(tables[s].len() == image.nchan);
                assert forall|ch: int| 0 <= ch < image.nchan implies {
                    &&& (#[trigger] places[s]@[ch])@.len() == image.ncol
                    &&& forall|c: int|
                        0 <= c < image.ncol ==> (#[trigger] places[s]@[ch]@[c])@.len()
                            == image.nrow
                } by {
                    assert(tables[s][ch].len() == image.ncol);
                    assert forall|c: int| 0 <= c < image.ncol implies (
                    #[trigger] places[s]@[ch]@[c])@.len() == image.nrow by {
                        assert(tables[s][ch][c].len() == image.nrow);
                    }
                }
            }
        }
    }

    /// Tables that record the places of the largest entries of `input`, for windows that
    /// have an entry, are the tables of those places.
    pub proof fn lemma_recorded_places<S: Scalar>(
        tables: Seq<Seq<Seq<Seq<Place>>>>,
        input: ImageView<S>,
        k: usize,
    )
        requires
            k >= 1,
            input.wf(),
            input.records_max_places(tables, k),
        ensures
            tables == Self::places_of(input, k),
    {
        let wanted = Self::places_of(input, k);
        let rows = input.nrow / (k as nat);
        let columns = input.ncol / (k as nat);
        assert(wanted.len() == input.nsamples());
        assert forall|s: int| 0 <= s < tables.len() implies tables[s] == wanted[s] by {
            assert(wanted[s].len() == input.nchan);
            assert(tables[s].len() == input.nchan);
            assert(input.samples[s].len() == input.nchan);
            assert forall|ch: int| 0 <= ch < input.nchan implies tables[s][ch]
                == wanted[s][ch] by {
                let table = tables[s][ch];
                assert(input.samples[s][ch].has_shape(input.nrow, input.ncol));
                assert(crate::vision::pooling::records_max_places(table, input.samples[s][ch], k));
                assert(wanted[s][ch].len() == columns);
                assert(input.samples[s][ch].ncol() == input.ncol);
                assert(table.len() == columns);
                assert forall|c: int| 0 <= c < table.len() implies table[c]
                    == wanted[s][ch][c] by {
                    assert(wanted[s][ch][c].len() == rows);
                    assert(table[c].len() == rows);
                    assert forall|r: int| 0 <= r < table[c].len() implies table[c][r]
                        == wanted[s][ch][c][r] by {
                        assert(table[c][r].0 == crate::vision::pooling::max_place_spec(
                            input.samples[s][ch],
                            k,
                            r,
                            c,
                        ).0);
                    }
                    assert(table[c] =~= wanted[s][ch][c]);
                }
                assert(table =~= wanted[s][ch]);
            }
            assert(tables[s] =~= wanted[s]);
        }
        assert(tables =~= wanted);
    }
}

impl View for MaxPoolingLayer {
    type V = MaxPoolingView;

    open spec fn view(&self) -> MaxPoolingView {
        MaxPoolingView {
            kernel_size: self.kernel_size,
            cache: match self.cache {
                Some(cache) => Some((cache.input_dims, places_view(cache.places@))),
                None => None,
            },
        }
    }
}

impl MaxPoolingLayer {
    /// A layer that pools over windows of `kernel_size` rows and columns, and that no input
    /// has gone through.
    pub fn new(kernel_size: usize) -> (layer: Self)
        ensures
            layer@ == (MaxPoolingView { kernel_size, cache: None }),
    {
        MaxPoolingLayer { kernel_size, cache: None }
    }

    /// Sends `input` through the layer and keeps, for the backward pass, its dimensions and
    /// the place of the largest entry of each window. The windows must have an entry.
    pub fn forward<S: Scalar>(&mut self, input: Image<S>) -> (out: Result<Image<S>, Error>)
        ensures
            out is Ok <==> old(self)@.pools(),
            out matches Ok(output) ==> {
                &&& output@.wf()
                &&& output@ == old(self)@.output(input@)
                &&& final(self)@ == old(self)@.after_forward(input@)
            },
            out matches Err(error) ==> error == Error::ShapeMismatch && final(self)@ == old(self)@,
    {
        let dims = input.image_dims();
        let samples = input.samples();
        match input.max_pool(self.kernel_size) {
            Ok(pooled) => {
                proof {
                    MaxPoolingView::lemma_recorded_places(
                        places_view(pooled.1@),
                        input@,
                        self.kernel_size,
                    );
                }
                self.cache = Some(
                    MaxPoolingCache {
                        input_dims: (dims.0, dims.1, dims.2, samples),
                        places: pooled.1,
                    },
                );
                Ok(pooled.0)
            },
            Err(error) => Err(error),
        }
    }

    /// Sends `output_gradient`, which must have the shape of the last output, back through
    /// the layer.
    pub fn backward<S: Scalar>(&mut self, epoch: usize, output_gradient: Image<S>) -> (out: Result<
        Image<S>,
        Error,
    >)
        ensures
            final(self)@ == old(self)@,
            out is Ok <==> old(self)@.accepts_gradient(output_gradient@),
            out matches Ok(input_gradient) ==> {
                &&& input_gradient@.wf()
                &&& input_gradient@ == old(self)@.input_gradient(output_gradient@)
            },
            out matches Err(error) ==> error == if old(self)@.cache is None {
                Error::UninitializedState
            } else {
                Error::ShapeMismatch
            },
    {
        let gradient_dims = output_gradient.image_dims();
        match &self.cache {
            None => Err(Error::UninitializedState),
            Some(cache) => {
                let dims = cache.input_dims;
                proof {
                    MaxPoolingView::lemma_covers(cache.places@, output_gradient@);
                }
                if self.kernel_size == 0 {
                    return Err(Error::ShapeMismatch);
                }
                if gradient_dims.0 != dims.0 / self.kernel_size || gradient_dims.1 != dims.1
                    / self.kernel_size || gradient_dims.2 != dims.2 || output_gradient.samples()
                    != dims.3 {
                    return Err(Error::ShapeMismatch);
                }
                output_gradient.max_unpool(&cache.places, self.kernel_size, dims.0, dims.1)
            },
        }
    }
}

} // verus!
