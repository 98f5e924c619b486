//! Pooling on fixed-point numbers: where the gradient of a pooled entry goes.

use crate::fixed::{Fixed, UNITS};
use crate::linalg::MatrixView;
use crate::vision::pooling::{avg_unpool_spec, max_unpool_spec, window_count, Place};
use vstd::prelude::*;

verus! {

/// A window of two rows and two columns has four entries.
pub proof fn lemma_window_of_four()
    ensures
        window_count::<Fixed>(2) == (Fixed { units: 4_000_000 }),
{
    assert(Fixed::count(2).units == 2 * UNITS);
    assert((2 * UNITS) * (2 * UNITS) == 4_000_000_000_000int) by (nonlinear_arith)
        requires
            UNITS == 1_000_000,
    ;
    assert(4_000_000_000_000int / 1_000_000 == 4_000_000int);
}

/// Mean pooling over windows of two rows and two columns sends a gradient of one at a
/// pooled entry back as a quarter to each of the four entries of the window, and a gradient
/// of zero as zero.
pub proof fn lemma_avg_unpool_quarters(
    gradient: MatrixView<Fixed>,
    nrow: nat,
    ncol: nat,
    r: int,
    c: int,
)
    requires
        0 <= r < nrow,
        0 <= c < ncol,
        r / 2 < gradient.nrow,
        c / 2 < gradient.ncol(),
    ensures
        gradient.columns[c / 2][r / 2] == Fixed::unit() ==> avg_unpool_spec(
            gradient,
            2,
            nrow,
            ncol,
        ).at(r, c) == (Fixed { units: 250_000 }),
        gradient.columns[c / 2][r / 2] == Fixed::nothing() ==> avg_unpool_spec(
            gradient,
            2,
            nrow,
            ncol,
        ).at(r, c) == Fixed::nothing(),
{
    lemma_window_of_four();
    assert(1_000_000int * 1_000_000 == 1_000_000_000_000int) by (nonlinear_arith);
    assert(1_000_000_000_000int / 4_000_000 == 250_000int);
    assert(0int * 1_000_000 == 0int) by (nonlinear_arith);
    assert(0int / 4_000_000 == 0int);
}

/// An entry that lies in no window of the pooled plane gets no gradient from mean pooling.
pub proof fn lemma_avg_unpool_outside(
    gradient: MatrixView<Fixed>,
    k: usize,
    nrow: nat,
    ncol: nat,
    r: int,
    c: int,
)
    requires
        0 <= r < nrow,
        0 <= c < ncol,
        !(r / (k as int) < gradient.nrow && c / (k as int) < gradient.ncol()),
    ensures
        avg_unpool_spec(gradient, k, nrow, ncol).at(r, c) == Fixed::nothing(),
{
}

/// Maximum pooling sends the whole gradient of a pooled entry back to the entry that was
/// recorded as the largest of its window, and zero to every other entry.
pub proof fn lemma_max_unpool_routes(
    gradient: MatrixView<Fixed>,
    places: Seq<Seq<Place>>,
    k: usize,
    nrow: nat,
    ncol: nat,
    r: int,
    c: int,
)
    requires
        0 <= r < nrow,
        0 <= c < ncol,
        r / (k as int) < gradient.nrow,
        c / (k as int) < gradient.ncol(),
    ensures
        max_unpool_spec(gradient, places, k, nrow, ncol).at(r, c) == if places[c / (k as int)][r
            / (k as int)] == (r as usize, c as usize) {
            gradient.columns[c / (k as int)][r / (k as int)]
        } else {
            Fixed::nothing()
        },
{
}

} // verus!
