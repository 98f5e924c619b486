//! Pooling of one plane of an image: each window of `k` rows and `k` columns becomes one
//! entry. The windows do not overlap; rows and columns that fill no window are left out.

use crate::error::Error;
use crate::linalg::{Matrix, MatrixView};
use crate::scalar::Scalar;
use vstd::prelude::*;

verus! {

/// The place of an entry of a plane: its row, then its column.
pub type Place = (usize, usize);

/// The entries of rows `r0` to `r0 + k` of column `c`, top to bottom.
pub open spec fn window_column<S: Scalar>(plane: MatrixView<S>, r0: int, c: int, k: nat) -> Seq<
    S,
> {
    Seq::new(k, |i: int| plane.columns[c][r0 + i])
}

/// The sum of the window of `k` rows and `k` columns that starts on row `r0` of column
/// `c0`: the sum, over its columns left to right, of the sum of each column.
pub open spec fn window_sum<S: Scalar>(plane: MatrixView<S>, r0: int, c0: int, k: nat) -> S {
    crate::scalar::sum_spec(
        Seq::new(k, |j: int| crate::scalar::sum_spec(window_column(plane, r0, c0 + j, k))),
    )
}

/// The number of entries of a window, as a number: `k` times `k`.
pub open spec fn window_count<S: Scalar>(k: usize) -> S {
    S::from_count_spec(k).mul_spec(S::from_count_spec(k))
}

/// The largest entry among the first `n` entries of column `c` from row `r0` down, with
/// the row it stands in. Of equal entries the first one is taken: a later entry takes the
/// place only where the one held is strictly below it.
pub open spec fn column_best<S: Scalar>(plane: MatrixView<S>, r0: int, c: int, n: nat) -> (S, int)
    decreases n,
{
    if n <= 1 {
        (plane.columns[c][r0], r0)
    } else {
        let held = column_best(plane, r0, c, (n - 1) as nat);
        let next = plane.columns[c][r0 + n - 1];
        if held.0.lt_spec(next) {
            (next, r0 + n - 1)
        } else {
            held
        }
    }
}

/// The largest entry among the first `m` columns of the window of `k` rows that starts
/// on row `r0` of column `c0`, with its row and its column. Of equal entries the first
/// one is taken, columns left to right and each column top to bottom.
pub open spec fn window_best<S: Scalar>(
    plane: MatrixView<S>,
    r0: int,
    c0: int,
    k: nat,
    m: nat,
) -> (S, int, int)
    decreases m,
{
    if m <= 1 {
        let best = column_best(plane, r0, c0, k);
        (best.0, best.1, c0)
    } else {
        let held = window_best(plane, r0, c0, k, (m - 1) as nat);
        let next = column_best(plane, r0, c0 + m - 1, k);
        if held.0.lt_spec(next.0) {
            (next.0, next.1, c0 + m - 1)
        } else {
            held
        }
    }
}

/// The plane pooled by the mean: each entry is the sum of its window over the number of
/// entries of a window.
pub open spec fn avg_pool_spec<S: Scalar>(plane: MatrixView<S>, k: usize) -> MatrixView<S> {
    MatrixView::tabulate(
        plane.nrow / (k as nat),
        plane.ncol() / (k as nat),
        |r: int, c: int| window_sum(plane, r * k, c * k, k as nat).div_spec(window_count::<S>(k)),
    )
}

/// The plane pooled by the maximum: each entry is the largest entry of its window.
pub open spec fn max_pool_spec<S: Scalar>(plane: MatrixView<S>, k: usize) -> MatrixView<S> {
    MatrixView::tabulate(
        plane.nrow / (k as nat),
        plane.ncol() / (k as nat),
        |r: int, c: int| window_best(plane, r * k, c * k, k as nat, k as nat).0,
    )
}

/// Where the largest entry of the window of row `r` and column `c` of the pooled plane
/// stands in the plane.
pub open spec fn max_place_spec<S: Scalar>(plane: MatrixView<S>, k: usize, r: int, c: int) -> (
    int,
    int,
) {
    let best = window_best(plane, r * k, c * k, k as nat, k as nat);
    (best.1, best.2)
}

/// Whether `places` holds, for each entry of the plane pooled by the maximum, where the
/// largest entry of its window stands. The table is kept column by column, as the plane is.
pub open spec fn records_max_places<S: Scalar>(
    places: Seq<Seq<Place>>,
    plane: MatrixView<S>,
    k: usize,
) -> bool {
    &&& places.len() == plane.ncol() / (k as nat)
    &&& forall|c: int|
        0 <= c < places.len() ==> (#[trigger] places[c]).len() == plane.nrow / (k as nat)
    &&& forall|r: int, c: int|
        0 <= c < places.len() && 0 <= r < plane.nrow / (k as nat) ==> {
            &&& (#[trigger] places[c][r]).0 == max_place_spec(plane, k, r, c).0
            &&& places[c][r].1 == max_place_spec(plane, k, r, c).1
        }
}

/// The gradient of the mean pooling with respect to a plane of `nrow` rows and `ncol`
/// columns: each entry of a window gets the gradient of the window's entry, over the number
/// of entries of a window; an entry in no window gets zero.
pub open spec fn avg_unpool_spec<S: Scalar>(
    gradient: MatrixView<S>,
    k: usize,
    nrow: nat,
    ncol: nat,
) -> MatrixView<S> {
    MatrixView::tabulate(
        nrow,
        ncol,
        |r: int, c: int|
            if r / (k as int) < gradient.nrow && c / (k as int) < gradient.ncol() {
                gradient.columns[c / (k as int)][r / (k as int)].div_spec(window_count::<S>(k))
            } else {
                S::zero_spec()
            },
    )
}

/// The gradient of the maximum pooling with respect to a plane of `nrow` rows and `ncol`
/// columns: the entry that was the largest of its window gets the whole gradient of the
/// window's entry; every other entry gets zero.
pub open spec fn max_unpool_spec<S: Scalar>(
    gradient: MatrixView<S>,
    places: Seq<Seq<Place>>,
    k: usize,
    nrow: nat,
    ncol: nat,
) -> MatrixView<S> {
    MatrixView::tabulate(
        nrow,
        ncol,
        |r: int, c: int|
            if r / (k as int) < gradient.nrow && c / (k as int) < gradient.ncol() && places[c / (
            k as int)][r / (k as int)] == (r as usize, c as usize) {
                gradient.columns[c / (k as int)][r / (k as int)]
            } else {
                S::zero_spec()
            },
    )
}

/// The windows of a plane lie within it: window `r` of `len / k` windows of `k` entries
/// ends at or before entry `len`.
pub proof fn lemma_window_within(r: int, k: int, len: int)
    requires
        0 < k,
        0 <= r < len / k,
        0 <= len,
    ensures
        0 <= r * k,
        r * k + k <= len,
        (r + 1) * k == r * k + k,
{
    vstd::arithmetic::div_mod::lemma_fundamental_div_mod(len, k);
    vstd::arithmetic::mul::lemma_mul_inequality(r + 1, len / k, k);
    vstd::arithmetic::mul::lemma_mul_is_distributive_add_other_way(k, r, 1);
    vstd::arithmetic::mul::lemma_mul_is_commutative(k, len / k);
    vstd::arithmetic::mul::lemma_mul_inequality(0, r, k);
    assert(len % k >= 0) by {
        vstd::arithmetic::div_mod::lemma_mod_pos_bound(len, k);
    }
}

/// The entry in row `r` of column `c` of a plane that has it.
fn entry<S: Scalar>(plane: &Matrix<S>, r: usize, c: usize) -> (value: S)
    requires
        r < plane@.nrow,
        c < plane@.ncol(),
    ensures
        value == plane@.columns[c as int][r as int],
{
    match plane.index(r, c) {
        Some(value) => value,
        None => S::zero(),
    }
}

/// The plane of `nrow` rows whose columns are the given lists of `nrow` entries.
fn plane_of<S: Scalar>(nrow: usize, columns: Vec<Vec<S>>) -> (out: Matrix<S>)
    requires
        forall|c: int| 0 <= c < columns@.len() ==> (#[trigger] columns@[c])@.len() == nrow,
    ensures
        out@.wf(),
        out@ == (MatrixView { nrow: nrow as nat, columns: MatrixView::<S>::nested(columns@) }),
{
    let ncol = columns.len();
    match Matrix::from_leading_columns(nrow, &columns, ncol) {
        Some(plane) => {
            assert(MatrixView::<S>::nested(columns@).take(ncol as int)
                =~= MatrixView::<S>::nested(columns@));
            plane
        },
        None => {
            assert(false);
            Matrix::zeros(0, 0)
        },
    }
}

/// The sum of the window of `k` rows and `k` columns that starts on row `r0` of column
/// `c0` and lies within the plane.
fn window_sum_of<S: Scalar>(plane: &Matrix<S>, r0: usize, c0: usize, k: usize) -> (total: S)
    requires
        r0 + k <= plane@.nrow,
        c0 + k <= plane@.ncol(),
    ensures
        total == window_sum(plane@, r0 as int, c0 as int, k as nat),
{
    let ghost columns = Seq::new(
        k as nat,
        |j: int| crate::scalar::sum_spec(window_column(plane@, r0 as int, c0 + j, k as nat)),
    );
    let shape = plane.dim();
    let mut total = S::zero();
    let mut j: usize = 0;
    while j < k
        invariant
            r0 + k <= plane@.nrow,
            c0 + k <= plane@.ncol(),
            shape.0 == plane@.nrow,
            shape.1 == plane@.ncol(),
            j <= k,
            columns == Seq::new(
                k as nat,
                |j: int|
                    crate::scalar::sum_spec(window_column(plane@, r0 as int, c0 + j, k as nat)),
            ),
            total == crate::scalar::sum_spec(columns.take(j as int)),
        decreases k - j,
    {
        let ghost entries = window_column(plane@, r0 as int, c0 + j, k as nat);
        let mut column_total = S::zero();
        let mut i: usize = 0;
        while i < k
            invariant
                r0 + k <= plane@.nrow,
                c0 + k <= plane@.ncol(),
                shape.0 == plane@.nrow,
                shape.1 == plane@.ncol(),
                j < k,
                i <= k,
                entries == window_column(plane@, r0 as int, c0 + j, k as nat),
                column_total == crate::scalar::sum_spec(entries.take(i as int)),
            decreases k - i,
        {
            assert(entries.take(i + 1).drop_last() =~= entries.take(i as int));
            column_total = column_total.add(entry(plane, r0 + i, c0 + j));
            i += 1;
        }
        assert(entries.take(i as int) =~= entries);
        assert(columns.take(j + 1).drop_last() =~= columns.take(j as int));
        total = total.add(column_total);
        j += 1;
    }
    assert(columns.take(j as int) =~= columns);
    total
}

/// The largest entry of the window of `k` rows and `k` columns that starts on row `r0` of
/// column `c0` and lies within the plane, with its place.
fn window_best_of<S: Scalar>(plane: &Matrix<S>, r0: usize, c0: usize, k: usize) -> (best: (
    S,
    Place,
))
    requires
        k >= 1,
        r0 + k <= plane@.nrow,
        c0 + k <= plane@.ncol(),
    ensures
        best.0 == window_best(plane@, r0 as int, c0 as int, k as nat, k as nat).0,
        best.1.0 == window_best(plane@, r0 as int, c0 as int, k as nat, k as nat).1,
        best.1.1 == window_best(plane@, r0 as int, c0 as int, k as nat, k as nat).2,
{
    let shape = plane.dim();
    let mut held = entry(plane, r0, c0);
    let mut held_place: Place = (r0, c0);
    let mut j: usize = 0;
    while j < k
        invariant
            k >= 1,
            r0 + k <= plane@.nrow,
            c0 + k <= plane@.ncol(),
            shape.0 == plane@.nrow,
            shape.1 == plane@.ncol(),
            j <= k,
            j >= 1 ==> {
                &&& held == window_best(plane@, r0 as int, c0 as int, k as nat, j as nat).0
                &&& held_place.0 == window_best(plane@, r0 as int, c0 as int, k as nat, j as nat).1
                &&& held_place.1 == window_best(plane@, r0 as int, c0 as int, k as nat, j as nat).2
            },
        decreases k - j,
    {
        let mut column_held = entry(plane, r0, c0 + j);
        let mut column_row: usize = r0;
        let mut i: usize = 1;
        while i < k
            invariant
                k >= 1,
                r0 + k <= plane@.nrow,
                c0 + k <= plane@.ncol(),
                shape.0 == plane@.nrow,
                shape.1 == plane@.ncol(),
                j < k,
                1 <= i <= k,
                column_held == column_best(plane@, r0 as int, c0 + j, i as nat).0,
                column_row == column_best(plane@, r0 as int, c0 + j, i as nat).1,
            decreases k - i,
        {
            let next = entry(plane, r0 + i, c0 + j);
            if column_held.lt(next) {
                column_held = next;
                column_row = r0 + i;
            }
            i += 1;
        }
        if j == 0 {
            held = column_held;
            held_place = (column_row, c0);
        } else if held.lt(column_held) {
            held = column_held;
            held_place = (column_row, c0 + j);
        }
        j += 1;
    }
    (held, held_place)
}

/// Pools a plane by the mean over windows of `k` rows and `k` columns; `k` is at least one.
pub fn avg_pool<S: Scalar>(plane: &Matrix<S>, k: usize) -> (out: Result<Matrix<S>, Error>)
    ensures
        out is Ok <==> k >= 1,
        out matches Ok(pooled) ==> pooled@.wf() && pooled@ == avg_pool_spec(plane@, k),
        out matches Err(error) ==> error == Error::ShapeMismatch,
{
    if k == 0 {
        return Err(Error::ShapeMismatch);
    }
    let shape = plane.dim();
    let nrow = shape.0 / k;
    let ncol = shape.1 / k;
    let count = S::from_count(k).mul(S::from_count(k));
    let mut columns: Vec<Vec<S>> = Vec::new();
    let mut c: usize = 0;
    while c < ncol
        invariant
            k >= 1,
            shape.0 == plane@.nrow,
            shape.1 == plane@.ncol(),
            nrow == shape.0 / k,
            ncol == shape.1 / k,
            count == window_count::<S>(k),
            c <= ncol,
            columns@.len() == c,
            forall|q: int|
                0 <= q < c ==> (#[trigger] columns@[q])@ == avg_pool_spec(plane@, k).columns[q],
        decreases ncol - c,
    {
        proof {
            lemma_window_within(c as int, k as int, shape.1 as int);
        }
        let c0 = c * k;
        let mut column: Vec<S> = Vec::new();
        let mut r: usize = 0;
        while r < nrow
            invariant
                k >= 1,
                shape.0 == plane@.nrow,
                shape.1 == plane@.ncol(),
                nrow == shape.0 / k,
                c0 == c * k,
                c0 + k <= shape.1,
                count == window_count::<S>(k),
                r <= nrow,
                column@.len() == r,
                forall|q: int|
                    0 <= q < r ==> column@[q] == window_sum(
                        plane@,
                        q * k,
                        c * k,
                        k as nat,
                    ).div_spec(window_count::<S>(k)),
            decreases nrow - r,
        {
            proof {
                lemma_window_within(r as int, k as int, shape.0 as int);
            }
            let r0 = r * k;
            column.push(window_sum_of(plane, r0, c0, k).div(count));
            r += 1;
        }
        assert(column@ =~= avg_pool_spec(plane@, k).columns[c as int]);
        columns.push(column);
        c += 1;
    }
    let out = plane_of(nrow, columns);
    assert(out@.columns =~= avg_pool_spec(plane@, k).columns);
    Ok(out)
}

/// Pools a plane by the maximum over windows of `k` rows and `k` columns, and records
/// where the largest entry of each window stands; `k` is at least one.
pub fn max_pool<S: Scalar>(plane: &Matrix<S>, k: usize) -> (out: Result<
    (Matrix<S>, Vec<Vec<Place>>),
    Error,
>)
    ensures
        out is Ok <==> k >= 1,
        out matches Ok(pooled) ==> {
            &&& pooled.0@.wf()
            &&& pooled.0@ == max_pool_spec(plane@, k)
            &&& records_max_places(
                pooled.1@.map_values(|column: Vec<Place>| column@),
                plane@,
                k,
            )
        },
        out matches Err(error) ==> error == Error::ShapeMismatch,
{
    if k == 0 {
        return Err(Error::ShapeMismatch);
    }
    let shape = plane.dim();
    let nrow = shape.0 / k;
    let ncol = shape.1 / k;
    let mut columns: Vec<Vec<S>> = Vec::new();
    let mut places: Vec<Vec<Place>> = Vec::new();
    let mut c: usize = 0;
    while c < ncol
        invariant
            k >= 1,
            shape.0 == plane@.nrow,
            shape.1 == plane@.ncol(),
            nrow == shape.0 / k,
            ncol == shape.1 / k,
            c <= ncol,
            columns@.len() == c,
            places@.len() == c,
            forall|q: int|
                0 <= q < c ==> (#[trigger] columns@[q])@ == max_pool_spec(plane@, k).columns[q],
            forall|q: int| 0 <= q < c ==> (#[trigger] places@[q])@.len() == nrow,
            forall|r: int, q: int|
                0 <= q < c && 0 <= r < nrow ==> {
                    &&& (#[trigger] places@[q]@[r]).0 == max_place_spec(plane@, k, r, q).0
                    &&& places@[q]@[r].1 == max_place_spec(plane@, k, r, q).1
                },
        decreases ncol - c,
    {
        proof {
            lemma_window_within(c as int, k as int, shape.1 as int);
        }
        let c0 = c * k;
        let mut column: Vec<S> = Vec::new();
        let mut column_places: Vec<Place> = Vec::new();
        let mut r: usize = 0;
        while r < nrow
            invariant
                k >= 1,
                shape.0 == plane@.nrow,
                shape.1 == plane@.ncol(),
                nrow == shape.0 / k,
                c0 == c * k,
                c0 + k <= shape.1,
                r <= nrow,
                column@.len() == r,
                column_places@.len() == r,
                forall|q: int|
                    0 <= q < r ==> column@[q] == window_best(
                        plane@,
                        q * k,
                        c * k,
                        k as nat,
                        k as nat,
                    ).0,
                forall|q: int|
                    0 <= q < r ==> {
                        &&& (#[trigger] column_places@[q]).0 == max_place_spec(plane@, k, q, c as int).0
                        &&& column_places@[q].1 == max_place_spec(plane@, k, q, c as int).1
                    },
            decreases nrow - r,
        {
            proof {
                lemma_window_within(r as int, k as int, shape.0 as int);
            }
            let r0 = r * k;
            let best = window_best_of(plane, r0, c0, k);
            column.push(best.0);
            column_places.push(best.1);
            r += 1;
        }
        assert(column@ =~= max_pool_spec(plane@, k).columns[c as int]);
        columns.push(column);
        places.push(column_places);
        c += 1;
    }
    let out = plane_of(nrow, columns);
    assert(out@.columns =~= max_pool_spec(plane@, k).columns);
    proof {
        let table = places@.map_values(|column: Vec<Place>| column@);
        assert forall|q: int| 0 <= q < table.len() implies (#[trigger] table[q]).len()
            == plane@.nrow / (k as nat) by {
            assert(table[q] == places@[q]@);
        }
        assert forall|r: int, q: int|
            0 <= q < table.len() && 0 <= r < plane@.nrow / (k as nat) implies {
            &&& (#[trigger] table[q][r]).0 == max_place_spec(plane@, k, r, q).0
            &&& table[q][r].1 == max_place_spec(plane@, k, r, q).1
        } by {
            assert(table[q] == places@[q]@);
            assert(places@[q]@[r].0 == max_place_spec(plane@, k, r, q).0);
        }
    }
    Ok((out, places))
}

/// The gradient of the mean pooling over windows of `k` rows and `k` columns with respect
/// to a plane of `nrow` rows and `ncol` columns, given the gradient with respect to the
/// pooled plane; `k` is at least one.
pub fn avg_unpool<S: Scalar>(gradient: &Matrix<S>, k: usize, nrow: usize, ncol: usize) -> (out:
    Result<Matrix<S>, Error>)
    ensures
        out is Ok <==> k >= 1,
        out matches Ok(spread) ==> spread@.wf() && spread@ == avg_unpool_spec(
            gradient@,
            k,
            nrow as nat,
            ncol as nat,
        ),
        out matches Err(error) ==> error == Error::ShapeMismatch,
{
    if k == 0 {
        return Err(Error::ShapeMismatch);
    }
    let shape = gradient.dim();
    let count = S::from_count(k).mul(S::from_count(k));
    let mut columns: Vec<Vec<S>> = Vec::new();
    let mut c: usize = 0;
    while c < ncol
        invariant
            k >= 1,
            shape.0 == gradient@.nrow,
            shape.1 == gradient@.ncol(),
            count == window_count::<S>(k),
            c <= ncol,
            columns@.len() == c,
            forall|q: int|
                0 <= q < c ==> (#[trigger] columns@[q])@ == avg_unpool_spec(
                    gradient@,
                    k,
                    nrow as nat,
                    ncol as nat,
                ).columns[q],
        decreases ncol - c,
    {
        let mut column: Vec<S> = Vec::new();
        let mut r: usize = 0;
        while r < nrow
            invariant
                k >= 1,
                shape.0 == gradient@.nrow,
                shape.1 == gradient@.ncol(),
                count == window_count::<S>(k),
                c < ncol,
                r <= nrow,
                column@.len() == r,
                forall|q: int|
                    0 <= q < r ==> column@[q] == avg_unpool_spec(
                        gradient@,
                        k,
                        nrow as nat,
                        ncol as nat,
                    ).columns[c as int][q],
            decreases nrow - r,
        {
            let value = if r / k < shape.0 && c / k < shape.1 {
                entry(gradient, r / k, c / k).div(count)
            } else {
                S::zero()
            };
            column.push(value);
            r += 1;
        }
        assert(column@ =~= avg_unpool_spec(gradient@, k, nrow as nat, ncol as nat).columns[c as int]);
        columns.push(column);
        c += 1;
    }
    let out = plane_of(nrow, columns);
    assert(out@.columns =~= avg_unpool_spec(gradient@, k, nrow as nat, ncol as nat).columns);
    Ok(out)
}

/// Whether the table of places has an entry for each entry of a plane of these columns
/// and rows.
fn covers(places: &Vec<Vec<Place>>, nrow: usize, ncol: usize) -> (covers: bool)
    ensures
        covers == (places@.len() == ncol && forall|c: int|
            0 <= c < places@.len() ==> (#[trigger] places@[c])@.len() == nrow),
{
    if places.len() != ncol {
        return false;
    }
    let mut c: usize = 0;
    while c < places.len()
        invariant
            c <= places@.len(),
            forall|q: int| 0 <= q < c ==> (#[trigger] places@[q])@.len() == nrow,
        decreases places@.len() - c,
    {
        if places[c].len() != nrow {
            return false;
        }
        c += 1;
    }
    true
}

/// The gradient of the maximum pooling over windows of `k` rows and `k` columns with
/// respect to a plane of `nrow` rows and `ncol` columns, given the gradient with respect to
/// the pooled plane and the places that the pooling recorded; `k` is at least one, and the
/// table of places has an entry for each entry of the gradient.
pub fn max_unpool<S: Scalar>(
    gradient: &Matrix<S>,
    places: &Vec<Vec<Place>>,
    k: usize,
    nrow: usize,
    ncol: usize,
) -> (out: Result<Matrix<S>, Error>)
    ensures
        out is Ok <==> (k >= 1 && places@.len() == gradient@.ncol() && forall|c: int|
            0 <= c < places@.len() ==> (#[trigger] places@[c])@.len() == gradient@.nrow),
        out matches Ok(routed) ==> routed@.wf() && routed@ == max_unpool_spec(
            gradient@,
            places@.map_values(|column: Vec<Place>| column@),
            k,
            nrow as nat,
            ncol as nat,
        ),
        out matches Err(error) ==> error == Error::ShapeMismatch,
{
    let shape = gradient.dim();
    if k == 0 || !covers(places, shape.0, shape.1) {
        return Err(Error::ShapeMismatch);
    }
    let ghost table = places@.map_values(|column: Vec<Place>| column@);
    let ghost wanted = max_unpool_spec(gradient@, table, k, nrow as nat, ncol as nat);
    let mut columns: Vec<Vec<S>> = Vec::new();
    let mut c: usize = 0;
    while c < ncol
        invariant
            k >= 1,
            shape.0 == gradient@.nrow,
            shape.1 == gradient@.ncol(),
            places@.len() == shape.1,
            forall|q: int| 0 <= q < places@.len() ==> (#[trigger] places@[q])@.len() == shape.0,
            table == places@.map_values(|column: Vec<Place>| column@),
            wanted == max_unpool_spec(gradient@, table, k, nrow as nat, ncol as nat),
            c <= ncol,
            columns@.len() == c,
            forall|q: int| 0 <= q < c ==> (#[trigger] columns@[q])@ == wanted.columns[q],
        decreases ncol - c,
    {
        let mut column: Vec<S> = Vec::new();
        let mut r: usize = 0;
        while r < nrow
            invariant
                k >= 1,
                shape.0 == gradient@.nrow,
                shape.1 == gradient@.ncol(),
                places@.len() == shape.1,
                forall|q: int| 0 <= q < places@.len() ==> (#[trigger] places@[q])@.len() == shape.0,
                table == places@.map_values(|column: Vec<Place>| column@),
                wanted == max_unpool_spec(gradient@, table, k, nrow as nat, ncol as nat),
                c < ncol,
                r <= nrow,
                column@.len() == r,
                forall|q: int| 0 <= q < r ==> column@[q] == wanted.columns[c as int][q],
            decreases nrow - r,
        {
            let mut value = S::zero();
            if r / k < shape.0 && c / k < shape.1 {
                let place = places[c / k][r / k];
                assert(table[(c / k) as int] == places@[(c / k) as int]@);
                if place.0 == r && place.1 == c {
                    value = entry(gradient, r / k, c / k);
                }
            }
            column.push(value);
            r += 1;
        }
        assert(column@ =~= wanted.columns[c as int]);
        columns.push(column);
        c += 1;
    }
    let out = plane_of(nrow, columns);
    assert(out@.columns =~= wanted.columns);
    Ok(out)
}

} // verus!
