//! Scores of predictions given as plain vectors.

use crate::error::Error;
use crate::linalg::{Matrix, MatrixView};
use crate::scalar::Scalar;
use vstd::prelude::*;

verus! {

/// The squared differences of two lists of one length, entry by entry.
pub open spec fn squared_errors_spec<S: Scalar>(y: Seq<S>, y_hat: Seq<S>) -> Seq<S> {
    Seq::new(y.len(), |i: int| y[i].sub_spec(y_hat[i]).mul_spec(y[i].sub_spec(y_hat[i])))
}

/// The coefficient of determination of the predictions `y_hat` for the values `y`: one,
/// minus the sum of the squared errors over the sum of the squared distances of the values
/// from their mean.
pub open spec fn r2_score_spec<S: Scalar>(y: Seq<S>, y_hat: Seq<S>) -> S {
    S::one_spec().sub_spec(
        crate::scalar::sum_spec(squared_errors_spec(y, y_hat)).div_spec(
            crate::scalar::sum_spec(
                crate::scalar::squared_distances_spec(y, crate::scalar::mean_spec(y)),
            ),
        ),
    )
}

/// The coefficient of determination of predictions of several outputs: the mean of the
/// coefficients of the outputs. `y` and `y_hat` hold one column for each sample.
pub open spec fn r2_score_matrix_spec<S: Scalar>(y: MatrixView<S>, y_hat: MatrixView<S>) -> S {
    crate::scalar::mean_spec(Seq::new(y.nrow, |j: int| r2_score_spec(y.row(j), y_hat.row(j))))
}

/// The coefficient of determination of the predictions `y_hat` for the values `y`, which
/// must be as many.
pub fn r2_score<S: Scalar>(y: &Vec<S>, y_hat: &Vec<S>) -> (out: Result<S, Error>)
    ensures
        out is Ok <==> y@.len() == y_hat@.len(),
        out matches Ok(score) ==> score == r2_score_spec(y@, y_hat@),
        out matches Err(error) ==> error == Error::ShapeMismatch,
{
    if y.len() != y_hat.len() {
        return Err(Error::ShapeMismatch);
    }
    let center = crate::scalar::mean(y);
    let mut errors: Vec<S> = Vec::new();
    let mut distances: Vec<S> = Vec::new();
    let mut i: usize = 0;
    while i < y.len()
        invariant
            y@.len() == y_hat@.len(),
            i <= y@.len(),
            errors@.len() == i,
            distances@.len() == i,
            forall|k: int|
                0 <= k < i ==> errors@[k] == y@[k].sub_spec(y_hat@[k]).mul_spec(
                    y@[k].sub_spec(y_hat@[k]),
                ),
            forall|k: int|
                0 <= k < i ==> distances@[k] == y@[k].sub_spec(center).mul_spec(
                    y@[k].sub_spec(center),
                ),
        decreases y@.len() - i,
    {
        let error = y[i].sub(y_hat[i]);
        errors.push(error.mul(error));
        let distance = y[i].sub(center);
        distances.push(distance.mul(distance));
        i += 1;
    }
    assert(errors@ =~= squared_errors_spec(y@, y_hat@));
    assert(distances@ =~= crate::scalar::squared_distances_spec(y@, center));
    Ok(S::one().sub(crate::scalar::sum(&errors).div(crate::scalar::sum(&distances))))
}

/// The coefficient of determination of the predictions `y_hat` for the values `y`, both
/// given as one vector for each sample: the mean of the coefficients of the outputs. The
/// vectors of each side must have one length, and the two sides one shape.
pub fn r2_score_vector2<S: Scalar>(y: &Vec<Vec<S>>, y_hat: &Vec<Vec<S>>) -> (out: Result<
    S,
    Error,
>)
    ensures
        out is Ok <==> {
            &&& MatrixView::<S>::rectangular(MatrixView::<S>::nested(y@))
            &&& MatrixView::<S>::rectangular(MatrixView::<S>::nested(y_hat@))
            &&& MatrixView::from_columns(MatrixView::<S>::nested(y@)).nrow
                == MatrixView::from_columns(MatrixView::<S>::nested(y_hat@)).nrow
            &&& y@.len() == y_hat@.len()
        },
        out matches Ok(score) ==> score == r2_score_matrix_spec(
            MatrixView::from_columns(MatrixView::<S>::nested(y@)),
            MatrixView::from_columns(MatrixView::<S>::nested(y_hat@)),
        ),
        out matches Err(error) ==> error == Error::ShapeMismatch,
{
    let values = Matrix::from_column_leading_vector2(y)?;
    let predictions = Matrix::from_column_leading_vector2(y_hat)?;
    let shape = values.dim();
    let predictions_shape = predictions.dim();
    if shape.0 != predictions_shape.0 || shape.1 != predictions_shape.1 {
        return Err(Error::ShapeMismatch);
    }
    let mut scores: Vec<S> = Vec::new();
    let mut j: usize = 0;
    while j < shape.0
        invariant
            shape.0 == values@.nrow,
            shape.0 == predictions@.nrow,
            values@.ncol() == predictions@.ncol(),
            j <= shape.0,
            scores@.len() == j,
            forall|k: int|
                0 <= k < j ==> scores@[k] == r2_score_spec(values@.row(k), predictions@.row(k)),
        decreases shape.0 - j,
    {
        let row = values.get_row(j);
        let predicted_row = predictions.get_row(j);
        match (row, predicted_row) {
            (Some(row), Some(predicted_row)) => {
                match r2_score(&row, &predicted_row) {
                    Ok(score) => {
                        scores.push(score);
                    },
                    Err(error) => {
                        return Err(error);
                    },
                }
            },
            _ => {
                return Err(Error::ShapeMismatch);
            },
        }
        j += 1;
    }
    assert(scores@ =~= Seq::new(
        values@.nrow,
        |j: int| r2_score_spec(values@.row(j), predictions@.row(j)),
    ));
    Ok(crate::scalar::mean(&scores))
}

} // verus!
