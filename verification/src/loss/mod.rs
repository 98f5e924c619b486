//! Losses: how far predictions are from what was expected, and in which direction.

use crate::error::Error;
use crate::linalg::{BinaryOp, Matrix, MatrixView, UnaryOp};
use crate::scalar::Scalar;
use vstd::prelude::*;

verus! {

/// The losses that the engine knows.
#[derive(Debug, Clone, Copy, PartialEq, Eq, Structural)]
pub enum Losses {
    /// The mean of the squared differences.
    MSE,
}

impl Losses {
    /// The loss function of this kind.
    pub closed spec fn to_loss_spec(self) -> Loss {
        Loss { kind: self }
    }

    /// The loss function of this kind.
    pub fn to_loss(&self) -> (loss: Loss)
        ensures
            loss == self.to_loss_spec(),
            loss.kind() == *self,
    {
        Loss { kind: *self }
    }
}

/// A loss function together with its derivative.
#[derive(Debug, Clone, Copy)]
pub struct Loss {
    kind: Losses,
}

impl Loss {
    /// Which loss this is.
    pub closed spec fn kind(&self) -> Losses {
        self.kind
    }

    /// The difference of predictions and expected values, entry by entry.
    pub open spec fn difference<S: Scalar>(y_true: MatrixView<S>, y_pred: MatrixView<S>) -> MatrixView<
        S,
    > {
        y_pred.zip(BinaryOp::Sub, y_true)
    }

    /// The loss of `y_pred` against `y_true`. For the mean squared error: the mean, over
    /// all entries, of the squared difference.
    pub open spec fn loss_spec<S: Scalar>(
        &self,
        y_true: MatrixView<S>,
        y_pred: MatrixView<S>,
    ) -> S {
        match self.kind() {
            Losses::MSE => Self::difference(y_true, y_pred).map(UnaryOp::Square).mean(),
        }
    }

    /// The derivative of the loss with respect to each prediction. For the mean squared
    /// error: twice the difference, over the number of entries.
    pub open spec fn loss_prime_spec<S: Scalar>(
        &self,
        y_true: MatrixView<S>,
        y_pred: MatrixView<S>,
    ) -> MatrixView<S> {
        match self.kind() {
            Losses::MSE => Self::difference(y_true, y_pred).with_scalar(
                BinaryOp::Mul,
                S::from_count_spec(2),
            ).with_scalar(BinaryOp::Div, y_pred.count()),
        }
    }

    /// Whether the two have one shape.
    pub open spec fn same_shape<S: Scalar>(a: MatrixView<S>, b: MatrixView<S>) -> bool {
        a.nrow == b.nrow && a.ncol() == b.ncol()
    }

    /// The loss function of the given kind.
    pub fn new(kind: Losses) -> (loss: Self)
        ensures
            loss.kind() == kind,
    {
        Loss { kind }
    }

    /// The loss of the predictions `y_pred` against the expected `y_true`, which must have
    /// the same shape.
    pub fn loss<S: Scalar>(&self, y_true: &Matrix<S>, y_pred: &Matrix<S>) -> (out: Result<S, Error>)
        ensures
            out is Ok <==> Self::same_shape(y_true@, y_pred@),
            out matches Ok(value) ==> value == self.loss_spec(y_true@, y_pred@),
            out matches Err(error) ==> error == Error::ShapeMismatch,
    {
        let true_shape = y_true.dim();
        let pred_shape = y_pred.dim();
        if true_shape.0 != pred_shape.0 || true_shape.1 != pred_shape.1 {
            return Err(Error::ShapeMismatch);
        }
        match self.kind {
            Losses::MSE => {
                let difference = y_pred.component_sub(y_true)?;
                Ok(difference.square().mean())
            },
        }
    }

    /// The derivative of the loss with respect to each entry of `y_pred`.
    pub fn loss_prime<S: Scalar>(&self, y_true: &Matrix<S>, y_pred: &Matrix<S>) -> (out: Result<
        Matrix<S>,
        Error,
    >)
        ensures
            out is Ok <==> Self::same_shape(y_true@, y_pred@),
            out matches Ok(slope) ==> slope@ == self.loss_prime_spec(y_true@, y_pred@),
            out matches Err(error) ==> error == Error::ShapeMismatch,
    {
        let true_shape = y_true.dim();
        let pred_shape = y_pred.dim();
        if true_shape.0 != pred_shape.0 || true_shape.1 != pred_shape.1 {
            return Err(Error::ShapeMismatch);
        }
        match self.kind {
            Losses::MSE => {
                let difference = y_pred.component_sub(y_true)?;
                let count = S::from_count(pred_shape.0).mul(S::from_count(pred_shape.1));
                Ok(difference.scalar_mul(S::from_count(2)).scalar_div(count))
            },
        }
    }

    /// The loss of predictions against expected values, both given as one vector for each
    /// sample. The vectors of each side must have one length, and the two sides one shape.
    pub fn loss_vec<S: Scalar>(&self, y_true: &Vec<Vec<S>>, y_pred: &Vec<Vec<S>>) -> (out: Result<
        S,
        Error,
    >)
        ensures
            out is Ok <==> {
                &&& MatrixView::<S>::rectangular(MatrixView::<S>::nested(y_true@))
                &&& MatrixView::<S>::rectangular(MatrixView::<S>::nested(y_pred@))
                &&& Self::same_shape(
                    MatrixView::from_columns(MatrixView::<S>::nested(y_true@)),
                    MatrixView::from_columns(MatrixView::<S>::nested(y_pred@)),
                )
            },
            out matches Ok(value) ==> value == self.loss_spec(
                MatrixView::from_columns(MatrixView::<S>::nested(y_true@)).transpose(),
                MatrixView::from_columns(MatrixView::<S>::nested(y_pred@)).transpose(),
            ),
            out matches Err(error) ==> error == Error::ShapeMismatch,
    {
        let y_true = Matrix::from_row_leading_vector2(y_true)?;
        let y_pred = Matrix::from_row_leading_vector2(y_pred)?;
        self.loss(&y_true, &y_pred)
    }
}

} // verus!
