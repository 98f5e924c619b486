//! The ways in which the engine can fail.

use vstd::prelude::*;

verus! {

/// Why an operation of the engine failed. Every failure ends the run it occurs in.
#[derive(Debug, Clone, Copy, PartialEq, Eq, Structural)]
pub enum Error {
    /// Two tensors, or a tensor and a layer, do not fit on each other.
    ShapeMismatch,
    /// Something was read before it was first written: a gradient was sent back through a
    /// layer that no input has gone through.
    UninitializedState,
    /// A set of parameters does not fit the network it is given to.
    ParameterCountMismatch,
    /// The dataset lacks a column that training needs.
    MissingRequiredColumn,
    /// A loss stopped being an ordinary number.
    NumericalDivergence,
}

} // verus!
