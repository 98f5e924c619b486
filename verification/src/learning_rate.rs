//! Learning rates as functions of the epoch.

use crate::scalar::Scalar;
use vstd::prelude::*;

verus! {

/// How the learning rate depends on the epoch.
#[derive(Debug, Copy)]
pub enum LearningRateSchedule<S: Scalar> {
    /// The same rate in every epoch.
    Constant(S),
    /// A rate that starts at `initial_learning_rate` and is divided by one plus
    /// `decay_rate` times the epoch.
    InverseTimeDecay { initial_learning_rate: S, decay_rate: S },
}

impl<S: Scalar> Clone for LearningRateSchedule<S> {
    fn clone(&self) -> (out: Self)
        ensures
            out == *self,
    {
        *self
    }
}

impl<S: Scalar> LearningRateSchedule<S> {
    /// The rate in epoch `epoch`.
    pub open spec fn rate(self, epoch: usize) -> S {
        match self {
            LearningRateSchedule::Constant(rate) => rate,
            LearningRateSchedule::InverseTimeDecay { initial_learning_rate, decay_rate } => {
                initial_learning_rate.div_spec(
                    S::one_spec().add_spec(decay_rate.mul_spec(S::from_count_spec(epoch))),
                )
            },
        }
    }

    /// The schedule used where none is given: the constant rate of one thousandth.
    pub open spec fn default_spec() -> Self {
        LearningRateSchedule::Constant(crate::scalar::ratio_spec::<S>(1, 1000))
    }

    /// The rate in epoch `epoch`.
    pub fn get_learning_rate(&self, epoch: usize) -> (rate: S)
        ensures
            rate == self.rate(epoch),
    {
        match self {
            LearningRateSchedule::Constant(rate) => *rate,
            LearningRateSchedule::InverseTimeDecay { initial_learning_rate, decay_rate } => {
                initial_learning_rate.div(S::one().add(decay_rate.mul(S::from_count(epoch))))
            },
        }
    }
}

/// The schedule used where none is given: the constant rate of one thousandth.
pub fn default_learning_rate<S: Scalar>() -> (schedule: LearningRateSchedule<S>)
    ensures
        schedule == LearningRateSchedule::<S>::default_spec(),
{
    LearningRateSchedule::Constant(crate::scalar::ratio(1, 1000))
}

} // verus!
