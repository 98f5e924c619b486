//! Choosing samples by their places.

use crate::linalg::MatrixView;
use crate::scalar::Scalar;
use vstd::prelude::*;

verus! {

/// How many of `samples` samples make the first part when they are cut in two at the share
/// `ratio`: the whole part of the ratio times their number, and never more than there are.
pub open spec fn split_point<S: Scalar>(ratio: S, samples: usize) -> nat {
    let wanted = ratio.mul_spec(S::from_count_spec(samples)).to_count_spec();
    if wanted <= samples {
        wanted as nat
    } else {
        samples as nat
    }
}

/// How many of `samples` samples make the first part when they are cut in two at the share
/// `ratio`.
pub fn split_at<S: Scalar>(ratio: S, samples: usize) -> (split: usize)
    ensures
        split == split_point(ratio, samples),
        split <= samples,
{
    let wanted = ratio.mul(S::from_count(samples)).to_count();
    if wanted <= samples {
        wanted
    } else {
        samples
    }
}

/// The samples of `data` in the given order.
pub open spec fn picked<S: Scalar>(data: Seq<Seq<S>>, order: Seq<usize>) -> Seq<Seq<S>> {
    Seq::new(order.len(), |i: int| data[order[i] as int])
}

/// A copy of the samples of `data` that `order` names, from place `from` to place
/// `to` of the order.
pub fn pick<S: Scalar>(data: &Vec<Vec<S>>, order: &Vec<usize>, from: usize, to: usize) -> (out: Vec<Vec<S>>)
    requires
        from <= to <= order@.len(),
        forall|i: int| 0 <= i < order@.len() ==> (#[trigger] order@[i]) < data@.len(),
    ensures
        out@.len() == to - from,
        MatrixView::<S>::nested(out@) == picked(
            MatrixView::<S>::nested(data@),
            order@,
        ).subrange(from as int, to as int),
{
    let mut out: Vec<Vec<S>> = Vec::new();
    let mut i: usize = from;
    while i < to
        invariant
            from <= i <= to <= order@.len(),
            forall|i: int| 0 <= i < order@.len() ==> (#[trigger] order@[i]) < data@.len(),
            out@.len() == i - from,
            forall|k: int|
                0 <= k < i - from ==> (#[trigger] out@[k])@ == data@[order@[from
                    + k] as int]@,
        decreases to - i,
    {
        out.push(crate::linalg::copied(&data[order[i]]));
        i += 1;
    }
    assert(MatrixView::<S>::nested(out@) =~= picked(
        MatrixView::<S>::nested(data@),
        order@,
    ).subrange(from as int, to as int));
    out
}

/// Whether `order` names samples of `data` only.
pub fn names_samples(order: &Vec<usize>, samples: usize) -> (valid: bool)
    ensures
        valid == forall|i: int| 0 <= i < order@.len() ==> (#[trigger] order@[i]) < samples,
{
    let mut i: usize = 0;
    while i < order.len()
        invariant
            i <= order@.len(),
            forall|k: int| 0 <= k < i ==> (#[trigger] order@[k]) < samples,
        decreases order@.len() - i,
    {
        if order[i] >= samples {
            return false;
        }
        i += 1;
    }
    true
}

} // verus!
