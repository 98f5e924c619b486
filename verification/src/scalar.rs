//! The numbers that tensors hold.
//!
//! The engine is written once for every number type. A type takes part by implementing
//! [`Scalar`]: one executable operation for each arithmetic step the engine takes, and
//! beside it a specification function that names the value the operation returns. The
//! contracts of tensors, layers and optimizers are stated over those names, so they say
//! which operations are combined and in which order, and leave the arithmetic itself to
//! the number type.

use vstd::prelude::*;

verus! {

/// A number type for tensors.
///
/// Each operation promises one thing: that it returns the value its specification
/// function names, so that the same arguments always give the same result. Verus holds an
/// implementation written in this crate's language to that, as it does the fixed-point
/// numbers of [`crate::fixed::Fixed`], whose specification functions say in full what each
/// operation returns. An implementation written outside of it, as one over machine
/// floating-point numbers has to be, is taken at its word: the specification functions then
/// keep the bodies given here, which say nothing about the values, and every result proved
/// over them is a statement about whatever functions the operations compute.
pub trait Scalar: Copy {
    /// The number zero.
    open spec fn zero_spec() -> Self {
        arbitrary()
    }

    /// The number one.
    open spec fn one_spec() -> Self {
        arbitrary()
    }

    /// The number that counts `n` things.
    open spec fn from_count_spec(n: usize) -> Self {
        arbitrary()
    }

    /// The whole part of the number, as a count: zero where the number is below one or is
    /// no number, the largest count where it is beyond it.
    open spec fn to_count_spec(self) -> usize {
        arbitrary()
    }

    open spec fn add_spec(self, rhs: Self) -> Self {
        arbitrary()
    }

    open spec fn sub_spec(self, rhs: Self) -> Self {
        arbitrary()
    }

    open spec fn mul_spec(self, rhs: Self) -> Self {
        arbitrary()
    }

    open spec fn div_spec(self, rhs: Self) -> Self {
        arbitrary()
    }

    /// The square root.
    open spec fn sqrt_spec(self) -> Self {
        arbitrary()
    }

    /// The exponential.
    open spec fn exp_spec(self) -> Self {
        arbitrary()
    }

    /// Whether the number is strictly below `rhs`.
    open spec fn lt_spec(self, rhs: Self) -> bool {
        arbitrary()
    }

    /// Whether the number is an ordinary one: not infinite, and not the result of an
    /// undefined operation.
    open spec fn is_finite_spec(self) -> bool {
        arbitrary()
    }

    /// Whether the number equals `rhs`.
    open spec fn equals_spec(self, rhs: Self) -> bool {
        arbitrary()
    }

    /// The number that a text stands for, if it stands for one.
    open spec fn from_text_spec(text: Seq<char>) -> Option<Self> {
        arbitrary()
    }

    fn zero() -> (value: Self)
        ensures
            value == Self::zero_spec(),
    ;

    fn one() -> (value: Self)
        ensures
            value == Self::one_spec(),
    ;

    fn from_count(n: usize) -> (value: Self)
        ensures
            value == Self::from_count_spec(n),
    ;

    fn to_count(self) -> (count: usize)
        ensures
            count == self.to_count_spec(),
    ;

    fn add(self, rhs: Self) -> (sum: Self)
        ensures
            sum == self.add_spec(rhs),
    ;

    fn sub(self, rhs: Self) -> (difference: Self)
        ensures
            difference == self.sub_spec(rhs),
    ;

    fn mul(self, rhs: Self) -> (product: Self)
        ensures
            product == self.mul_spec(rhs),
    ;

    fn div(self, rhs: Self) -> (quotient: Self)
        ensures
            quotient == self.div_spec(rhs),
    ;

    fn sqrt(self) -> (root: Self)
        ensures
            root == self.sqrt_spec(),
    ;

    fn exp(self) -> (power: Self)
        ensures
            power == self.exp_spec(),
    ;

    fn lt(self, rhs: Self) -> (below: bool)
        ensures
            below == self.lt_spec(rhs),
    ;

    fn is_finite(self) -> (finite: bool)
        ensures
            finite == self.is_finite_spec(),
    ;

    fn equals(self, rhs: Self) -> (same: bool)
        ensures
            same == self.equals_spec(rhs),
    ;

    fn from_text(text: &str) -> (value: Option<Self>)
        ensures
            value == Self::from_text_spec(text@),
    ;
}

/// The number `numerator / denominator`, both given as counts.
pub open spec fn ratio_spec<S: Scalar>(numerator: usize, denominator: usize) -> S {
    S::from_count_spec(numerator).div_spec(S::from_count_spec(denominator))
}

/// The number `numerator / denominator`, both given as counts.
pub fn ratio<S: Scalar>(numerator: usize, denominator: usize) -> (value: S)
    ensures
        value == ratio_spec::<S>(numerator, denominator),
{
    S::from_count(numerator).div(S::from_count(denominator))
}

/// The sum of a list of numbers: zero, then each number added in turn, first to last.
pub open spec fn sum_spec<S: Scalar>(values: Seq<S>) -> S
    decreases values.len(),
{
    if values.len() == 0 {
        S::zero_spec()
    } else {
        sum_spec(values.drop_last()).add_spec(values.last())
    }
}

/// Adds up a list of numbers, first to last, starting from zero.
pub fn sum<S: Scalar>(values: &Vec<S>) -> (total: S)
    ensures
        total == sum_spec(values@),
{
    let mut total = S::zero();
    let mut i: usize = 0;
    while i < values.len()
        invariant
            i <= values@.len(),
            total == sum_spec(values@.take(i as int)),
        decreases values@.len() - i,
    {
        assert(values@.take(i + 1).drop_last() =~= values@.take(i as int));
        total = total.add(values[i]);
        i += 1;
    }
    assert(values@.take(i as int) =~= values@);
    total
}

/// `base` raised to the power `exponent`: one, multiplied by `base` that many times.
pub open spec fn power_spec<S: Scalar>(base: S, exponent: nat) -> S
    decreases exponent,
{
    if exponent == 0 {
        S::one_spec()
    } else {
        power_spec(base, (exponent - 1) as nat).mul_spec(base)
    }
}

/// Raises `base` to the power `exponent`.
pub fn power<S: Scalar>(base: S, exponent: usize) -> (value: S)
    ensures
        value == power_spec(base, exponent as nat),
{
    let mut value = S::one();
    let mut i: usize = 0;
    while i < exponent
        invariant
            i <= exponent,
            value == power_spec(base, i as nat),
        decreases exponent - i,
    {
        value = value.mul(base);
        i += 1;
    }
    value
}

/// The mean of a list of numbers: their sum over their number.
pub open spec fn mean_spec<S: Scalar>(values: Seq<S>) -> S {
    sum_spec(values).div_spec(S::from_count_spec(values.len() as usize))
}

/// The squared distance of each number of a list from `center`.
pub open spec fn squared_distances_spec<S: Scalar>(values: Seq<S>, center: S) -> Seq<S> {
    Seq::new(
        values.len(),
        |i: int| values[i].sub_spec(center).mul_spec(values[i].sub_spec(center)),
    )
}

/// The standard deviation of a list of numbers: the square root of the mean of their
/// squared distances from their mean.
pub open spec fn standard_deviation_spec<S: Scalar>(values: Seq<S>) -> S {
    mean_spec(squared_distances_spec(values, mean_spec(values))).sqrt_spec()
}

/// The mean of a list of numbers.
pub fn mean<S: Scalar>(values: &Vec<S>) -> (value: S)
    ensures
        value == mean_spec(values@),
{
    sum(values).div(S::from_count(values.len()))
}

/// The standard deviation of a list of numbers.
pub fn standard_deviation<S: Scalar>(values: &Vec<S>) -> (value: S)
    ensures
        value == standard_deviation_spec(values@),
{
    let center = mean(values);
    let mut distances: Vec<S> = Vec::new();
    let mut i: usize = 0;
    while i < values.len()
        invariant
            i <= values@.len(),
            distances@.len() == i,
            forall|k: int|
                0 <= k < i ==> distances@[k] == values@[k].sub_spec(center).mul_spec(
                    values@[k].sub_spec(center),
                ),
        decreases values@.len() - i,
    {
        let distance = values[i].sub(center);
        distances.push(distance.mul(distance));
        i += 1;
    }
    assert(distances@ =~= squared_distances_spec(values@, center));
    mean(&distances).sqrt()
}

} // verus!
