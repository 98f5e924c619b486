//! Chance, drawn from the generator that the `rand` crate keeps for each thread.

use crate::scalar::Scalar;
use rand::seq::SliceRandom;
use rand::Rng;
use vstd::prelude::*;

verus! {

/// The generator that `rand` keeps for each thread. Nothing is known of what is inside.
#[verifier::external_type_specification]
#[verifier::external_body]
pub struct ExThreadRng(rand::rngs::ThreadRng);

/// A handle on the generator of the current thread: `rand::thread_rng`. Nothing is
/// claimed of it. (`rand` gives up, by a panic, where the system cannot seed the
/// generator.)
#[verifier::external_body]
pub(crate) fn thread_rng() -> rand::rngs::ThreadRng {
    rand::thread_rng()
}

/// Puts `values` in a random order: `rand::seq::SliceRandom::shuffle`. The shuffle only
/// swaps entries, so all that is claimed is that the list holds afterwards what it held
/// before, each value as often.
#[verifier::external_body]
pub(crate) fn shuffle(values: &mut Vec<usize>, rng: &mut rand::rngs::ThreadRng)
    ensures
        final(values)@.to_multiset() == old(values)@.to_multiset(),
{
    values.shuffle(rng);
}

/// Thirty-two random bits: `rand::Rng::gen`. Nothing is claimed of them.
#[verifier::external_body]
pub(crate) fn random_bits(rng: &mut rand::rngs::ThreadRng) -> u32 {
    rng.gen::<u32>()
}

/// The list `0, 1, ..` of `n` places.
pub open spec fn places_spec(n: nat) -> Seq<usize> {
    Seq::new(n, |i: int| i as usize)
}

/// Whether `order` names each of `n` places once.
pub open spec fn is_order_of(order: Seq<usize>, n: nat) -> bool {
    order.to_multiset() == places_spec(n).to_multiset()
}

/// An order of `n` places names as many places, each of them below `n`.
pub proof fn lemma_order_in_range(order: Seq<usize>, n: nat)
    requires
        is_order_of(order, n),
    ensures
        order.len() == n,
        forall|i: int| 0 <= i < order.len() ==> (#[trigger] order[i]) < n,
{
    broadcast use vstd::seq_lib::group_to_multiset_ensures;

    let places = places_spec(n);
    assert(order.len() == order.to_multiset().len());
    assert(places.len() == places.to_multiset().len());
    assert forall|i: int| 0 <= i < order.len() implies (#[trigger] order[i]) < n by {
        assert(order.to_multiset().count(order[i]) > 0);
        assert(places.contains(order[i]));
        let k = choose|k: int| 0 <= k < places.len() && places[k] == order[i];
        assert(places[k] == k as usize);
    }
}

/// The places `0, 1, ..` of `n` things, in a random order.
pub fn random_order(n: usize) -> (order: Vec<usize>)
    ensures
        is_order_of(order@, n as nat),
{
    let mut order: Vec<usize> = Vec::new();
    let mut i: usize = 0;
    while i < n
        invariant
            i <= n,
            order@.len() == i,
            forall|k: int| 0 <= k < i ==> order@[k] == k as usize,
        decreases n - i,
    {
        order.push(i);
        i += 1;
    }
    assert(order@ =~= places_spec(n as nat));
    let mut rng = thread_rng();
    shuffle(&mut order, &mut rng);
    order
}

/// The number of values that a draw from the unit interval can take: two to the power 24,
/// which every usual floating-point format counts exactly.
pub const UNIT_STEPS: usize = 16777216;

/// The number between zero and one, one excluded, that thirty-two random bits stand for:
/// their upper twenty-four bits, as a count, over the number of such counts.
pub open spec fn unit_spec<S: Scalar>(bits: u32) -> S {
    S::from_count_spec((bits / 256) as usize).div_spec(S::from_count_spec(UNIT_STEPS))
}

/// The number between `min` and `max` that thirty-two random bits stand for:
/// `min + (max - min) * unit`.
pub open spec fn uniform_spec<S: Scalar>(min: S, max: S, bits: u32) -> S {
    min.add_spec(max.sub_spec(min).mul_spec(unit_spec::<S>(bits)))
}

/// The sum of the numbers of the unit interval that a list of draws stands for, first to
/// last, starting from zero.
pub open spec fn units_sum_spec<S: Scalar>(draws: Seq<u32>) -> S
    decreases draws.len(),
{
    if draws.len() == 0 {
        S::zero_spec()
    } else {
        units_sum_spec::<S>(draws.drop_last()).add_spec(unit_spec::<S>(draws.last()))
    }
}

/// The number that twelve draws stand for in a bell-shaped distribution around `mean` with
/// the standard deviation `std_dev`: `mean + std_dev * (sum - 6)`, for `sum` the sum of the
/// twelve numbers of the unit interval. (The sum of twelve such numbers has the mean six
/// and the variance one.)
pub open spec fn normal_spec<S: Scalar>(mean: S, std_dev: S, draws: Seq<u32>) -> S {
    mean.add_spec(std_dev.mul_spec(units_sum_spec::<S>(draws).sub_spec(S::from_count_spec(6))))
}

/// Whether `value` is a number between `min` and `max` that some draw stands for.
pub open spec fn is_uniform_draw<S: Scalar>(value: S, min: S, max: S) -> bool {
    exists|bits: u32| value == uniform_spec(min, max, bits)
}

/// Whether `value` is a number that some twelve draws stand for in the bell-shaped
/// distribution around `mean` with the standard deviation `std_dev`.
pub open spec fn is_normal_draw<S: Scalar>(value: S, mean: S, std_dev: S) -> bool {
    exists|draws: Seq<u32>| draws.len() == 12 && value == normal_spec(mean, std_dev, draws)
}

/// The number between zero and one that `bits` stand for.
pub fn unit_from<S: Scalar>(bits: u32) -> (value: S)
    ensures
        value == unit_spec::<S>(bits),
{
    S::from_count((bits / 256) as usize).div(S::from_count(UNIT_STEPS))
}

/// The number between `min` and `max` that `bits` stand for.
pub fn uniform_from<S: Scalar>(min: S, max: S, bits: u32) -> (value: S)
    ensures
        value == uniform_spec(min, max, bits),
{
    min.add(max.sub(min).mul(unit_from(bits)))
}

/// The number that the draws stand for in a bell-shaped distribution around `mean` with the
/// standard deviation `std_dev`.
pub fn normal_from<S: Scalar>(mean: S, std_dev: S, draws: &Vec<u32>) -> (value: S)
    ensures
        value == normal_spec(mean, std_dev, draws@),
{
    let mut sum = S::zero();
    let mut i: usize = 0;
    while i < draws.len()
        invariant
            i <= draws@.len(),
            sum == units_sum_spec::<S>(draws@.take(i as int)),
        decreases draws@.len() - i,
    {
        assert(draws@.take(i + 1).drop_last() =~= draws@.take(i as int));
        sum = sum.add(unit_from(draws[i]));
        i += 1;
    }
    assert(draws@.take(i as int) =~= draws@);
    mean.add(std_dev.mul(sum.sub(S::from_count(6))))
}

/// A random number between `min` and `max`, spread evenly.
pub fn random_uniform<S: Scalar>(min: S, max: S, rng: &mut rand::rngs::ThreadRng) -> (value: S)
    ensures
        is_uniform_draw(value, min, max),
{
    let bits = random_bits(rng);
    uniform_from(min, max, bits)
}

/// A random number around `mean`, spread in the shape of a bell with the standard deviation
/// `std_dev`: twelve draws from the unit interval are added up.
pub fn random_normal<S: Scalar>(mean: S, std_dev: S, rng: &mut rand::rngs::ThreadRng) -> (value:
    S)
    ensures
        is_normal_draw(value, mean, std_dev),
{
    let mut draws: Vec<u32> = Vec::new();
    let mut i: usize = 0;
    while i < 12
        invariant
            i <= 12,
            draws@.len() == i,
        decreases 12 - i,
    {
        draws.push(random_bits(rng));
        i += 1;
    }
    let value = normal_from(mean, std_dev, &draws);
    assert(draws@.len() == 12 && value == normal_spec(mean, std_dev, draws@));
    value
}

} // verus!
