//! Offspring: the fertility test of a couple, trait inheritance and mutation.
use vstd::prelude::*;
use crate::agent::{trait_from, trait_of_sample, Agent};
use crate::chance::{bernoulli, bernoulli_with, occurs, random_u32, PROB_HALF, PROB_ONE};

verus! {

/// The mutation settings of the two heritable traits. A mutation rate is a
/// fixed-point probability (see `PROB_ONE`).
#[derive(Clone, Copy, Debug, PartialEq, Eq, Structural)]
pub struct Heredity {
    pub mutable_b: bool,
    pub mutable_lmax: bool,
    pub b_mutation_rate: u64,
    pub lmax_mutation_rate: u64,
}

/// The trait value inherited from two parents: the mean of theirs.
pub open spec fn parental_mean(x: u32, y: u32) -> int {
    (x + y) / 2
}

/// A trait value moved by a mutation of size `noise`, floored at zero.
pub open spec fn mutated(value: int, noise: int) -> int {
    trait_from(value + noise)
}

/// Whether `r` is a possible outcome of the mutation step on `value`, with a
/// mutation of size `noise` that happens with probability `rate`.
pub open spec fn possible_mutation(value: int, rate: u64, noise: int, r: int) -> bool {
    if rate == 0 {
        r == value
    } else if rate >= PROB_ONE {
        r == mutated(value, noise)
    } else {
        r == value || r == mutated(value, noise)
    }
}

/// The mean of two parental trait values.
pub fn mean_of_parents(x: u32, y: u32) -> (r: u32)
    ensures
        r == parental_mean(x, y),
{
    ((x as u64 + y as u64) / 2) as u32
}

/// The mutation step on a given uniform draw `u`: the value moves by `noise`
/// (floored at zero) when the event of probability `rate` takes place.
pub fn mutate_with(value: u32, rate: u64, noise: i64, u: u32) -> (r: u32)
    ensures
        r == if occurs(rate, u) { mutated(value as int, noise as int) } else { value as int },
{
    if bernoulli_with(rate, u) {
        trait_of_sample(value as i128 + noise as i128)
    } else {
        value
    }
}

/// Draws the mutation step: with probability `mutation_rate` the parameter
/// moves by `noise` (a draw of the mutation distribution centred on zero),
/// floored at zero; otherwise it stays as it is.
pub fn mutate_parameter(param: &mut u32, mutation_rate: u64, noise: i64)
    ensures
        possible_mutation(*old(param) as int, mutation_rate, noise as int, *final(param) as int),
{
    if bernoulli(mutation_rate) {
        *param = trait_of_sample(*param as i128 + noise as i128);
    }
}

/// The fertility test of a couple succeeds on the draws `u1` (male) and `u2`
/// (female).
pub open spec fn fertile(male_chance: u64, female_chance: u64, u1: u32, u2: u32) -> bool {
    occurs(male_chance, u1) && occurs(female_chance, u2)
}

/// Draws the fertility test of a couple: two independent trials, one on the
/// male's chance and one on the female's; both must succeed.
pub fn reproduction_test_couple(male_chance: u64, female_chance: u64) -> (r: bool)
    ensures
        exists|u1: u32, u2: u32| r == #[trigger] fertile(male_chance, female_chance, u1, u2),
        male_chance == 0 || female_chance == 0 ==> !r,
        male_chance >= PROB_ONE && female_chance >= PROB_ONE ==> r,
{
    let u1 = random_u32();
    let u2 = random_u32();
    let r = bernoulli_with(male_chance, u1) && bernoulli_with(female_chance, u2);
    assert(r == fertile(male_chance, female_chance, u1, u2));
    r
}

/// Whether `child` is a possible offspring of `father` and `mother`: newborn,
/// of either sex, with each trait the parental mean, mutated where the
/// heredity settings allow it, by `b_noise` and `lmax_noise`.
pub open spec fn possible_child(
    father: Agent,
    mother: Agent,
    heredity: Heredity,
    b_noise: int,
    lmax_noise: int,
    child: Agent,
) -> bool {
    &&& child.age == 0
    &&& exists|u: u32| child.female == occurs(PROB_HALF, u)
    &&& possible_mutation(
        parental_mean(father.b, mother.b),
        if heredity.mutable_b { heredity.b_mutation_rate } else { 0 },
        b_noise,
        child.b as int,
    )
    &&& possible_mutation(
        parental_mean(father.lmax, mother.lmax),
        if heredity.mutable_lmax { heredity.lmax_mutation_rate } else { 0 },
        lmax_noise,
        child.lmax as int,
    )
}

/// Draws the child of a couple: age zero, sex drawn with probability one
/// half, and each trait the mean of the parents' values, mutated when the
/// trait is mutable.
pub fn reproduction_couple(
    father: &Agent,
    mother: &Agent,
    heredity: &Heredity,
    b_noise: i64,
    lmax_noise: i64,
) -> (r: Agent)
    ensures
        possible_child(*father, *mother, *heredity, b_noise as int, lmax_noise as int, r),
        r.age == 0,
{
    let mut b = mean_of_parents(father.b, mother.b);
    if heredity.mutable_b {
        mutate_parameter(&mut b, heredity.b_mutation_rate, b_noise);
    }
    let mut lmax = mean_of_parents(father.lmax, mother.lmax);
    if heredity.mutable_lmax {
        mutate_parameter(&mut lmax, heredity.lmax_mutation_rate, lmax_noise);
    }
    let female = bernoulli(PROB_HALF);
    Agent { age: 0, female, b, lmax }
}

/// Without mutation, or at a mutation rate of zero, a trait passes on
/// unchanged; at a rate of one, a mutation of non-zero size moves every
/// positive trait value.
pub proof fn lemma_mutation_rates(value: u32, noise: i64, r: int)
    ensures
        possible_mutation(value as int, 0, noise as int, r) ==> r == value,
        possible_mutation(value as int, PROB_ONE, noise as int, r) && noise != 0 && value > 0
            && value + noise <= u32::MAX ==> r != value,
{
}

} // verus!
