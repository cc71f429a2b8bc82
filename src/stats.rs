//! Population statistics of the heritable traits.
use vstd::prelude::*;
use crate::agent::Agent;

verus! {

/// The exact moments of a trait over a non-empty population: the number of
/// agents, the sum of the values and the sum of their squares. The mean is
/// `sum / count` and the (biased) variance is
/// `(count * sum_sq - sum * sum) / (count * count)`.
#[derive(Clone, Copy, Debug, PartialEq, Eq, Structural)]
pub struct TraitMoments {
    pub count: u64,
    pub sum: u128,
    pub sum_sq: u128,
}

/// The sum of a sequence of trait values.
pub open spec fn sum_of(s: Seq<u32>) -> int
    decreases s.len(),
{
    if s.len() == 0 { 0 } else { sum_of(s.drop_last()) + s.last() }
}

/// The sum of the squares of a sequence of trait values.
pub open spec fn sum_sq_of(s: Seq<u32>) -> int
    decreases s.len(),
{
    if s.len() == 0 { 0 } else { sum_sq_of(s.drop_last()) + s.last() * s.last() }
}

/// The numerator of the variance: `count * count` times the variance.
pub open spec fn variance_numerator(m: TraitMoments) -> int {
    m.count * m.sum_sq - m.sum * m.sum
}

/// The moments of the values `s`.
pub open spec fn moments_of(s: Seq<u32>, m: TraitMoments) -> bool {
    &&& m.count == s.len()
    &&& m.sum == sum_of(s)
    &&& m.sum_sq == sum_sq_of(s)
}

/// The `b` values of a population, in order.
pub open spec fn b_values(pop: Seq<Agent>) -> Seq<u32> {
    pop.map_values(|a: Agent| a.b)
}

/// The `lmax` values of a population, in order.
pub open spec fn lmax_values(pop: Seq<Agent>) -> Seq<u32> {
    pop.map_values(|a: Agent| a.lmax)
}

proof fn lemma_sums_bounded(s: Seq<u32>)
    ensures
        0 <= sum_of(s) <= s.len() * 0xffff_ffff,
        0 <= sum_sq_of(s) <= s.len() * (0xffff_ffff * 0xffff_ffff),
    decreases s.len(),
{
    if s.len() > 0 {
        lemma_sums_bounded(s.drop_last());
        let x = s.last() as int;
        assert(0 <= x * x <= 0xffff_ffff * 0xffff_ffff) by (nonlinear_arith)
            requires 0 <= x <= 0xffff_ffff;
        assert((s.len() - 1) * 0xffff_ffff + 0xffff_ffff == s.len() * 0xffff_ffff) by (nonlinear_arith);
        assert((s.len() - 1) * (0xffff_ffff * 0xffff_ffff) + 0xffff_ffff * 0xffff_ffff
            == s.len() * (0xffff_ffff * 0xffff_ffff)) by (nonlinear_arith);
    }
}

/// The moments of a sequence of trait values; `None` when it is empty.
pub fn trait_moments(values: &Vec<u32>) -> (r: Option<TraitMoments>)
    ensures
        r is None <==> values@.len() == 0,
        r matches Some(m) ==> moments_of(values@, m),
{
    if values.len() == 0 {
        return None;
    }
    let mut sum: u128 = 0;
    let mut sum_sq: u128 = 0;
    let mut i: usize = 0;
    while i < values.len()
        invariant
            i <= values@.len(),
            sum == sum_of(values@.take(i as int)),
            sum_sq == sum_sq_of(values@.take(i as int)),
        decreases values@.len() - i,
    {
        let ghost next = values@.take(i + 1);
        assert(next.drop_last() == values@.take(i as int));
        proof {
            lemma_sums_bounded(next);
            assert(next.len() * 0xffff_ffff <= 0xffff_ffff_ffff_ffff * 0xffff_ffff) by (nonlinear_arith)
                requires next.len() <= 0xffff_ffff_ffff_ffff;
            assert(next.len() * (0xffff_ffff * 0xffff_ffff) <= 0xffff_ffff_ffff_ffff * (0xffff_ffff * 0xffff_ffff)) by (nonlinear_arith)
                requires next.len() <= 0xffff_ffff_ffff_ffff;
        }
        let x = values[i] as u128;
        sum = sum + x;
        sum_sq = sum_sq + x * x;
        i = i + 1;
    }
    assert(values@.take(values@.len() as int) == values@);
    Some(TraitMoments { count: values.len() as u64, sum, sum_sq })
}

/// The moments of the `b` trait over the population; `None` when the
/// population is empty.
pub fn get_population_b_stats(population: &Vec<Agent>) -> (r: Option<TraitMoments>)
    ensures
        r is None <==> population@.len() == 0,
        r matches Some(m) ==> moments_of(b_values(population@), m),
{
    let mut values: Vec<u32> = Vec::with_capacity(population.len());
    let mut i: usize = 0;
    while i < population.len()
        invariant
            i <= population@.len(),
            values@ == b_values(population@.take(i as int)),
        decreases population@.len() - i,
    {
        values.push(population[i].b);
        i = i + 1;
        assert(values@ == b_values(population@.take(i as int)));
    }
    assert(population@.take(population@.len() as int) == population@);
    trait_moments(&values)
}

/// The moments of the `lmax` trait over the population; `None` when the
/// population is empty.
pub fn get_population_lmax_stats(population: &Vec<Agent>) -> (r: Option<TraitMoments>)
    ensures
        r is None <==> population@.len() == 0,
        r matches Some(m) ==> moments_of(lmax_values(population@), m),
{
    let mut values: Vec<u32> = Vec::with_capacity(population.len());
    let mut i: usize = 0;
    while i < population.len()
        invariant
            i <= population@.len(),
            values@ == lmax_values(population@.take(i as int)),
        decreases population@.len() - i,
    {
        values.push(population[i].lmax);
        i = i + 1;
        assert(values@ == lmax_values(population@.take(i as int)));
    }
    assert(population@.take(population@.len() as int) == population@);
    trait_moments(&values)
}

/// Over a population of one agent, the mean of either trait is that
/// agent's value and the variance is zero.
pub proof fn lemma_single_agent_moments(a: Agent, mb: TraitMoments, ml: TraitMoments)
    requires
        moments_of(b_values(seq![a]), mb),
        moments_of(lmax_values(seq![a]), ml),
    ensures
        mb.count == 1,
        mb.sum == a.b,
        variance_numerator(mb) == 0,
        ml.count == 1,
        ml.sum == a.lmax,
        variance_numerator(ml) == 0,
{
    assert(b_values(seq![a]) == seq![a.b]);
    assert(lmax_values(seq![a]) == seq![a.lmax]);
    lemma_single_value_moments(a.b, mb);
    lemma_single_value_moments(a.lmax, ml);
}

proof fn lemma_single_value_moments(v: u32, m: TraitMoments)
    requires
        moments_of(seq![v], m),
    ensures
        m.count == 1,
        m.sum == v,
        variance_numerator(m) == 0,
{
    let s = seq![v];
    assert(s.drop_last() == Seq::<u32>::empty());
    assert(sum_of(s) == sum_of(s.drop_last()) + v);
    assert(sum_sq_of(s) == sum_sq_of(s.drop_last()) + v * v);
}

} // verus!
