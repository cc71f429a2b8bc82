//! Death: the per-agent survival test and the removal of the dead.
use vstd::prelude::*;
use crate::agent::Agent;
use crate::chance::{bernoulli, bernoulli_with, occurs, PROB_ONE};
use vstd::seq_lib::lemma_multiset_commutative;

verus! {

broadcast use vstd::seq_lib::group_to_multiset_ensures;

/// The mortality model: the probability that an agent dies within one time
/// step of `time_step` ticks, as a fixed-point probability (see `PROB_ONE`).
/// A value at or above `PROB_ONE` means certain death.
pub trait HazardModel {
    /// The probability that the model gives for the agent and time step.
    spec fn probability_for(&self, agent: Agent, time_step: u64) -> u64;

    fn death_probability(&self, agent: &Agent, time_step: u64) -> (r: u64)
        ensures
            r == self.probability_for(*agent, time_step),
    ;
}

/// A hazard that does not depend on the agent.
pub struct ConstantHazard {
    pub probability: u64,
}

impl HazardModel for ConstantHazard {
    open spec fn probability_for(&self, agent: Agent, time_step: u64) -> u64 {
        self.probability
    }

    fn death_probability(&self, _agent: &Agent, _time_step: u64) -> (r: u64) {
        self.probability
    }
}

/// The removal of post-reproductive agents. A menopause age of `None`
/// disables the removal for that sex.
#[derive(Clone, Copy, Debug, PartialEq, Eq, Structural)]
pub struct RemovalPolicy {
    pub remove_non_reproducing: bool,
    pub male_menopause: Option<u64>,
    pub female_menopause: Option<u64>,
}

/// The menopause age that applies to an agent of the given sex.
pub open spec fn menopause_of(policy: RemovalPolicy, female: bool) -> Option<u64> {
    if female { policy.female_menopause } else { policy.male_menopause }
}

/// The agent is past the menopause age of its sex and the policy removes it.
pub open spec fn forced_removal(agent: Agent, policy: RemovalPolicy) -> bool {
    policy.remove_non_reproducing && match menopause_of(policy, agent.female) {
        Some(m) => agent.age > m,
        None => false,
    }
}

/// Whether `dead` is a possible outcome of the death test of `agent` under a
/// death probability `p`: forced removal always kills, otherwise the
/// stochastic test decides.
pub open spec fn possible_death(agent: Agent, policy: RemovalPolicy, p: u64, dead: bool) -> bool {
    if forced_removal(agent, policy) {
        dead
    } else {
        exists|u: u32| dead == occurs(p, u)
    }
}

/// Whether forced removal applies to the agent.
pub fn is_forced_removal(agent: &Agent, policy: &RemovalPolicy) -> (r: bool)
    ensures
        r == forced_removal(*agent, *policy),
{
    if !policy.remove_non_reproducing {
        return false;
    }
    let menopause = if agent.female { policy.female_menopause } else { policy.male_menopause };
    match menopause {
        Some(m) => agent.age > m,
        None => false,
    }
}

/// The death test of one agent on a given uniform draw `u`.
pub fn death_decision(agent: &Agent, probability: u64, policy: &RemovalPolicy, u: u32) -> (r: bool)
    ensures
        r == (forced_removal(*agent, *policy) || occurs(probability, u)),
{
    if is_forced_removal(agent, policy) {
        true
    } else {
        bernoulli_with(probability, u)
    }
}

/// Draws the death test of one agent whose death probability is `probability`.
pub fn death_test(agent: &Agent, probability: u64, policy: &RemovalPolicy) -> (r: bool)
    ensures
        possible_death(*agent, *policy, probability, r),
        forced_removal(*agent, *policy) ==> r,
        !forced_removal(*agent, *policy) && probability == 0 ==> !r,
        probability >= PROB_ONE ==> r,
{
    if is_forced_removal(agent, policy) {
        true
    } else {
        bernoulli(probability)
    }
}

/// Draws the death test of one agent, its probability given by the model.
pub fn get_death_agent<H: HazardModel>(
    agent: &Agent,
    time_step: u64,
    model: &H,
    policy: &RemovalPolicy,
) -> (r: bool)
    ensures
        possible_death(*agent, *policy, model.probability_for(*agent, time_step), r),
        forced_removal(*agent, *policy) ==> r,
{
    let p = model.death_probability(agent, time_step);
    death_test(agent, p, policy)
}

/// The agents of `pop` whose flag in `dead` is not set, in their order.
pub open spec fn survivors(pop: Seq<Agent>, dead: Seq<bool>) -> Seq<Agent>
    decreases pop.len(),
{
    if pop.len() == 0 {
        Seq::empty()
    } else {
        let rest = survivors(pop.drop_first(), dead.drop_first());
        if dead[0] {
            rest
        } else {
            seq![pop[0]] + rest
        }
    }
}

/// Every survivor is an agent of `pop` whose flag is not set.
pub proof fn lemma_survivors_from(pop: Seq<Agent>, dead: Seq<bool>, j: int)
    requires
        dead.len() == pop.len(),
        0 <= j < survivors(pop, dead).len(),
    ensures
        exists|i: int| 0 <= i < pop.len() && !dead[i] && pop[i] == #[trigger] survivors(pop, dead)[j],
    decreases pop.len(),
{
    let rest = survivors(pop.drop_first(), dead.drop_first());
    if !dead[0] && j == 0 {
        assert(pop[0] == survivors(pop, dead)[j]);
    } else {
        let jj = if dead[0] { j } else { j - 1 };
        lemma_survivors_from(pop.drop_first(), dead.drop_first(), jj);
        let i = choose|i: int| 0 <= i < pop.len() - 1 && !dead.drop_first()[i] && pop.drop_first()[i] == rest[jj];
        assert(!dead[i + 1] && pop[i + 1] == survivors(pop, dead)[j]);
    }
}

/// There are no more survivors than agents.
pub proof fn lemma_survivors_len(pop: Seq<Agent>, dead: Seq<bool>)
    requires
        dead.len() == pop.len(),
    ensures
        survivors(pop, dead).len() <= pop.len(),
    decreases pop.len(),
{
    if pop.len() > 0 {
        lemma_survivors_len(pop.drop_first(), dead.drop_first());
    }
}

/// An agent past the menopause age of its sex, under a policy that removes
/// such agents, dies whatever its death probability and whatever the draw.
pub proof fn lemma_past_menopause_always_dies(agent: Agent, policy: RemovalPolicy, p: u64, u: u32, dead: bool)
    requires
        policy.remove_non_reproducing,
        menopause_of(policy, agent.female) matches Some(m) && agent.age > m,
    ensures
        forced_removal(agent, policy),
        forced_removal(agent, policy) || occurs(p, u),
        possible_death(agent, policy, p, dead) ==> dead,
{
}

/// Removes from the population every agent whose flag in `dead` is set.
/// The flagged positions are visited from the last to the first, and each
/// flagged agent is replaced by the last agent: every removal takes constant
/// time, and the order of the population is not kept.
pub fn remove_dead(population: &mut Vec<Agent>, dead: &Vec<bool>)
    requires
        dead@.len() == old(population)@.len(),
    ensures
        final(population)@.to_multiset() == survivors(old(population)@, dead@).to_multiset(),
{
    let ghost pop = population@;
    let ghost n = pop.len() as int;
    let mut i: usize = population.len();
    while i > 0
        invariant
            dead@.len() == n,
            pop.len() == n,
            0 <= i <= population@.len(),
            population@.len() <= n,
            population@.subrange(0, i as int) == pop.subrange(0, i as int),
            population@.subrange(i as int, population@.len() as int).to_multiset()
                == survivors(pop.subrange(i as int, n), dead@.subrange(i as int, n)).to_multiset(),
        decreases i,
    {
        let j = i - 1;
        let ghost before = population@;
        let ghost len = before.len() as int;
        assert(pop.subrange(j as int, n).drop_first() =~= pop.subrange(i as int, n));
        assert(dead@.subrange(j as int, n).drop_first() =~= dead@.subrange(i as int, n));
        assert(before[j as int] == before.subrange(0, i as int)[j as int]);
        assert(before[j as int] == pop[j as int]);
        if dead[j] {
            population.swap_remove(j);
            proof {
                let after = population@;
                assert(after.subrange(0, j as int) == pop.subrange(0, j as int));
                if j as int == len - 1 {
                    assert(after.subrange(j as int, after.len() as int) =~= Seq::<Agent>::empty());
                    assert(before.subrange(i as int, len) =~= Seq::<Agent>::empty());
                } else {
                    let mid = before.subrange(i as int, len - 1);
                    assert(after.subrange(j as int, after.len() as int) =~= seq![before[len - 1]] + mid);
                    assert(before.subrange(i as int, len) =~= mid + seq![before[len - 1]]);
                    lemma_multiset_commutative(seq![before[len - 1]], mid);
                    lemma_multiset_commutative(mid, seq![before[len - 1]]);
                }
            }
        } else {
            proof {
                assert(before.subrange(j as int, len) =~= seq![pop[j as int]] + before.subrange(i as int, len));
                lemma_multiset_commutative(seq![pop[j as int]], before.subrange(i as int, len));
                lemma_multiset_commutative(seq![pop[j as int]], survivors(pop.subrange(i as int, n), dead@.subrange(i as int, n)));
                assert(population@.subrange(0, j as int) == pop.subrange(0, j as int));
            }
        }
        i = j;
    }
    assert(population@.subrange(0, population@.len() as int) == population@);
    assert(pop.subrange(0, n) == pop);
    assert(dead@.subrange(0, n) == dead@);
}

/// Runs the death test on every agent and removes the dead. No agent that
/// forced removal applies to survives.
pub fn get_death_population<H: HazardModel>(
    population: &mut Vec<Agent>,
    time_step: u64,
    model: &H,
    policy: &RemovalPolicy,
)
    ensures
        exists|dead: Seq<bool>|
            dead.len() == old(population)@.len()
            && (forall|i: int| 0 <= i < dead.len() ==>
                possible_death(old(population)@[i], *policy, model.probability_for(old(population)@[i], time_step), #[trigger] dead[i]))
            && (forall|i: int| 0 <= i < dead.len() && forced_removal(old(population)@[i], *policy) ==> #[trigger] dead[i])
            && final(population)@.to_multiset() == survivors(old(population)@, dead).to_multiset(),
        forall|j: int| 0 <= j < final(population)@.len() ==> !forced_removal(#[trigger] final(population)@[j], *policy),
        forall|j: int| 0 <= j < final(population)@.len() ==> old(population)@.contains(#[trigger] final(population)@[j]),
        final(population)@.len() <= old(population)@.len(),
{
    let mut dead: Vec<bool> = Vec::new();
    let mut i: usize = 0;
    while i < population.len()
        invariant
            i <= population@.len(),
            dead@.len() == i,
            forall|k: int| 0 <= k < i && forced_removal(population@[k], *policy) ==> #[trigger] dead@[k],
            forall|k: int| 0 <= k < i ==>
                possible_death(population@[k], *policy, model.probability_for(population@[k], time_step), #[trigger] dead@[k]),
        decreases population@.len() - i,
    {
        let d = get_death_agent(&population[i], time_step, model, policy);
        dead.push(d);
        i = i + 1;
    }
    let ghost pop = population@;
    remove_dead(population, &dead);
    let ghost alive = survivors(pop, dead@);
    assert forall|j: int| 0 <= j < population@.len() implies
        !forced_removal(#[trigger] population@[j], *policy) && pop.contains(population@[j]) by {
        assert(population@.to_multiset().count(population@[j]) > 0);
        assert(alive.contains(population@[j]));
        let k = choose|k: int| 0 <= k < alive.len() && alive[k] == population@[j];
        lemma_survivors_from(pop, dead@, k);
    }
    proof {
        lemma_survivors_len(pop, dead@);
        assert(population@.len() == population@.to_multiset().len());
        assert(alive.len() == alive.to_multiset().len());
    }
}

} // verus!
