//! Ordering the population for mating and pairing males with females.
use vstd::prelude::*;
use crate::agent::Agent;

verus! {

/// The positions in `pop`, in order, of the agents whose sex is `female`.
pub open spec fn sex_positions(pop: Seq<Agent>, female: bool) -> Seq<int>
    decreases pop.len(),
{
    if pop.len() == 0 {
        Seq::empty()
    } else {
        let rest = sex_positions(pop.drop_last(), female);
        if pop.last().female == female {
            rest.push(pop.len() - 1)
        } else {
            rest
        }
    }
}

/// The number of males and the number of females add up to the population size.
pub proof fn lemma_sexes_partition(pop: Seq<Agent>)
    ensures
        sex_positions(pop, false).len() + sex_positions(pop, true).len() == pop.len(),
    decreases pop.len(),
{
    if pop.len() > 0 {
        lemma_sexes_partition(pop.drop_last());
    }
}

/// The positions listed are in range, strictly increasing, and of the given sex.
pub proof fn lemma_sex_positions_valid(pop: Seq<Agent>, female: bool)
    ensures
        forall|k: int| 0 <= k < sex_positions(pop, female).len() ==>
            0 <= #[trigger] sex_positions(pop, female)[k] < pop.len()
            && pop[sex_positions(pop, female)[k]].female == female,
        forall|j: int, k: int| 0 <= j < k < sex_positions(pop, female).len() ==>
            #[trigger] sex_positions(pop, female)[j] < #[trigger] sex_positions(pop, female)[k],
    decreases pop.len(),
{
    if pop.len() > 0 {
        let prev = pop.drop_last();
        lemma_sex_positions_valid(prev, female);
        assert forall|k: int| 0 <= k < sex_positions(prev, female).len() implies
            pop[#[trigger] sex_positions(prev, female)[k]] == prev[sex_positions(prev, female)[k]] by {}
    }
}

/// A population in which no agent has the given sex has no position of it.
pub proof fn lemma_no_positions(pop: Seq<Agent>, female: bool)
    requires
        forall|i: int| 0 <= i < pop.len() ==> (#[trigger] pop[i]).female != female,
    ensures
        sex_positions(pop, female).len() == 0,
    decreases pop.len(),
{
    if pop.len() > 0 {
        lemma_no_positions(pop.drop_last(), female);
    }
}

/// The number of couples that the population can form.
pub open spec fn couple_count(pop: Seq<Agent>) -> int {
    let m = sex_positions(pop, false).len();
    let f = sex_positions(pop, true).len();
    if m < f { m as int } else { f as int }
}

/// The couples of a population: the k-th male paired with the k-th female,
/// as positions (male, female), as long as both sexes last.
pub open spec fn couples_of(pop: Seq<Agent>) -> Seq<(int, int)> {
    Seq::new(
        couple_count(pop) as nat,
        |k: int| (sex_positions(pop, false)[k], sex_positions(pop, true)[k]),
    )
}

/// The positions of the agents of the given sex.
fn positions_of_sex(population: &Vec<Agent>, female: bool) -> (r: Vec<usize>)
    ensures
        r@.len() == sex_positions(population@, female).len(),
        forall|k: int| 0 <= k < r@.len() ==> r@[k] as int == #[trigger] sex_positions(population@, female)[k],
{
    let mut r: Vec<usize> = Vec::new();
    let mut i: usize = 0;
    while i < population.len()
        invariant
            i <= population@.len(),
            r@.len() == sex_positions(population@.take(i as int), female).len(),
            forall|k: int| 0 <= k < r@.len() ==> r@[k] as int == #[trigger] sex_positions(population@.take(i as int), female)[k],
        decreases population@.len() - i,
    {
        assert(population@.take(i + 1).drop_last() == population@.take(i as int));
        if population[i].female == female {
            r.push(i);
        }
        i = i + 1;
    }
    assert(population@.take(population@.len() as int) == population@);
    r
}

/// Pairs males with females: the k-th male with the k-th female, in the
/// order of the population. Agents of the more numerous sex beyond the
/// number of the other sex are left out. Each couple is given as the
/// positions (male, female) in the population.
pub fn create_couples(population: &Vec<Agent>) -> (r: Vec<(usize, usize)>)
    ensures
        r@.len() == couple_count(population@),
        forall|k: int| 0 <= k < r@.len() ==>
            (#[trigger] r@[k]).0 as int == couples_of(population@)[k].0
            && r@[k].1 as int == couples_of(population@)[k].1,
        forall|k: int| 0 <= k < r@.len() ==>
            (#[trigger] r@[k]).0 < population@.len() && r@[k].1 < population@.len()
            && !population@[r@[k].0 as int].female && population@[r@[k].1 as int].female,
{
    let males = positions_of_sex(population, false);
    let females = positions_of_sex(population, true);
    proof {
        lemma_sex_positions_valid(population@, false);
        lemma_sex_positions_valid(population@, true);
    }
    let n = if males.len() < females.len() { males.len() } else { females.len() };
    let mut r: Vec<(usize, usize)> = Vec::new();
    let mut k: usize = 0;
    while k < n
        invariant
            n == couple_count(population@),
            n <= males@.len(),
            n <= females@.len(),
            k <= n,
            r@.len() == k,
            males@.len() == sex_positions(population@, false).len(),
            forall|j: int| 0 <= j < males@.len() ==> males@[j] as int == #[trigger] sex_positions(population@, false)[j],
            females@.len() == sex_positions(population@, true).len(),
            forall|j: int| 0 <= j < females@.len() ==> females@[j] as int == #[trigger] sex_positions(population@, true)[j],
            forall|j: int| 0 <= j < k ==>
                (#[trigger] r@[j]).0 == males@[j] && r@[j].1 == females@[j],
        decreases n - k,
    {
        r.push((males[k], females[k]));
        k = k + 1;
    }
    assert forall|j: int| 0 <= j < r@.len() implies
        (#[trigger] r@[j]).0 < population@.len() && r@[j].1 < population@.len()
        && !population@[r@[j].0 as int].female && population@[r@[j].1 as int].female by {
        assert(r@[j].0 as int == sex_positions(population@, false)[j]);
        assert(r@[j].1 as int == sex_positions(population@, true)[j]);
    }
    r
}

/// Relies on `slice::sort_by_key` of std: a stable sort that orders the
/// agents by age and keeps each agent.
#[verifier::external_body]
fn sort_by_age(population: &mut Vec<Agent>)
    ensures
        final(population)@.to_multiset() == old(population)@.to_multiset(),
        final(population)@.len() == old(population)@.len(),
        forall|i: int, j: int| 0 <= i <= j < final(population)@.len() ==>
            (#[trigger] final(population)@[i]).age <= (#[trigger] final(population)@[j]).age,
{
    population.sort_by_key(|a| a.age)
}

/// Relies on rand's `SliceRandom::shuffle`, with the thread-local generator:
/// a Fisher-Yates shuffle, made of swaps, so each agent is kept.
#[verifier::external_body]
pub(crate) fn shuffle_agents(population: &mut Vec<Agent>)
    ensures
        final(population)@.to_multiset() == old(population)@.to_multiset(),
        final(population)@.len() == old(population)@.len(),
{
    rand::seq::SliceRandom::shuffle(population.as_mut_slice(), &mut rand::thread_rng())
}

/// Sorts the population by increasing age.
pub fn sort_population_by_age(population: &mut Vec<Agent>)
    ensures
        final(population)@.to_multiset() == old(population)@.to_multiset(),
        final(population)@.len() == old(population)@.len(),
        forall|i: int, j: int| 0 <= i <= j < final(population)@.len() ==>
            (#[trigger] final(population)@[i]).age <= (#[trigger] final(population)@[j]).age,
{
    sort_by_age(population);
}

/// Couples never outnumber either sex, and the agents left without a
/// partner are exactly the surplus of the more numerous sex.
pub proof fn lemma_couples_bounded(pop: Seq<Agent>)
    ensures
        couples_of(pop).len() <= sex_positions(pop, false).len(),
        couples_of(pop).len() <= sex_positions(pop, true).len(),
        pop.len() - 2 * couples_of(pop).len() == if sex_positions(pop, false).len() >= sex_positions(pop, true).len() {
            sex_positions(pop, false).len() - sex_positions(pop, true).len()
        } else {
            sex_positions(pop, true).len() - sex_positions(pop, false).len()
        },
{
    lemma_sexes_partition(pop);
}

} // verus!
