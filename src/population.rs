//! Population-level steps: initialization, reproduction and aging.
use vstd::prelude::*;
use vstd::seq_lib::lemma_multiset_commutative;
use crate::agent::{age_from, age_of_sample, trait_from, trait_of_sample, Agent};
use crate::chance::{bernoulli, occurs, PROB_ONE};
use crate::heredity::{fertile, possible_child, reproduction_couple, reproduction_test_couple, Heredity};
use crate::mating::{
    couple_count, couples_of, create_couples, lemma_couples_bounded, lemma_no_positions, lemma_sex_positions_valid,
    lemma_sexes_partition, sex_positions,
    shuffle_agents, sort_population_by_age,
};

verus! {

broadcast use vstd::seq_lib::group_to_multiset_ensures;

/// The fertility model of one sex: the chance that an agent of the given age
/// (in ticks) conceives within one time step, as a fixed-point probability
/// (see `PROB_ONE`).
pub trait FertilityModel {
    /// The chance that the model gives for the age.
    spec fn fertility_at(&self, age: u64) -> u64;

    fn normalized_fertility(&self, age: u64) -> (r: u64)
        ensures
            r == self.fertility_at(age),
    ;
}

/// A fertility that does not depend on age.
pub struct ConstantFertility {
    pub chance: u64,
}

impl FertilityModel for ConstantFertility {
    open spec fn fertility_at(&self, age: u64) -> u64 {
        self.chance
    }

    fn normalized_fertility(&self, _age: u64) -> (r: u64) {
        self.chance
    }
}

/// Draws the initial cohort from per-agent samples: the `i`-th agent has the
/// `i`-th sampled age (in ticks), `b` and `lmax`, each floored at zero, and is
/// female with probability `female_proportion`.
pub fn initialize_population(
    initial_population_size: usize,
    female_proportion: u64,
    age_samples: &Vec<i64>,
    b_samples: &Vec<i64>,
    lmax_samples: &Vec<i64>,
) -> (r: Vec<Agent>)
    requires
        age_samples@.len() == initial_population_size,
        b_samples@.len() == initial_population_size,
        lmax_samples@.len() == initial_population_size,
    ensures
        r@.len() == initial_population_size,
        forall|i: int| 0 <= i < r@.len() ==> {
            &&& (#[trigger] r@[i]).age == age_from(age_samples@[i] as int)
            &&& r@[i].b == trait_from(b_samples@[i] as int)
            &&& r@[i].lmax == trait_from(lmax_samples@[i] as int)
            &&& exists|u: u32| r@[i].female == occurs(female_proportion, u)
            &&& female_proportion == 0 ==> !r@[i].female
            &&& female_proportion >= PROB_ONE ==> r@[i].female
        },
{
    let mut population: Vec<Agent> = Vec::with_capacity(initial_population_size);
    let mut i: usize = 0;
    while i < initial_population_size
        invariant
            i <= initial_population_size,
            age_samples@.len() == initial_population_size,
            b_samples@.len() == initial_population_size,
            lmax_samples@.len() == initial_population_size,
            population@.len() == i,
            forall|j: int| 0 <= j < i ==> {
                &&& (#[trigger] population@[j]).age == age_from(age_samples@[j] as int)
                &&& population@[j].b == trait_from(b_samples@[j] as int)
                &&& population@[j].lmax == trait_from(lmax_samples@[j] as int)
                &&& exists|u: u32| population@[j].female == occurs(female_proportion, u)
                &&& female_proportion == 0 ==> !population@[j].female
                &&& female_proportion >= PROB_ONE ==> population@[j].female
            },
        decreases initial_population_size - i,
    {
        let age = age_of_sample(age_samples[i]);
        let female = bernoulli(female_proportion);
        let b = trait_of_sample(b_samples[i] as i128);
        let lmax = trait_of_sample(lmax_samples[i] as i128);
        population.push(Agent { age, female, b, lmax });
        i = i + 1;
    }
    population
}

/// Every agent is `time_step` ticks older.
pub open spec fn aged(before: Seq<Agent>, after: Seq<Agent>, time_step: u64) -> bool {
    &&& after.len() == before.len()
    &&& forall|i: int| 0 <= i < before.len() ==>
        (#[trigger] after[i]) == (Agent { age: (before[i].age + time_step) as u64, ..before[i] })
}

/// Advances the age of every agent by `time_step` ticks.
pub fn increment_age_population(population: &mut Vec<Agent>, time_step: u64)
    requires
        forall|i: int| 0 <= i < old(population)@.len() ==> (#[trigger] old(population)@[i]).age + time_step <= u64::MAX,
    ensures
        aged(old(population)@, final(population)@, time_step),
{
    let ghost before = population@;
    let mut i: usize = 0;
    while i < population.len()
        invariant
            i <= population@.len(),
            population@.len() == before.len(),
            forall|j: int| 0 <= j < before.len() ==> (#[trigger] before[j]).age + time_step <= u64::MAX,
            forall|j: int| 0 <= j < i ==>
                (#[trigger] population@[j]) == (Agent { age: (before[j].age + time_step) as u64, ..before[j] }),
            forall|j: int| i <= j < before.len() ==> (#[trigger] population@[j]) == before[j],
        decreases population@.len() - i,
    {
        population[i].age = population[i].age + time_step;
        i = i + 1;
    }
}

/// Aging treats every agent on its own: when two populations hold the same
/// agents in orders related by `perm`, their aged versions are related by
/// `perm` too.
pub proof fn lemma_aging_order_independent(
    first: Seq<Agent>,
    second: Seq<Agent>,
    first_aged: Seq<Agent>,
    second_aged: Seq<Agent>,
    time_step: u64,
    perm: Seq<int>,
)
    requires
        aged(first, first_aged, time_step),
        aged(second, second_aged, time_step),
        second.len() == first.len(),
        perm.len() == first.len(),
        forall|i: int| 0 <= i < second.len() ==> 0 <= #[trigger] perm[i] < first.len() && second[i] == first[perm[i]],
    ensures
        forall|i: int| 0 <= i < second_aged.len() ==> #[trigger] second_aged[i] == first_aged[perm[i]],
{
}

/// The parents of the `k`-th couple of `ordered` can have `child`, with the
/// `k`-th mutation sizes.
pub open spec fn child_of_couple(
    ordered: Seq<Agent>,
    heredity: Heredity,
    b_noise: Seq<i64>,
    lmax_noise: Seq<i64>,
    k: int,
    child: Agent,
) -> bool {
    possible_child(
        ordered[couples_of(ordered)[k].0],
        ordered[couples_of(ordered)[k].1],
        heredity,
        b_noise[k] as int,
        lmax_noise[k] as int,
        child,
    )
}

/// `child` is a possible offspring of one of the couples of `ordered`.
pub open spec fn born_of(
    ordered: Seq<Agent>,
    heredity: Heredity,
    b_noise: Seq<i64>,
    lmax_noise: Seq<i64>,
    child: Agent,
) -> bool {
    exists|k: int| 0 <= k < couple_count(ordered) && #[trigger] child_of_couple(ordered, heredity, b_noise, lmax_noise, k, child)
}

/// The number of newborns that fit under the population cap.
pub open spec fn room_under_cap(size: int, cap: int) -> int {
    if cap > size { cap - size } else { 0 }
}

/// The number of newborns that are kept: as many as there are, up to the
/// room left under the cap.
pub open spec fn kept_newborns(size: int, cap: int, newborns: int) -> int {
    if newborns < room_under_cap(size, cap) { newborns } else { room_under_cap(size, cap) }
}

/// Appends the newborns to the population, keeping only the first ones when
/// they would push the population above `population_cap`. A population that
/// already holds `population_cap` agents or more receives nobody.
pub fn add_newborns(population: &mut Vec<Agent>, newborns: Vec<Agent>, population_cap: usize)
    ensures
        final(population)@ == old(population)@ + newborns@.take(
            kept_newborns(old(population)@.len() as int, population_cap as int, newborns@.len() as int),
        ),
        old(population)@.len() <= population_cap ==> final(population)@.len() <= population_cap,
        final(population)@.len() <= if old(population)@.len() <= population_cap {
            population_cap as int
        } else {
            old(population)@.len() as int
        },
{
    let ghost given = newborns@;
    let mut newborns = newborns;
    let room = if population_cap > population.len() { population_cap - population.len() } else { 0 };
    if newborns.len() > room {
        newborns.truncate(room);
    }
    assert(newborns@ =~= given.take(newborns@.len() as int));
    population.append(&mut newborns);
}

/// The positions of the set flags of `passed`, in order.
pub open spec fn set_positions(passed: Seq<bool>) -> Seq<int>
    decreases passed.len(),
{
    if passed.len() == 0 {
        Seq::empty()
    } else {
        let rest = set_positions(passed.drop_last());
        if passed.last() {
            rest.push(passed.len() - 1)
        } else {
            rest
        }
    }
}

/// The positions of the set flags are in range, point at set flags, and
/// strictly increase; there are no more of them than flags.
pub proof fn lemma_set_positions(passed: Seq<bool>)
    ensures
        set_positions(passed).len() <= passed.len(),
        forall|k: int| 0 <= k < set_positions(passed).len() ==>
            0 <= #[trigger] set_positions(passed)[k] < passed.len() && passed[set_positions(passed)[k]],
        forall|j: int, k: int| 0 <= j < k < set_positions(passed).len() ==>
            #[trigger] set_positions(passed)[j] < #[trigger] set_positions(passed)[k],
    decreases passed.len(),
{
    if passed.len() > 0 {
        let prev = passed.drop_last();
        lemma_set_positions(prev);
        assert forall|k: int| 0 <= k < set_positions(prev).len() implies
            passed[#[trigger] set_positions(prev)[k]] == prev[set_positions(prev)[k]] by {}
    }
}

/// The children of one reproduction pass over `ordered`: `passed` holds the
/// outcome of the fertility test of each couple, and `newborns` one possible
/// child of each couple that passed, in the order of the couples.
pub open spec fn litter(
    ordered: Seq<Agent>,
    heredity: Heredity,
    b_noise: Seq<i64>,
    lmax_noise: Seq<i64>,
    passed: Seq<bool>,
    newborns: Seq<Agent>,
) -> bool {
    &&& passed.len() == couple_count(ordered)
    &&& newborns.len() == set_positions(passed).len()
    &&& forall|j: int| 0 <= j < newborns.len() ==>
        child_of_couple(ordered, heredity, b_noise, lmax_noise, set_positions(passed)[j], #[trigger] newborns[j])
}

/// Each flag of `passed` is a possible outcome of the fertility test of the
/// matching couple of `ordered`, under the chances that the models give for
/// the ages of its two partners.
pub open spec fn fertility_outcomes<F: FertilityModel, G: FertilityModel>(
    ordered: Seq<Agent>,
    male_fertility: F,
    female_fertility: G,
    passed: Seq<bool>,
) -> bool {
    forall|k: int| 0 <= k < passed.len() ==> #[trigger] couple_outcome(ordered, male_fertility, female_fertility, passed[k], k)
}

/// `passed` is a possible outcome of the fertility test of the `k`-th couple
/// of `ordered`.
pub open spec fn couple_outcome<F: FertilityModel, G: FertilityModel>(
    ordered: Seq<Agent>,
    male_fertility: F,
    female_fertility: G,
    passed: bool,
    k: int,
) -> bool {
    exists|u1: u32, u2: u32|
        passed == #[trigger] fertile(
            male_fertility.fertility_at(ordered[couples_of(ordered)[k].0].age),
            female_fertility.fertility_at(ordered[couples_of(ordered)[k].1].age),
            u1,
            u2,
        )
}

/// When every flag is set, every position is listed.
pub proof fn lemma_all_set(passed: Seq<bool>)
    requires
        forall|k: int| 0 <= k < passed.len() ==> #[trigger] passed[k],
    ensures
        set_positions(passed).len() == passed.len(),
    decreases passed.len(),
{
    if passed.len() > 0 {
        lemma_all_set(passed.drop_last());
    }
}

/// The fertility models give certain fertility at every age.
pub open spec fn always_fertile<F: FertilityModel, G: FertilityModel>(male_fertility: F, female_fertility: G) -> bool {
    forall|a: u64| #[trigger] male_fertility.fertility_at(a) >= PROB_ONE && female_fertility.fertility_at(a) >= PROB_ONE
}

/// What one reproduction pass makes of `before`: `after` starts with the
/// agents of `before`, reordered (by age under assortative mating), and ends
/// with as many children of the couples that passed their fertility test as
/// the cap leaves room for.
pub open spec fn reproduced<F: FertilityModel, G: FertilityModel>(
    before: Seq<Agent>,
    after: Seq<Agent>,
    assortative_mating: bool,
    population_cap: int,
    male_fertility: F,
    female_fertility: G,
    heredity: Heredity,
    b_noise: Seq<i64>,
    lmax_noise: Seq<i64>,
) -> bool {
    let n = before.len() as int;
    let ordered = after.subrange(0, n);
    &&& after.len() >= n
    &&& ordered.to_multiset() == before.to_multiset()
    &&& assortative_mating ==> forall|i: int, j: int| 0 <= i <= j < n ==>
        (#[trigger] ordered[i]).age <= (#[trigger] ordered[j]).age
    &&& exists|passed: Seq<bool>, newborns: Seq<Agent>|
        #[trigger] litter(ordered, heredity, b_noise, lmax_noise, passed, newborns)
        && fertility_outcomes(ordered, male_fertility, female_fertility, passed)
        && after.len() - n == kept_newborns(n, population_cap, newborns.len() as int)
        && after.subrange(n, after.len() as int).to_multiset().subset_of(newborns.to_multiset())
}

/// The children of the couples whose flag in `passed` is set: one child per
/// such couple, in the order of the couples, the `k`-th couple's traits
/// mutated by the `k`-th sizes.
pub fn births(
    ordered: &Vec<Agent>,
    couples: &Vec<(usize, usize)>,
    passed: &Vec<bool>,
    heredity: &Heredity,
    b_noise: &Vec<i64>,
    lmax_noise: &Vec<i64>,
) -> (r: Vec<Agent>)
    requires
        couples@.len() == couple_count(ordered@),
        forall|k: int| 0 <= k < couples@.len() ==>
            (#[trigger] couples@[k]).0 as int == couples_of(ordered@)[k].0
            && couples@[k].1 as int == couples_of(ordered@)[k].1,
        passed@.len() == couples@.len(),
        b_noise@.len() >= couples@.len(),
        lmax_noise@.len() >= couples@.len(),
    ensures
        r@.len() == set_positions(passed@).len(),
        forall|j: int| 0 <= j < r@.len() ==>
            child_of_couple(ordered@, *heredity, b_noise@, lmax_noise@, set_positions(passed@)[j], #[trigger] r@[j]),
{
    proof {
        lemma_sex_positions_valid(ordered@, false);
        lemma_sex_positions_valid(ordered@, true);
        lemma_couples_bounded(ordered@);
    }
    let mut r: Vec<Agent> = Vec::new();
    let mut k: usize = 0;
    while k < couples.len()
        invariant
            k <= couples@.len(),
            passed@.len() == couples@.len(),
            couples@.len() == couple_count(ordered@),
            couple_count(ordered@) <= sex_positions(ordered@, false).len(),
            couple_count(ordered@) <= sex_positions(ordered@, true).len(),
            b_noise@.len() >= couples@.len(),
            lmax_noise@.len() >= couples@.len(),
            forall|j: int| 0 <= j < couples@.len() ==>
                (#[trigger] couples@[j]).0 as int == couples_of(ordered@)[j].0
                && couples@[j].1 as int == couples_of(ordered@)[j].1,
            forall|j: int| 0 <= j < sex_positions(ordered@, false).len() ==>
                0 <= #[trigger] sex_positions(ordered@, false)[j] < ordered@.len(),
            forall|j: int| 0 <= j < sex_positions(ordered@, true).len() ==>
                0 <= #[trigger] sex_positions(ordered@, true)[j] < ordered@.len(),
            r@.len() == set_positions(passed@.take(k as int)).len(),
            forall|j: int| 0 <= j < r@.len() ==>
                child_of_couple(ordered@, *heredity, b_noise@, lmax_noise@, set_positions(passed@.take(k as int))[j], #[trigger] r@[j]),
        decreases couples@.len() - k,
    {
        assert(passed@.take(k + 1).drop_last() == passed@.take(k as int));
        if passed[k] {
            let (mi, fi) = couples[k];
            assert(couples@[k as int].0 as int == sex_positions(ordered@, false)[k as int]);
            assert(couples@[k as int].1 as int == sex_positions(ordered@, true)[k as int]);
            let child = reproduction_couple(&ordered[mi], &ordered[fi], heredity, b_noise[k], lmax_noise[k]);
            r.push(child);
        }
        k = k + 1;
    }
    assert(passed@.take(passed@.len() as int) == passed@);
    r
}

proof fn lemma_prefix_sub_multiset(s: Seq<Agent>, k: int)
    requires
        0 <= k <= s.len(),
    ensures
        s.take(k).to_multiset().subset_of(s.to_multiset()),
{
    assert(s =~= s.take(k) + s.skip(k));
    lemma_multiset_commutative(s.take(k), s.skip(k));
}

/// One reproduction pass. The population is ordered (by age under assortative
/// mating, shuffled otherwise), paired into couples, and each couple that
/// passes its fertility test has one child, its traits mutated by the sizes
/// given for that couple's position. The newborns are shuffled and as many of
/// them as the cap leaves room for are appended.
pub fn get_reproduction_population<F: FertilityModel, G: FertilityModel>(
    population: &mut Vec<Agent>,
    assortative_mating: bool,
    male_fertility: &F,
    female_fertility: &G,
    population_cap: usize,
    heredity: &Heredity,
    b_noise: &Vec<i64>,
    lmax_noise: &Vec<i64>,
)
    requires
        b_noise@.len() >= old(population)@.len(),
        lmax_noise@.len() >= old(population)@.len(),
    ensures
        reproduced(
            old(population)@,
            final(population)@,
            assortative_mating,
            population_cap as int,
            *male_fertility,
            *female_fertility,
            *heredity,
            b_noise@,
            lmax_noise@,
        ),
        ({
            let n = old(population)@.len() as int;
            let ordered = final(population)@.subrange(0, n);
            &&& final(population)@.len() - n <= couple_count(ordered)
            &&& final(population)@.len() - n <= room_under_cap(n, population_cap as int)
            &&& forall|i: int| n <= i < final(population)@.len() ==>
                born_of(ordered, *heredity, b_noise@, lmax_noise@, #[trigger] final(population)@[i])
        }),
        old(population)@.len() <= population_cap ==> final(population)@.len() <= population_cap,
        one_sex(old(population)@) ==> final(population)@.len() == old(population)@.len(),
        always_fertile(*male_fertility, *female_fertility) ==> final(population)@.len() - old(population)@.len()
            == kept_newborns(
                old(population)@.len() as int,
                population_cap as int,
                couple_count(final(population)@.subrange(0, old(population)@.len() as int)),
            ),
{
    let ghost before = population@;
    if assortative_mating {
        sort_population_by_age(population);
    } else {
        shuffle_agents(population);
    }
    let ghost ordered = population@;
    let couples = create_couples(population);
    proof {
        lemma_couples_bounded(ordered);
        lemma_sexes_partition(ordered);
    }
    let mut passed: Vec<bool> = Vec::new();
    let mut k: usize = 0;
    while k < couples.len()
        invariant
            population@ == ordered,
            forall|j: int| 0 <= j < couples@.len() ==>
                (#[trigger] couples@[j]).0 < ordered.len() && couples@[j].1 < ordered.len()
                && couples@[j].0 as int == couples_of(ordered)[j].0
                && couples@[j].1 as int == couples_of(ordered)[j].1,
            couples@.len() == couple_count(ordered),
            k <= couples@.len(),
            passed@.len() == k,
            fertility_outcomes(ordered, *male_fertility, *female_fertility, passed@),
            always_fertile(*male_fertility, *female_fertility) ==> forall|j: int| 0 <= j < k ==> #[trigger] passed@[j],
        decreases couples@.len() - k,
    {
        let (mi, fi) = couples[k];
        let pm = male_fertility.normalized_fertility(population[mi].age);
        let pf = female_fertility.normalized_fertility(population[fi].age);
        let outcome = reproduction_test_couple(pm, pf);
        let ghost earlier = passed@;
        passed.push(outcome);
        proof {
            let (u1, u2) = choose|u1: u32, u2: u32| outcome == fertile(pm, pf, u1, u2);
            assert forall|j: int| 0 <= j < passed@.len() implies
                #[trigger] couple_outcome(ordered, *male_fertility, *female_fertility, passed@[j], j) by {
                if j == k {
                    assert(passed@[j] == fertile(
                        male_fertility.fertility_at(ordered[couples_of(ordered)[j].0].age),
                        female_fertility.fertility_at(ordered[couples_of(ordered)[j].1].age),
                        u1,
                        u2,
                    ));
                } else {
                    assert(passed@[j] == earlier[j]);
                }
            }
            if always_fertile(*male_fertility, *female_fertility) {
                assert(male_fertility.fertility_at(population@[mi as int].age) >= PROB_ONE);
                assert(male_fertility.fertility_at(population@[fi as int].age) >= PROB_ONE);
                assert forall|j: int| 0 <= j < k + 1 implies #[trigger] passed@[j] by {
                    if j < k {
                        assert(passed@[j] == earlier[j]);
                    }
                }
            }
        }
        k = k + 1;
    }
    let mut babies = births(population, &couples, &passed, heredity, b_noise, lmax_noise);
    let ghost made = babies@;
    proof {
        lemma_set_positions(passed@);
    }
    assert(litter(ordered, *heredity, b_noise@, lmax_noise@, passed@, made));
    shuffle_agents(&mut babies);
    let ghost shuffled = babies@;
    add_newborns(population, babies, population_cap);
    let ghost n = before.len() as int;
    let ghost kept = kept_newborns(n, population_cap as int, made.len() as int);
    assert(population@.subrange(0, n) == ordered);
    assert(population@.subrange(n, population@.len() as int) == shuffled.take(kept));
    proof {
        lemma_prefix_sub_multiset(shuffled, kept);
    }
    assert forall|i: int| n <= i < population@.len() implies
        born_of(ordered, *heredity, b_noise@, lmax_noise@, #[trigger] population@[i]) by {
        let x = population@[i];
        assert(x == shuffled.take(kept)[i - n]);
        assert(shuffled.take(kept).to_multiset().count(x) > 0);
        assert(made.contains(x));
        let idx = choose|idx: int| 0 <= idx < made.len() && made[idx] == x;
        assert(child_of_couple(ordered, *heredity, b_noise@, lmax_noise@, set_positions(passed@)[idx], x));
    }
    proof {
        if one_sex(before) {
            lemma_one_sex_no_couples(before, ordered);
        }
        if always_fertile(*male_fertility, *female_fertility) {
            lemma_all_set(passed@);
        }
    }
}

/// Without lmax mutation, a population in which every agent has lmax zero
/// keeps lmax zero through a reproduction pass: children inherit the mean
/// of two zeros.
pub proof fn lemma_zero_lmax_inherited<F: FertilityModel, G: FertilityModel>(
    before: Seq<Agent>,
    after: Seq<Agent>,
    assortative_mating: bool,
    population_cap: int,
    male_fertility: F,
    female_fertility: G,
    heredity: Heredity,
    b_noise: Seq<i64>,
    lmax_noise: Seq<i64>,
)
    requires
        reproduced(before, after, assortative_mating, population_cap, male_fertility, female_fertility, heredity, b_noise, lmax_noise),
        !heredity.mutable_lmax,
        forall|i: int| 0 <= i < before.len() ==> (#[trigger] before[i]).lmax == 0,
    ensures
        forall|i: int| 0 <= i < after.len() ==> (#[trigger] after[i]).lmax == 0,
{
    let n = before.len() as int;
    let ordered = after.subrange(0, n);
    let (passed, newborns) = choose|passed: Seq<bool>, newborns: Seq<Agent>|
        #[trigger] litter(ordered, heredity, b_noise, lmax_noise, passed, newborns)
        && fertility_outcomes(ordered, male_fertility, female_fertility, passed)
        && after.len() - n == kept_newborns(n, population_cap, newborns.len() as int)
        && after.subrange(n, after.len() as int).to_multiset().subset_of(newborns.to_multiset());
    assert forall|i: int| 0 <= i < ordered.len() implies (#[trigger] ordered[i]).lmax == 0 by {
        assert(ordered.to_multiset().count(ordered[i]) > 0);
        assert(before.contains(ordered[i]));
    }
    lemma_set_positions(passed);
    lemma_couples_bounded(ordered);
    lemma_sex_positions_valid(ordered, false);
    lemma_sex_positions_valid(ordered, true);
    assert forall|i: int| 0 <= i < after.len() implies (#[trigger] after[i]).lmax == 0 by {
        if i < n {
            assert(after[i] == ordered[i]);
        } else {
            let tail = after.subrange(n, after.len() as int);
            assert(tail[i - n] == after[i]);
            assert(tail.to_multiset().count(after[i]) > 0);
            assert(newborns.to_multiset().count(after[i]) > 0);
            assert(newborns.contains(after[i]));
            let j = choose|j: int| 0 <= j < newborns.len() && newborns[j] == after[i];
            let k = set_positions(passed)[j];
            assert(child_of_couple(ordered, heredity, b_noise, lmax_noise, k, newborns[j]));
            assert(ordered[couples_of(ordered)[k].0].lmax == 0);
            assert(ordered[couples_of(ordered)[k].1].lmax == 0);
        }
    }
}

/// All agents of the population have the same sex.
pub open spec fn one_sex(pop: Seq<Agent>) -> bool {
    forall|i: int, j: int| 0 <= i < pop.len() && 0 <= j < pop.len() ==> (#[trigger] pop[i]).female == (#[trigger] pop[j]).female
}

/// However a population of a single sex is ordered, it forms no couple.
pub proof fn lemma_one_sex_no_couples(pop: Seq<Agent>, ordered: Seq<Agent>)
    requires
        one_sex(pop),
        ordered.to_multiset() == pop.to_multiset(),
    ensures
        couple_count(ordered) == 0,
{
    if ordered.len() > 0 {
        let s = pop[0].female;
        assert forall|i: int| 0 <= i < ordered.len() implies (#[trigger] ordered[i]).female != !s by {
            assert(ordered.to_multiset().count(ordered[i]) > 0);
            assert(pop.contains(ordered[i]));
            let idx = choose|idx: int| 0 <= idx < pop.len() && pop[idx] == ordered[i];
            assert(pop[idx].female == pop[0].female);
        }
        lemma_no_positions(ordered, !s);
    }
}

} // verus!
