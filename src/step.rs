//! One time step of a replicate: death, reproduction, aging, statistics.
use vstd::prelude::*;
use crate::agent::Agent;
use crate::heredity::Heredity;
use crate::mortality::{forced_removal, get_death_population, HazardModel, RemovalPolicy};
use crate::population::{
    aged, get_reproduction_population, increment_age_population, reproduced, FertilityModel,
};
use crate::stats::{
    b_values, get_population_b_stats, get_population_lmax_stats, lmax_values, moments_of,
    TraitMoments,
};

verus! {

broadcast use vstd::seq_lib::group_to_multiset_ensures;

/// The settings that every time step of a replicate shares.
#[derive(Clone, Copy, Debug, PartialEq, Eq, Structural)]
pub struct StepConfig {
    pub time_step: u64,
    pub removal: RemovalPolicy,
    pub assortative_mating: bool,
    pub population_cap: usize,
    pub heredity: Heredity,
}

/// The statistics of the population at the end of a step.
#[derive(Clone, Copy, Debug, PartialEq, Eq, Structural)]
pub struct StepSummary {
    pub b: TraitMoments,
    pub lmax: TraitMoments,
}

/// No agent is so old that one more step would overflow its age.
pub open spec fn ages_fit(pop: Seq<Agent>, time_step: u64) -> bool {
    forall|i: int| 0 <= i < pop.len() ==> (#[trigger] pop[i]).age + time_step <= u64::MAX
}

/// `end` can follow `start` in one step: `survived` is what the death phase
/// left, `grown` what the reproduction phase made of it, with the given
/// mutation sizes, and `end` is `grown` one time step older.
pub open spec fn step_outcome<F: FertilityModel, G: FertilityModel>(
    start: Seq<Agent>,
    survived: Seq<Agent>,
    grown: Seq<Agent>,
    end: Seq<Agent>,
    config: StepConfig,
    male_fertility: F,
    female_fertility: G,
    b_noise: Seq<i64>,
    lmax_noise: Seq<i64>,
) -> bool {
    &&& survived.len() <= start.len()
    &&& forall|j: int| 0 <= j < survived.len() ==> start.contains(#[trigger] survived[j])
    &&& forall|j: int| 0 <= j < survived.len() ==> !forced_removal(#[trigger] survived[j], config.removal)
    &&& reproduced(
        survived,
        grown,
        config.assortative_mating,
        config.population_cap as int,
        male_fertility,
        female_fertility,
        config.heredity,
        b_noise,
        lmax_noise,
    )
    &&& aged(grown, end, config.time_step)
}

/// Runs one time step: death, then reproduction, then aging, then the
/// statistics of the result. Returns `None` when the population is extinct,
/// since its statistics are then undefined.
pub fn simulation_step<H: HazardModel, F: FertilityModel, G: FertilityModel>(
    population: &mut Vec<Agent>,
    config: &StepConfig,
    hazard: &H,
    male_fertility: &F,
    female_fertility: &G,
    b_noise: &Vec<i64>,
    lmax_noise: &Vec<i64>,
) -> (r: Option<StepSummary>)
    requires
        b_noise@.len() >= old(population)@.len(),
        lmax_noise@.len() >= old(population)@.len(),
        ages_fit(old(population)@, config.time_step),
    ensures
        r is None <==> final(population)@.len() == 0,
        r matches Some(s) ==> moments_of(b_values(final(population)@), s.b)
            && moments_of(lmax_values(final(population)@), s.lmax),
        old(population)@.len() <= config.population_cap ==> final(population)@.len() <= config.population_cap,
        exists|survived: Seq<Agent>, grown: Seq<Agent>|
            step_outcome(old(population)@, survived, grown, final(population)@, *config, *male_fertility, *female_fertility, b_noise@, lmax_noise@),
{
    let ghost start = population@;
    get_death_population(population, config.time_step, hazard, &config.removal);
    let ghost survived = population@;
    get_reproduction_population(
        population,
        config.assortative_mating,
        male_fertility,
        female_fertility,
        config.population_cap,
        &config.heredity,
        b_noise,
        lmax_noise,
    );
    let ghost grown = population@;
    assert(ages_fit(grown, config.time_step)) by {
        let n = survived.len() as int;
        assert forall|i: int| 0 <= i < grown.len() implies (#[trigger] grown[i]).age + config.time_step <= u64::MAX by {
            if i < n {
                let ordered = grown.subrange(0, n);
                assert(ordered[i] == grown[i]);
                assert(ordered.to_multiset().count(grown[i]) > 0);
                assert(survived.contains(grown[i]));
                let j = choose|j: int| 0 <= j < survived.len() && survived[j] == grown[i];
                assert(start.contains(survived[j]));
            }
        }
    }
    increment_age_population(population, config.time_step);
    assert(step_outcome(start, survived, grown, population@, *config, *male_fertility, *female_fertility, b_noise@, lmax_noise@));
    let b = get_population_b_stats(population);
    let lmax = get_population_lmax_stats(population);
    match (b, lmax) {
        (Some(b), Some(lmax)) => Some(StepSummary { b, lmax }),
        _ => None,
    }
}

} // verus!
