//! Population dynamics of aging, reproducing agents under selection on two
//! heritable life-history traits: death, mating and heredity, aging, and
//! population statistics.
//!
//! The model is held in fixed point: ages count ticks, trait values are
//! non-negative integers in a unit of the caller's choosing, and
//! probabilities are numerators over `PROB_ONE`. The mortality and fertility
//! curves are supplied by the caller through `HazardModel` and
//! `FertilityModel`; the sizes of trait mutations are drawn by the caller
//! and handed in.
pub mod agent;
pub mod chance;
pub mod heredity;
pub mod mating;
pub mod mortality;
pub mod population;
pub mod stats;
pub mod step;

pub use agent::Agent;
pub use chance::{bernoulli, bernoulli_with, PROB_HALF, PROB_ONE};
pub use heredity::{
    mean_of_parents, mutate_parameter, mutate_with, reproduction_couple, reproduction_test_couple,
    Heredity,
};
pub use mating::{create_couples, sort_population_by_age};
pub use mortality::{
    death_decision, death_test, get_death_agent, get_death_population, is_forced_removal,
    remove_dead, ConstantHazard, HazardModel, RemovalPolicy,
};
pub use population::{
    add_newborns, births, get_reproduction_population, increment_age_population, initialize_population,
    ConstantFertility, FertilityModel,
};
pub use stats::{get_population_b_stats, get_population_lmax_stats, trait_moments, TraitMoments};
pub use step::{simulation_step, StepConfig, StepSummary};
