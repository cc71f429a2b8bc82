use gla_agents::{
    add_newborns, births,
    bernoulli, create_couples, death_decision, get_death_population, get_population_b_stats,
    get_population_lmax_stats, get_reproduction_population, increment_age_population,
    initialize_population, mean_of_parents, mutate_parameter, mutate_with, remove_dead,
    reproduction_couple, reproduction_test_couple, simulation_step, sort_population_by_age,
    trait_moments, Agent, ConstantFertility, ConstantHazard, Heredity, RemovalPolicy,
    StepConfig, PROB_HALF, PROB_ONE,
};
use rand_distr::{Distribution, Normal};

fn agent(age: u64, female: bool, b: u32, lmax: u32) -> Agent {
    Agent { age, female, b, lmax }
}

fn no_removal() -> RemovalPolicy {
    RemovalPolicy { remove_non_reproducing: false, male_menopause: None, female_menopause: None }
}

fn no_mutation() -> Heredity {
    Heredity { mutable_b: false, mutable_lmax: false, b_mutation_rate: 0, lmax_mutation_rate: 0 }
}

fn by_age_and_b(mut p: Vec<Agent>) -> Vec<Agent> {
    p.sort_by_key(|a| (a.age, a.b));
    p
}

fn mixed_population(males: usize, females: usize) -> Vec<Agent> {
    let mut p = Vec::new();
    for i in 0..males {
        p.push(agent(20 + i as u64, false, 100, 10));
    }
    for i in 0..females {
        p.push(agent(30 + i as u64, true, 300, 30));
    }
    p
}

#[test]
fn increment_age_adds_time_step_to_every_agent() {
    let mut p = vec![agent(0, true, 1, 2), agent(41, false, 3, 4), agent(7, true, 5, 6)];
    let before = p.clone();
    increment_age_population(&mut p, 5);
    assert_eq!(p.len(), 3);
    for (a, b) in p.iter().zip(before.iter()) {
        assert_eq!(a.age, b.age + 5);
        assert_eq!((a.female, a.b, a.lmax), (b.female, b.b, b.lmax));
    }
}

#[test]
fn couples_pair_kth_male_with_kth_female() {
    let p = vec![
        agent(1, true, 0, 0),
        agent(2, false, 0, 0),
        agent(3, true, 0, 0),
        agent(4, true, 0, 0),
        agent(5, false, 0, 0),
    ];
    let c = create_couples(&p);
    assert_eq!(c, vec![(1, 0), (4, 2)]);
    let unmatched = p.len() - 2 * c.len();
    assert_eq!(unmatched, 1);
}

#[test]
fn couples_never_exceed_the_smaller_sex() {
    for (m, f) in [(0, 0), (3, 5), (5, 3), (4, 4), (0, 6)] {
        let p = mixed_population(m, f);
        let c = create_couples(&p);
        assert_eq!(c.len(), m.min(f));
        assert_eq!(p.len() - 2 * c.len(), m.max(f) - m.min(f));
    }
}

#[test]
fn child_is_newborn_and_sex_is_balanced() {
    let father = agent(30, false, 100, 40);
    let mother = agent(25, true, 201, 60);
    let mut females = 0;
    for _ in 0..10_000 {
        let c = reproduction_couple(&father, &mother, &no_mutation(), 7, 7);
        assert_eq!(c.age, 0);
        assert_eq!(c.b, 150);
        assert_eq!(c.lmax, 50);
        if c.female {
            females += 1;
        }
    }
    assert!((4_800..=5_200).contains(&females), "females: {}", females);
}

#[test]
fn reproduction_never_exceeds_the_cap() {
    let heredity = no_mutation();
    let sure = ConstantFertility { chance: PROB_ONE };
    let noise = vec![0i64; 64];
    for (size, cap) in [(10usize, 12usize), (10, 10), (10, 100), (0, 5), (20, 21)] {
        let mut p = mixed_population(size / 2, size - size / 2);
        get_reproduction_population(&mut p, true, &sure, &sure, cap, &heredity, &noise, &noise);
        assert!(p.len() <= cap);
        let expected_children = (size / 2).min(cap - size);
        assert_eq!(p.len(), size + expected_children);
    }
}

#[test]
fn reproduction_above_the_cap_adds_nobody() {
    let sure = ConstantFertility { chance: PROB_ONE };
    let noise = vec![0i64; 64];
    let mut p = mixed_population(5, 5);
    get_reproduction_population(&mut p, false, &sure, &sure, 4, &no_mutation(), &noise, &noise);
    assert_eq!(p.len(), 10);
}

#[test]
fn reproduction_children_inherit_parental_mean() {
    let sure = ConstantFertility { chance: PROB_ONE };
    let noise = vec![0i64; 8];
    let mut p = mixed_population(2, 2);
    get_reproduction_population(&mut p, true, &sure, &sure, 100, &no_mutation(), &noise, &noise);
    assert_eq!(p.len(), 6);
    for c in &p[4..] {
        assert_eq!((c.age, c.b, c.lmax), (0, 200, 20));
    }
}

#[test]
fn infertile_couples_have_no_children() {
    let never = ConstantFertility { chance: 0 };
    let noise = vec![0i64; 16];
    let mut p = mixed_population(4, 4);
    get_reproduction_population(&mut p, false, &never, &never, 100, &no_mutation(), &noise, &noise);
    assert_eq!(p.len(), 8);
}

#[test]
fn zero_mutation_rate_keeps_the_value() {
    for v in [0u32, 1, 70_000_000, u32::MAX] {
        for noise in [-5i64, 0, 12_000_000] {
            let mut x = v;
            mutate_parameter(&mut x, 0, noise);
            assert_eq!(x, v);
        }
    }
}

#[test]
fn full_mutation_rate_moves_the_value() {
    let mut x = 1_000u32;
    mutate_parameter(&mut x, PROB_ONE, 250);
    assert_eq!(x, 1_250);
    let mut y = 1_000u32;
    mutate_parameter(&mut y, PROB_ONE, -5_000);
    assert_eq!(y, 0);
    let mut z = u32::MAX - 1;
    mutate_parameter(&mut z, PROB_ONE, 10);
    assert_eq!(z, u32::MAX);
}

#[test]
fn mutation_on_a_given_draw() {
    assert_eq!(mutate_with(100, PROB_HALF, 20, 0), 120);
    assert_eq!(mutate_with(100, PROB_HALF, 20, u32::MAX), 100);
    assert_eq!(mutate_with(100, 1, -20, 0), 80);
}

#[test]
fn stats_of_one_agent_have_zero_variance() {
    let p = vec![agent(3, true, 70_000_000, 150_000_000)];
    let b = get_population_b_stats(&p).unwrap();
    assert_eq!((b.count, b.sum, b.sum_sq), (1, 70_000_000, 70_000_000u128 * 70_000_000));
    assert_eq!(b.count as u128 * b.sum_sq - b.sum * b.sum, 0);
    let l = get_population_lmax_stats(&p).unwrap();
    assert_eq!((l.count, l.sum), (1, 150_000_000));
    assert_eq!(l.count as u128 * l.sum_sq - l.sum * l.sum, 0);
}

#[test]
fn stats_of_several_agents() {
    let p = vec![agent(0, true, 2, 1), agent(0, false, 4, 1), agent(0, true, 6, 4)];
    let b = get_population_b_stats(&p).unwrap();
    assert_eq!((b.count, b.sum, b.sum_sq), (3, 12, 56));
    let l = get_population_lmax_stats(&p).unwrap();
    assert_eq!((l.count, l.sum, l.sum_sq), (3, 6, 18));
}

#[test]
fn stats_of_empty_population_are_undefined() {
    let p: Vec<Agent> = Vec::new();
    assert!(get_population_b_stats(&p).is_none());
    assert!(get_population_lmax_stats(&p).is_none());
    assert!(trait_moments(&Vec::new()).is_none());
}

#[test]
fn end_to_end_ten_steps() {
    let cap = 100usize;
    let mut rng = rand::thread_rng();
    let b_dist = Normal::new(0.07f64, 0.001).unwrap();
    let lmax_dist = Normal::new(0.0f64, 0.0).unwrap();
    let age_dist = Normal::new(20.0f64, 10.0).unwrap();
    let ages: Vec<i64> = (0..cap).map(|_| age_dist.sample(&mut rng).round() as i64).collect();
    let bs: Vec<i64> = (0..cap).map(|_| (b_dist.sample(&mut rng) * 1e9) as i64).collect();
    let ls: Vec<i64> = (0..cap).map(|_| (lmax_dist.sample(&mut rng) * 1e9) as i64).collect();
    let mut p = initialize_population(cap, PROB_HALF, &ages, &bs, &ls);
    assert_eq!(p.len(), cap);
    let config = StepConfig {
        time_step: 1,
        removal: no_removal(),
        assortative_mating: true,
        population_cap: cap,
        heredity: Heredity { mutable_b: true, mutable_lmax: false, b_mutation_rate: PROB_ONE / 50, lmax_mutation_rate: 0 },
    };
    let hazard = ConstantHazard { probability: PROB_ONE / 100 };
    let fertility = ConstantFertility { chance: PROB_HALF };
    let mut records = Vec::new();
    for step in 0..10u64 {
        let noise: Vec<i64> = (0..p.len()).map(|_| 0).collect();
        let summary = simulation_step(&mut p, &config, &hazard, &fertility, &fertility, &noise, &noise);
        let s = summary.expect("population extinct");
        assert!(p.len() <= cap);
        let mean_b = s.b.sum as f64 / s.b.count as f64;
        assert!(mean_b >= 0.0);
        records.push((mean_b, step));
    }
    assert_eq!(records.len(), 10);
}

#[test]
fn all_male_population_does_not_reproduce() {
    let sure = ConstantFertility { chance: PROB_ONE };
    let noise = vec![0i64; 16];
    let mut p = mixed_population(6, 0);
    let before = p.clone();
    get_reproduction_population(&mut p, true, &sure, &sure, 100, &no_mutation(), &noise, &noise);
    assert_eq!(by_age_and_b(p), by_age_and_b(before));
    let mut q = mixed_population(0, 5);
    get_reproduction_population(&mut q, false, &sure, &sure, 100, &no_mutation(), &noise, &noise);
    assert_eq!(q.len(), 5);
}

#[test]
fn past_menopause_agent_is_always_removed() {
    let policy = RemovalPolicy { remove_non_reproducing: true, male_menopause: None, female_menopause: Some(40) };
    let no_hazard = ConstantHazard { probability: 0 };
    for _ in 0..100 {
        let mut p = vec![agent(41, true, 1, 1), agent(39, true, 2, 2), agent(41, false, 3, 3)];
        get_death_population(&mut p, 1, &no_hazard, &policy);
        assert_eq!(by_age_and_b(p), vec![agent(39, true, 2, 2), agent(41, false, 3, 3)]);
    }
    assert!(death_decision(&agent(41, true, 0, 0), 0, &policy, u32::MAX));
    assert!(!death_decision(&agent(40, true, 0, 0), 0, &policy, 0));
}

#[test]
fn certain_death_removes_everyone() {
    let mut p = mixed_population(3, 3);
    get_death_population(&mut p, 1, &ConstantHazard { probability: PROB_ONE }, &no_removal());
    assert!(p.is_empty());
}

#[test]
fn stochastic_death_decision_on_draws() {
    let policy = no_removal();
    let a = agent(10, false, 0, 0);
    assert!(death_decision(&a, PROB_HALF, &policy, 5));
    assert!(!death_decision(&a, PROB_HALF, &policy, u32::MAX));
    let disabled = RemovalPolicy { remove_non_reproducing: true, male_menopause: None, female_menopause: Some(40) };
    assert!(!death_decision(&agent(90, false, 0, 0), 0, &disabled, 0));
}

#[test]
fn remove_dead_keeps_unflagged_agents() {
    let mut p = vec![agent(1, true, 0, 0), agent(2, false, 0, 0), agent(3, true, 0, 0), agent(4, false, 0, 0)];
    remove_dead(&mut p, &vec![true, false, false, true]);
    assert_eq!(by_age_and_b(p), vec![agent(2, false, 0, 0), agent(3, true, 0, 0)]);
    let mut q = vec![agent(1, true, 0, 0), agent(2, false, 0, 0), agent(3, true, 0, 0)];
    remove_dead(&mut q, &vec![false, false, false]);
    assert_eq!(q.len(), 3);
    remove_dead(&mut q, &vec![true, true, true]);
    assert!(q.is_empty());
}

#[test]
fn sort_orders_by_age() {
    let mut p = vec![agent(5, true, 0, 0), agent(1, false, 1, 0), agent(3, true, 2, 0), agent(1, true, 3, 0)];
    sort_population_by_age(&mut p);
    let ages: Vec<u64> = p.iter().map(|a| a.age).collect();
    assert_eq!(ages, vec![1, 1, 3, 5]);
    assert_eq!((p[0].b, p[1].b), (1, 3));
}

#[test]
fn parental_mean_rounds_down() {
    assert_eq!(mean_of_parents(3, 4), 3);
    assert_eq!(mean_of_parents(u32::MAX, u32::MAX), u32::MAX);
    assert_eq!(mean_of_parents(0, 9), 4);
}

#[test]
fn fertility_test_extremes_and_balance() {
    assert!(!reproduction_test_couple(0, PROB_ONE));
    assert!(!reproduction_test_couple(PROB_ONE, 0));
    assert!(reproduction_test_couple(PROB_ONE, PROB_ONE));
    let hits = (0..10_000).filter(|_| bernoulli(PROB_HALF)).count();
    assert!((4_800..=5_200).contains(&hits), "hits: {}", hits);
}

#[test]
fn initial_population_follows_samples() {
    let p = initialize_population(3, 0, &vec![-4, 20, 35], &vec![-1, 70, 5_000_000_000], &vec![0, 3, -9]);
    assert_eq!(p.len(), 3);
    assert_eq!(p[0], agent(0, false, 0, 0));
    assert_eq!(p[1], agent(20, false, 70, 3));
    assert_eq!(p[2], agent(35, false, u32::MAX, 0));
    let q = initialize_population(2, PROB_ONE, &vec![1, 2], &vec![1, 2], &vec![1, 2]);
    assert!(q.iter().all(|a| a.female));
}

#[test]
fn extinct_population_step_reports_none() {
    let config = StepConfig {
        time_step: 1,
        removal: no_removal(),
        assortative_mating: false,
        population_cap: 10,
        heredity: no_mutation(),
    };
    let mut p = mixed_population(2, 2);
    let fert = ConstantFertility { chance: PROB_ONE };
    let r = simulation_step(&mut p, &config, &ConstantHazard { probability: PROB_ONE }, &fert, &fert, &vec![0; 4], &vec![0; 4]);
    assert!(r.is_none());
    assert!(p.is_empty());
}

#[test]
fn newborns_are_cut_at_the_cap() {
    let babies = vec![agent(0, true, 1, 0), agent(0, false, 2, 0), agent(0, true, 3, 0)];
    let mut p = mixed_population(2, 2);
    add_newborns(&mut p, babies.clone(), 6);
    assert_eq!(p.len(), 6);
    assert_eq!(&p[4..], &babies[..2]);
    let mut q = mixed_population(2, 2);
    add_newborns(&mut q, babies.clone(), 100);
    assert_eq!(&q[4..], &babies[..]);
    let mut r = mixed_population(5, 5);
    add_newborns(&mut r, babies, 3);
    assert_eq!(r.len(), 10);
}

#[test]
fn random_mating_shuffles_the_population() {
    let never = ConstantFertility { chance: 0 };
    let noise = vec![0i64; 200];
    let mut p: Vec<Agent> = (0..200u64).map(|i| agent(i, i % 2 == 0, i as u32, 0)).collect();
    let before = p.clone();
    get_reproduction_population(&mut p, false, &never, &never, 1000, &no_mutation(), &noise, &noise);
    assert_ne!(p, before);
    assert_eq!(by_age_and_b(p), before);
}

#[test]
fn assortative_mating_pairs_by_age_rank() {
    let sure = ConstantFertility { chance: PROB_ONE };
    let noise = vec![0i64; 8];
    let mut p = vec![
        agent(50, true, 10, 0),
        agent(20, false, 30, 0),
        agent(30, true, 50, 0),
        agent(40, false, 70, 0),
    ];
    get_reproduction_population(&mut p, true, &sure, &sure, 100, &no_mutation(), &noise, &noise);
    assert_eq!(p.len(), 6);
    let mut children: Vec<u32> = p[4..].iter().map(|c| c.b).collect();
    children.sort();
    assert_eq!(children, vec![40, 40]);
    let ages: Vec<u64> = p[..4].iter().map(|a| a.age).collect();
    assert_eq!(ages, vec![20, 30, 40, 50]);
}

#[test]
fn two_certain_couples_fill_the_cap() {
    let sure = ConstantFertility { chance: PROB_ONE };
    let noise = vec![0i64; 4];
    let mut p = vec![agent(20, false, 70, 150), agent(20, false, 70, 150), agent(20, true, 70, 150), agent(20, true, 70, 150)];
    get_reproduction_population(&mut p, true, &sure, &sure, 5, &no_mutation(), &noise, &noise);
    assert_eq!(p.len(), 5);
    assert_eq!((p[4].age, p[4].b, p[4].lmax), (0, 70, 150));
}

#[test]
fn births_give_one_child_per_passed_couple() {
    let ordered = vec![agent(20, false, 10, 0), agent(21, true, 30, 0), agent(22, false, 50, 0), agent(23, true, 70, 0)];
    let couples = create_couples(&ordered);
    assert_eq!(couples, vec![(0, 1), (2, 3)]);
    let heredity = Heredity { mutable_b: true, mutable_lmax: false, b_mutation_rate: PROB_ONE, lmax_mutation_rate: 0 };
    let b_noise = vec![5i64, -100];
    let lmax_noise = vec![9i64, 9];
    let r = births(&ordered, &couples, &vec![true, true], &heredity, &b_noise, &lmax_noise);
    assert_eq!(r.len(), 2);
    assert_eq!((r[0].age, r[0].b, r[0].lmax), (0, 25, 0));
    assert_eq!((r[1].age, r[1].b, r[1].lmax), (0, 0, 0));
    let only_second = births(&ordered, &couples, &vec![false, true], &no_mutation(), &b_noise, &lmax_noise);
    assert_eq!(only_second.len(), 1);
    assert_eq!(only_second[0].b, 60);
    assert!(births(&ordered, &couples, &vec![false, false], &heredity, &b_noise, &lmax_noise).is_empty());
}

#[test]
fn reproduction_applies_mutation_noise() {
    let sure = ConstantFertility { chance: PROB_ONE };
    let heredity = Heredity { mutable_b: true, mutable_lmax: true, b_mutation_rate: PROB_ONE, lmax_mutation_rate: PROB_ONE };
    let b_noise = vec![1_000i64; 4];
    let lmax_noise = vec![-7i64; 4];
    let mut p = vec![agent(20, false, 100, 50), agent(20, true, 300, 50)];
    get_reproduction_population(&mut p, true, &sure, &sure, 10, &heredity, &b_noise, &lmax_noise);
    assert_eq!(p.len(), 3);
    assert_eq!((p[2].b, p[2].lmax), (1_200, 43));
}

#[test]
fn lmax_stays_zero_without_lmax_mutation() {
    let config = StepConfig {
        time_step: 1,
        removal: no_removal(),
        assortative_mating: true,
        population_cap: 60,
        heredity: Heredity { mutable_b: true, mutable_lmax: false, b_mutation_rate: PROB_HALF, lmax_mutation_rate: PROB_ONE },
    };
    let mut p: Vec<Agent> = (0..40u64).map(|i| agent(i, i % 2 == 0, 70_000_000 + i as u32, 0)).collect();
    let fert = ConstantFertility { chance: PROB_HALF };
    let hazard = ConstantHazard { probability: PROB_ONE / 20 };
    for _ in 0..10 {
        let noise: Vec<i64> = (0..p.len()).map(|i| i as i64 * 1_000 - 20_000).collect();
        let s = simulation_step(&mut p, &config, &hazard, &fert, &fert, &noise, &noise).expect("population extinct");
        assert_eq!(s.lmax.sum, 0);
        assert!(p.len() <= 60);
    }
}
