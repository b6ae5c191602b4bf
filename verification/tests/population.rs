use genetic_algorithm::fitness::FitnessTable;
use genetic_algorithm::individual::SurvivalRange;
use genetic_algorithm::population::Population;
use genetic_algorithm::probability::Probability;

/// Samples sin(v) / v^2 over the whole magnitude grid, in units of 1e-12,
/// with the undefined sample at v == 0 pinned above every defined one.
fn fitness_table() -> FitnessTable {
    let mut samples: Vec<i64> = Vec::with_capacity(65536);
    for magnitude in 0..65536u32 {
        let value = magnitude as f64 * 0.001 - 32.768;
        let fitness = value.sin() / (value * value);
        let sample = if fitness.is_nan() {
            i64::MAX
        } else {
            (fitness * 1e12).round() as i64
        };
        samples.push(sample);
    }
    FitnessTable::from_samples(samples).expect("one sample per magnitude")
}

#[test]
fn one_generation_without_mutation_keeps_size_range_and_best() {
    let table = fitness_table();
    let range = SurvivalRange {
        low_millis: 3100,
        high_millis: 20000,
    };
    let mut population = Population::new(
        50,
        500_000,
        Probability::build(0).unwrap(),
        range,
        table,
    );

    let before: Vec<i64> = population.members().iter().map(|m| m.fitness()).collect();
    let best_before = *before.iter().max().unwrap();

    let recorded = population.create_generations(1);
    assert_eq!(recorded.len(), 1);

    let members = population.members();
    assert_eq!(members.len(), 50);
    for member in members.iter() {
        assert!(member.value() >= 3100 && member.value() <= 20000);
    }

    let best_after = population.best();
    assert_eq!(recorded[0], best_after);
    let max_fitness = members.iter().map(|m| m.fitness()).max().unwrap();
    assert_eq!(best_after.1, max_fitness);
    assert!(best_after.1 >= best_before);
}

#[test]
fn best_fitness_never_decreases_across_generations() {
    let table = fitness_table();
    let range = SurvivalRange {
        low_millis: 3100,
        high_millis: 20000,
    };
    let mut population = Population::new(
        50,
        500_000,
        Probability::build(10_000).unwrap(),
        range,
        table,
    );

    let recorded = population.create_generations(30);
    assert_eq!(recorded.len(), 30);
    for window in recorded.windows(2) {
        assert!(window[0].1 <= window[1].1);
    }
}

#[test]
fn pool_size_is_restored_after_every_generation() {
    let table = fitness_table();
    let range = SurvivalRange {
        low_millis: -5000,
        high_millis: 5000,
    };
    let mut population = Population::new(
        20,
        700_000,
        Probability::build(10_000).unwrap(),
        range,
        table,
    );

    for _ in 0..10 {
        population.create_generations(1);
        assert_eq!(population.members().len(), 20);
    }
}

#[test]
fn seeds_distinct_members_inside_the_range() {
    let table = fitness_table();
    let range = SurvivalRange {
        low_millis: 100,
        high_millis: 160,
    };
    let population = Population::new(
        40,
        500_000,
        Probability::build(0).unwrap(),
        range,
        table,
    );

    let members = population.members();
    assert_eq!(members.len(), 40);
    for member in members.iter() {
        assert!(member.value() >= 100 && member.value() <= 160);
    }
    let mut codes: Vec<u16> = members.iter().map(|m| m.code().0).collect();
    codes.sort();
    codes.dedup();
    assert_eq!(codes.len(), 40);
}

#[test]
fn a_single_step_keeps_the_pool_size() {
    let table = fitness_table();
    let range = SurvivalRange {
        low_millis: 3100,
        high_millis: 20000,
    };
    let mut population = Population::new(
        25,
        500_000,
        Probability::build(10_000).unwrap(),
        range,
        table,
    );

    let best_before = population.best();
    population.next_generation();
    assert_eq!(population.members().len(), 25);
    assert!(population.best().1 >= best_before.1);
}
