use genetic_algorithm::encodings::{BinaryCode, GrayCode};
use genetic_algorithm::fitness::FitnessTable;
use genetic_algorithm::individual::{CompetingIndividual, NewbornIndividual, SurvivalRange};
use genetic_algorithm::probability::Probability;

/// Samples sin(v) / v^2 over the whole magnitude grid, in units of 1e-12,
/// with the undefined sample at v == 0 pinned above every defined one.
fn fitness_table() -> FitnessTable {
    let mut samples: Vec<i64> = Vec::with_capacity(65536);
    for magnitude in 0..65536u32 {
        let value = magnitude as f64 * 0.001 - 32.768;
        let fitness = value.sin() / (value * value);
        let sample = if fitness.is_nan() {
            i64::MAX
        } else {
            (fitness * 1e12).round() as i64
        };
        samples.push(sample);
    }
    FitnessTable::from_samples(samples).expect("one sample per magnitude")
}

#[test]
fn builds_on_bounds() {
    let table = fitness_table();
    assert_eq!(
        NewbornIndividual::build(-32768, &table).unwrap().code(),
        GrayCode::from(BinaryCode(0b0000_0000_0000_0000))
    );
    assert_eq!(
        NewbornIndividual::build(32767, &table).unwrap().code(),
        GrayCode::from(BinaryCode(0b1111_1111_1111_1111))
    );
}

#[test]
fn converts_to_competing_and_back() {
    let table = fitness_table();
    let individual = NewbornIndividual::build(-32768, &table).unwrap();
    let competing: CompetingIndividual = individual.into();
    let individual: NewbornIndividual = competing.into();

    assert_eq!(
        individual.code(),
        GrayCode::from(BinaryCode(0b0000_0000_0000_0000))
    );
}

#[test]
fn rejects_values_off_the_grid_domain() {
    let table = fitness_table();
    assert!(NewbornIndividual::build(100_000, &table).is_none());
    assert!(NewbornIndividual::build(32768, &table).is_none());
    assert!(NewbornIndividual::build(-32769, &table).is_none());
}

#[test]
fn decodes_bound_magnitudes_exactly() {
    let table = fitness_table();
    let lowest = CompetingIndividual::promote(NewbornIndividual::build(-32768, &table).unwrap());
    assert_eq!(lowest.code(), GrayCode(0));
    assert_eq!(lowest.value(), -32768);
    let highest = CompetingIndividual::promote(NewbornIndividual::build(32767, &table).unwrap());
    assert_eq!(BinaryCode::from(highest.code()), BinaryCode(65535));
    assert_eq!(highest.value(), 32767);
}

#[test]
fn crossover_drops_a_child_outside_the_survival_range() {
    let table = fitness_table();
    let range = SurvivalRange {
        low_millis: 3190,
        high_millis: 3390,
    };
    let no_mutation = Probability::build(0).unwrap();
    let first = CompetingIndividual::promote(NewbornIndividual::build(3190, &table).unwrap());
    let second = CompetingIndividual::promote(NewbornIndividual::build(3328, &table).unwrap());

    // The left-right splice decodes to 3327, inside the range; the
    // right-left splice decodes to 3465, outside it, and never appears.
    let children = first.crossing_over(&second, &range, no_mutation, &table);
    assert_eq!(children.len(), 1);
    assert_eq!(children[0].value(), 3327);
    for child in children.iter() {
        assert!(child.value() >= 3190 && child.value() <= 3390);
        assert_ne!(child.value(), 3465);
    }
}

#[test]
fn crossover_without_mutation_splices_at_the_byte_boundary() {
    let table = fitness_table();
    let range = SurvivalRange {
        low_millis: -32768,
        high_millis: 32767,
    };
    let no_mutation = Probability::build(0).unwrap();
    let first = CompetingIndividual::promote(NewbornIndividual::build(3100, &table).unwrap());
    let second = CompetingIndividual::promote(NewbornIndividual::build(20000, &table).unwrap());

    let children = first.crossing_over(&second, &range, no_mutation, &table);
    assert_eq!(children.len(), 2);
    let left_right = (first.code().0 & 0xFF00) | (second.code().0 & 0x00FF);
    let right_left = (first.code().0 & 0x00FF) | (second.code().0 & 0xFF00);
    assert_eq!(children[0].code(), GrayCode(left_right));
    assert_eq!(children[1].code(), GrayCode(right_left));
    assert_eq!(children[0].value(), 3104);
    assert_eq!(children[1].value(), 19996);
}

#[test]
fn probability_rejects_values_above_one() {
    assert!(Probability::build(1_000_001).is_none());
    let p = Probability::build(250_000).unwrap();
    assert_eq!(p.value(), 250_000);
}

#[test]
fn fitness_table_wants_one_sample_per_magnitude() {
    assert!(FitnessTable::from_samples(vec![0i64; 100]).is_none());
    assert!(FitnessTable::from_samples(vec![0i64; 65536]).is_some());
}

#[test]
fn crossover_with_certain_mutation_flips_every_bit() {
    let table = fitness_table();
    let range = SurvivalRange {
        low_millis: -32768,
        high_millis: 32767,
    };
    let certain = Probability::build(1_000_000).unwrap();
    let first = CompetingIndividual::promote(NewbornIndividual::build(3100, &table).unwrap());
    let second = CompetingIndividual::promote(NewbornIndividual::build(20000, &table).unwrap());

    // Every one of the 16 bits flips, so each child is the complement of a
    // splice: the splices decode to 3104 and 19996, their complements to
    // -22902 and -6986.
    let children = first.crossing_over(&second, &range, certain, &table);
    assert_eq!(children.len(), 2);
    let left_right = (first.code().0 & 0xFF00) | (second.code().0 & 0x00FF);
    let right_left = (first.code().0 & 0x00FF) | (second.code().0 & 0xFF00);
    assert_eq!(children[0].code(), GrayCode(!left_right));
    assert_eq!(children[1].code(), GrayCode(!right_left));
    assert_eq!(children[0].value(), -22902);
    assert_eq!(children[1].value(), -6986);
}
