//! One candidate solution: a Gray-coded 16-bit pattern together with its
//! fitness sample. Candidates are built from a value on the thousandths
//! grid, bred from two parents by splicing at the byte boundary, and mutated
//! bit by bit; a candidate whose decoded value leaves the survival range is
//! discarded rather than kept.

use vstd::prelude::*;

use crate::encodings::{binary_of, gray_of, lemma_gray_then_binary_is_identity, BinaryCode,
    GrayCode};
use crate::fitness::FitnessTable;
use crate::probability::{Probability, PROBABILITY_SCALE};
use crate::random::sample_range;

verus! {

/// Smallest value on the thousandths grid, in thousandths.
pub const MIN_ENCODABLE_MILLIS: i32 = -32768;

/// Largest value on the thousandths grid, in thousandths.
pub const MAX_ENCODABLE_MILLIS: i32 = 32767;

/// The value a Gray pattern decodes to, in thousandths: its magnitude
/// shifted so that magnitude zero is the smallest encodable value.
pub open spec fn value_millis_of(code: u16) -> int {
    binary_of(code) - 32768
}

/// Left-right crossover: high byte of the first parent's code, low byte of
/// the second parent's.
pub open spec fn splice_left_right(first: u16, second: u16) -> u16 {
    (first & 0xFF00) | (second & 0x00FF)
}

/// Right-left crossover: low byte of the first parent's code, high byte of
/// the second parent's.
pub open spec fn splice_right_left(first: u16, second: u16) -> u16 {
    (first & 0x00FF) | (second & 0xFF00)
}

/// Which byte each parent contributes to a child.
enum CodeJoint {
    LeftRight,
    RightLeft,
}

/// The spliced code a joint produces from two parent codes.
spec fn joint_code(joint: CodeJoint, first: u16, second: u16) -> u16 {
    match joint {
        CodeJoint::LeftRight => splice_left_right(first, second),
        CodeJoint::RightLeft => splice_right_left(first, second),
    }
}

/// The 16-bit pattern whose `count` most significant bits are set: the bits
/// already visited after `count` steps of a most-significant-first walk.
spec fn high_bits(count: int) -> u16 {
    if count <= 0 {
        0u16
    } else if count >= 16 {
        0xFFFFu16
    } else {
        !(0xFFFFu16 >> count)
    }
}

/// A closed interval of values, in thousandths, that candidates must decode
/// into to stay viable.
#[derive(Debug, Copy, Clone)]
pub struct SurvivalRange {
    pub low_millis: i32,
    pub high_millis: i32,
}

impl SurvivalRange {
    /// A survival range is well formed when it is a non-empty interval lying
    /// within the encodable domain.
    pub open spec fn wf(&self) -> bool {
        MIN_ENCODABLE_MILLIS <= self.low_millis <= self.high_millis <= MAX_ENCODABLE_MILLIS
    }

    /// Whether a value in thousandths lies inside the range.
    pub open spec fn contains_spec(&self, value_millis: int) -> bool {
        self.low_millis <= value_millis <= self.high_millis
    }

    /// Whether a value in thousandths lies inside the range.
    pub fn contains(&self, value_millis: i32) -> (r: bool)
        ensures
            r == self.contains_spec(value_millis as int),
    {
        self.low_millis <= value_millis && value_millis <= self.high_millis
    }
}

/// Decodes a Gray pattern to its magnitude.
fn decode_magnitude(code: u16) -> (r: u16)
    ensures
        r == binary_of(code),
{
    BinaryCode::from(GrayCode(code)).0
}

/// Decodes a Gray pattern to its value in thousandths.
fn decode_value_millis(code: u16) -> (r: i32)
    ensures
        r == value_millis_of(code),
{
    decode_magnitude(code) as i32 - 32768
}

/// A candidate fresh from construction or breeding, not yet part of a ranked
/// population.
#[derive(Debug, Copy, Clone)]
pub struct NewbornIndividual {
    pub code: GrayCode,
    pub fitness: i64,
}

/// A candidate accepted into a ranked population. It carries the same record
/// as a newborn; only the lifecycle stage differs, and converting between
/// the stages changes nothing. Ranking compares fitness alone: two
/// competitors with equal fitness but different codes rank as equals, and
/// such ties are broken in no particular order.
#[derive(Debug, Copy, Clone)]
pub struct CompetingIndividual {
    pub code: GrayCode,
    pub fitness: i64,
}

impl NewbornIndividual {
    /// The candidate's Gray pattern.
    pub open spec fn code_spec(&self) -> u16 {
        self.code.0
    }

    /// The candidate's fitness sample.
    pub open spec fn fitness_spec(&self) -> i64 {
        self.fitness
    }

    /// A candidate is well formed against a fitness table when its stored
    /// fitness is the table's sample for its decoded magnitude.
    pub open spec fn wf(&self, table: Seq<i64>) -> bool {
        self.fitness_spec() == table[binary_of(self.code_spec()) as int]
    }

    /// The candidate's Gray pattern.
    pub fn code(&self) -> (r: GrayCode)
        ensures
            r.0 == self.code_spec(),
    {
        self.code
    }

    /// Builds a candidate from a value in thousandths; fails exactly when
    /// the value lies outside the encodable domain. On success the value is
    /// encoded as a Gray pattern and the candidate carries the fitness
    /// sample of its magnitude.
    pub fn build(value: i32, table: &FitnessTable) -> (r: Option<NewbornIndividual>)
        requires
            table.wf(),
        ensures
            r is Some <==> MIN_ENCODABLE_MILLIS <= value <= MAX_ENCODABLE_MILLIS,
            r is Some ==> ({
                &&& r.unwrap().code_spec() == gray_of((value + 32768) as u16)
                &&& value_millis_of(r.unwrap().code_spec()) == value
                &&& r.unwrap().wf(table@)
            }),
    {
        if value < MIN_ENCODABLE_MILLIS || value > MAX_ENCODABLE_MILLIS {
            return None;
        }

        let magnitude: u16 = (value + 32768) as u16;
        let code = GrayCode::from(BinaryCode(magnitude));
        proof {
            lemma_gray_then_binary_is_identity(magnitude);
        }

        Some(NewbornIndividual { code, fitness: table.sample_at(magnitude) })
    }

    /// Breeds one child: splices the parents' codes at the byte boundary,
    /// drops the child if it decodes outside the survival range, and mutates
    /// a surviving child, which may drop it again. A splice outside the
    /// range yields no child whatever the mutation probability: mutation is
    /// never even attempted on it.
    fn born(
        first: GrayCode,
        second: GrayCode,
        joint: CodeJoint,
        mutation_probability: Probability,
        survival_range: &SurvivalRange,
        table: &FitnessTable,
    ) -> (r: Option<NewbornIndividual>)
        requires
            table.wf(),
        ensures
            r is Some ==> r.unwrap().wf(table@)
                && survival_range.contains_spec(value_millis_of(r.unwrap().code_spec())),
            !survival_range.contains_spec(value_millis_of(joint_code(joint, first.0, second.0)))
                ==> r is None,
            mutation_probability.value_spec() == 0 ==> ({
                let code = joint_code(joint, first.0, second.0);
                &&& (r is Some <==> survival_range.contains_spec(value_millis_of(code)))
                &&& (r is Some ==> r.unwrap().code_spec() == code)
            }),
            mutation_probability.value_spec() == PROBABILITY_SCALE ==> ({
                let code = joint_code(joint, first.0, second.0);
                &&& (r is Some <==> survival_range.contains_spec(value_millis_of(code))
                    && survival_range.contains_spec(value_millis_of(!code)))
                &&& (r is Some ==> r.unwrap().code_spec() == !code)
            }),
    {
        let code_bits: u16 = match joint {
            CodeJoint::LeftRight => (first.0 & 0xFF00) | (second.0 & 0x00FF),
            CodeJoint::RightLeft => (first.0 & 0x00FF) | (second.0 & 0xFF00),
        };

        if !survival_range.contains(decode_value_millis(code_bits)) {
            return None;
        }

        let magnitude = decode_magnitude(code_bits);
        let candidate = NewbornIndividual {
            code: GrayCode(code_bits),
            fitness: table.sample_at(magnitude),
        };
        candidate.mutate(mutation_probability, survival_range, table)
    }

    /// Mutates the candidate: each of the 16 bit positions, most significant
    /// first, is flipped independently with the given probability. The
    /// result is dropped when its decoded value leaves the survival range;
    /// otherwise it carries the fitness sample of its new magnitude.
    fn mutate(
        self,
        mutation_probability: Probability,
        survival_range: &SurvivalRange,
        table: &FitnessTable,
    ) -> (r: Option<NewbornIndividual>)
        requires
            table.wf(),
        ensures
            r is Some ==> r.unwrap().wf(table@)
                && survival_range.contains_spec(value_millis_of(r.unwrap().code_spec())),
            mutation_probability.value_spec() == 0 ==> ({
                &&& (r is Some <==> survival_range.contains_spec(
                    value_millis_of(self.code_spec()),
                ))
                &&& (r is Some ==> r.unwrap().code_spec() == self.code_spec())
            }),
            mutation_probability.value_spec() == PROBABILITY_SCALE ==> ({
                &&& (r is Some <==> survival_range.contains_spec(
                    value_millis_of(!self.code_spec()),
                ))
                &&& (r is Some ==> r.unwrap().code_spec() == !self.code_spec())
            }),
    {
        let mut code: u16 = self.code.0;
        let threshold = mutation_probability.value();

        proof {
            let start: u16 = self.code.0;
            assert(start ^ 0u16 == start) by (bit_vector);
        }

        for i in 0..16usize
            invariant
                threshold == mutation_probability.value_spec(),
                threshold == 0 ==> code == self.code_spec(),
                threshold == PROBABILITY_SCALE ==> code == self.code_spec() ^ high_bits(i as int),
        {
            let ghost code_before = code;
            let sample = sample_range(0, PROBABILITY_SCALE as i64);
            if sample < threshold as i64 {
                code = code ^ (0x8000u16 >> i);
            }
            proof {
                if threshold == PROBABILITY_SCALE {
                    let shift: u16 = i as u16;
                    let mask: u16 = 0x8000u16 >> i;
                    let visited: u16 = high_bits(i as int);
                    assert((if shift + 1 >= 16 {
                        0xFFFFu16
                    } else {
                        !(0xFFFFu16 >> (shift + 1))
                    }) == (if shift == 0 {
                        0u16
                    } else {
                        !(0xFFFFu16 >> shift)
                    }) ^ (0x8000u16 >> shift)) by (bit_vector)
                        requires
                            shift < 16,
                    ;
                    assert(high_bits(i + 1) == visited ^ mask);
                    let start: u16 = self.code.0;
                    assert((start ^ visited) ^ mask == start ^ (visited ^ mask)) by (bit_vector);
                    assert(code == (start ^ visited) ^ mask);
                }
            }
        }

        proof {
            if threshold == PROBABILITY_SCALE {
                let start: u16 = self.code_spec();
                assert(start ^ 0xFFFFu16 == !start) by (bit_vector);
            }
        }

        if !survival_range.contains(decode_value_millis(code)) {
            return None;
        }

        let magnitude = decode_magnitude(code);
        Some(NewbornIndividual { code: GrayCode(code), fitness: table.sample_at(magnitude) })
    }
}

impl CompetingIndividual {
    /// The competitor's Gray pattern.
    pub open spec fn code_spec(&self) -> u16 {
        self.code.0
    }

    /// The competitor's fitness sample.
    pub open spec fn fitness_spec(&self) -> i64 {
        self.fitness
    }

    /// A competitor is well formed against a fitness table when its stored
    /// fitness is the table's sample for its decoded magnitude.
    pub open spec fn wf(&self, table: Seq<i64>) -> bool {
        self.fitness_spec() == table[binary_of(self.code_spec()) as int]
    }

    /// The competitor's Gray pattern.
    pub fn code(&self) -> (r: GrayCode)
        ensures
            r.0 == self.code_spec(),
    {
        self.code
    }

    /// The competitor's fitness sample.
    pub fn fitness(&self) -> (r: i64)
        ensures
            r == self.fitness_spec(),
    {
        self.fitness
    }

    /// The competitor's decoded value, in thousandths.
    pub fn value(&self) -> (r: i32)
        ensures
            r == value_millis_of(self.code_spec()),
    {
        decode_value_millis(self.code.0)
    }

    /// Promotes a newborn into the ranked stage, changing nothing.
    pub fn promote(individual: NewbornIndividual) -> (r: CompetingIndividual)
        ensures
            r.code_spec() == individual.code_spec(),
            r.fitness_spec() == individual.fitness_spec(),
    {
        CompetingIndividual { code: individual.code, fitness: individual.fitness }
    }

    /// Breeds up to two children from this competitor and another: one per
    /// crossover variant, each spliced at the byte boundary, survival
    /// checked, then mutated and survival checked again. Whatever subset of
    /// the two candidates survives both filters is returned; a child whose
    /// decoded value lies outside the survival range never appears. With
    /// mutation probability zero the outcome is exact: the result holds the
    /// left-right splice and then the right-left splice, each present if and
    /// only if it decodes into the survival range.
    pub fn crossing_over(
        &self,
        other: &CompetingIndividual,
        survival_range: &SurvivalRange,
        mutation_probability: Probability,
        table: &FitnessTable,
    ) -> (r: Vec<CompetingIndividual>)
        requires
            table.wf(),
        ensures
            r@.len() <= 2,
            forall|i: int| 0 <= i < r@.len() ==> (#[trigger] r@[i]).wf(table@)
                && survival_range.contains_spec(value_millis_of(r@[i].code_spec())),
            !survival_range.contains_spec(value_millis_of(splice_left_right(
                self.code_spec(),
                other.code_spec(),
            ))) && !survival_range.contains_spec(value_millis_of(splice_right_left(
                self.code_spec(),
                other.code_spec(),
            ))) ==> r@.len() == 0,
            !survival_range.contains_spec(value_millis_of(splice_left_right(
                self.code_spec(),
                other.code_spec(),
            ))) || !survival_range.contains_spec(value_millis_of(splice_right_left(
                self.code_spec(),
                other.code_spec(),
            ))) ==> r@.len() <= 1,
            mutation_probability.value_spec() == PROBABILITY_SCALE ==> ({
                let lr = splice_left_right(self.code_spec(), other.code_spec());
                let rl = splice_right_left(self.code_spec(), other.code_spec());
                let lr_in = survival_range.contains_spec(value_millis_of(lr))
                    && survival_range.contains_spec(value_millis_of(!lr));
                let rl_in = survival_range.contains_spec(value_millis_of(rl))
                    && survival_range.contains_spec(value_millis_of(!rl));
                &&& (lr_in && rl_in ==> r@.len() == 2 && r@[0].code_spec() == !lr
                    && r@[1].code_spec() == !rl)
                &&& (lr_in && !rl_in ==> r@.len() == 1 && r@[0].code_spec() == !lr)
                &&& (!lr_in && rl_in ==> r@.len() == 1 && r@[0].code_spec() == !rl)
                &&& (!lr_in && !rl_in ==> r@.len() == 0)
            }),
            mutation_probability.value_spec() == 0 ==> ({
                let lr = splice_left_right(self.code_spec(), other.code_spec());
                let rl = splice_right_left(self.code_spec(), other.code_spec());
                let lr_in = survival_range.contains_spec(value_millis_of(lr));
                let rl_in = survival_range.contains_spec(value_millis_of(rl));
                &&& (lr_in && rl_in ==> r@.len() == 2 && r@[0].code_spec() == lr
                    && r@[1].code_spec() == rl)
                &&& (lr_in && !rl_in ==> r@.len() == 1 && r@[0].code_spec() == lr)
                &&& (!lr_in && rl_in ==> r@.len() == 1 && r@[0].code_spec() == rl)
                &&& (!lr_in && !rl_in ==> r@.len() == 0)
            }),
    {
        let mut result: Vec<CompetingIndividual> = Vec::new();

        match NewbornIndividual::born(
            self.code,
            other.code,
            CodeJoint::LeftRight,
            mutation_probability,
            survival_range,
            table,
        ) {
            Some(child) => result.push(CompetingIndividual::promote(child)),
            None => {},
        }

        match NewbornIndividual::born(
            self.code,
            other.code,
            CodeJoint::RightLeft,
            mutation_probability,
            survival_range,
            table,
        ) {
            Some(child) => result.push(CompetingIndividual::promote(child)),
            None => {},
        }

        result
    }
}

impl vstd::std_specs::convert::FromSpecImpl<NewbornIndividual> for CompetingIndividual {
    open spec fn obeys_from_spec() -> bool {
        true
    }

    open spec fn from_spec(individual: NewbornIndividual) -> CompetingIndividual {
        CompetingIndividual { code: individual.code, fitness: individual.fitness }
    }
}

impl From<NewbornIndividual> for CompetingIndividual {
    fn from(individual: NewbornIndividual) -> (r: CompetingIndividual) {
        CompetingIndividual { code: individual.code, fitness: individual.fitness }
    }
}

impl vstd::std_specs::convert::FromSpecImpl<CompetingIndividual> for NewbornIndividual {
    open spec fn obeys_from_spec() -> bool {
        true
    }

    open spec fn from_spec(individual: CompetingIndividual) -> NewbornIndividual {
        NewbornIndividual { code: individual.code, fitness: individual.fitness }
    }
}

impl From<CompetingIndividual> for NewbornIndividual {
    fn from(individual: CompetingIndividual) -> (r: NewbornIndividual) {
        NewbornIndividual { code: individual.code, fitness: individual.fitness }
    }
}

} // verus!
