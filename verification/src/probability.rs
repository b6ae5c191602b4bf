//! A validated probability, held in fixed point: a value of `p` parts per
//! `PROBABILITY_SCALE` stands for the probability `p / PROBABILITY_SCALE`.

use vstd::prelude::*;

verus! {

/// Denominator of the fixed-point probability scale: one scale unit is one
/// millionth.
pub const PROBABILITY_SCALE: u32 = 1_000_000;

/// A scalar probability in `[0, 1]`, validated at construction and immutable
/// thereafter.
#[derive(Debug, Copy, Clone)]
pub struct Probability(u32);

impl Probability {
    /// The probability as parts per `PROBABILITY_SCALE`.
    pub closed spec fn value_spec(&self) -> u32 {
        self.0
    }

    /// Builds a probability from parts per `PROBABILITY_SCALE`; fails exactly
    /// when the value lies above the scale, that is above probability one.
    pub fn build(value: u32) -> (r: Option<Probability>)
        ensures
            r is Some <==> value <= PROBABILITY_SCALE,
            r is Some ==> r.unwrap().value_spec() == value,
    {
        if value > PROBABILITY_SCALE {
            return None;
        }

        Some(Probability(value))
    }

    /// The probability as parts per `PROBABILITY_SCALE`.
    pub fn value(&self) -> (r: u32)
        ensures
            r == self.value_spec(),
    {
        self.0
    }
}

} // verus!
