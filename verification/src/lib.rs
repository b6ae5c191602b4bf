//! A generational genetic algorithm that searches for an approximate
//! maximizer of a fixed scalar fitness function over a bounded domain.
//!
//! Candidate values live on a 16-bit grid: magnitude `m` in `0..=65535`
//! stands for the value `m - 32768` thousandths, so the representable
//! domain is `[-32.768, 32.767]` at a resolution of one thousandth.
//! Candidates are stored as reflected (Gray) codes of their magnitude.
//! Fitness is a scalar ranking; because evaluating it needs real-valued
//! arithmetic, the population takes the fitness of every magnitude as a
//! pre-sampled table of fixed-point values and works only with those.

pub mod encodings;
pub mod fitness;
pub mod individual;
pub mod population;
pub mod probability;
mod random;
