//! The fitness landscape, pre-sampled over the whole 16-bit magnitude grid.
//!
//! The fitness of a candidate is a real-valued function of its decoded
//! value; evaluating it takes real arithmetic, which stays outside this
//! library. The caller samples the function once per representable
//! magnitude, as fixed-point values whose order matches the real order, and
//! hands the table in; everything the algorithm does with fitness (ranking,
//! totals, mean thresholds) is exact integer arithmetic on these samples.

use vstd::prelude::*;

verus! {

/// Number of 16-bit magnitudes, and so the exact length of a fitness table.
pub const CODE_SPACE_SIZE: usize = 65536;

/// One fixed-point fitness sample per magnitude: `samples[m]` is the fitness
/// of the candidate whose decoded magnitude is `m`.
pub struct FitnessTable {
    samples: Vec<i64>,
}

impl View for FitnessTable {
    type V = Seq<i64>;

    closed spec fn view(&self) -> Seq<i64> {
        self.samples@
    }
}

impl FitnessTable {
    /// A table is well formed when it holds one sample for every magnitude.
    pub open spec fn wf(&self) -> bool {
        self@.len() == CODE_SPACE_SIZE
    }

    /// Builds a table from one sample per magnitude; fails exactly when the
    /// sample count differs from the size of the magnitude space.
    pub fn from_samples(samples: Vec<i64>) -> (r: Option<FitnessTable>)
        ensures
            r is Some <==> samples@.len() == CODE_SPACE_SIZE,
            r is Some ==> r.unwrap()@ == samples@,
    {
        if samples.len() != CODE_SPACE_SIZE {
            return None;
        }

        Some(FitnessTable { samples })
    }

    /// The fitness sample of one magnitude.
    pub fn sample_at(&self, magnitude: u16) -> (r: i64)
        requires
            self.wf(),
        ensures
            r == self@[magnitude as int],
    {
        self.samples[magnitude as usize]
    }
}

} // verus!
