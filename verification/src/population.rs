//! A bounded pool of competing candidates and its generational loop:
//! mean-threshold stochastic selection, pairwise breeding, and elitist
//! truncation back to the fixed population size.

use vstd::prelude::*;

use crate::fitness::{FitnessTable, CODE_SPACE_SIZE};
use crate::individual::{splice_left_right, splice_right_left, value_millis_of, CompetingIndividual,
    NewbornIndividual, SurvivalRange};
use crate::probability::{Probability, PROBABILITY_SCALE};
use crate::random::sample_range;

verus! {

/// A competitor fit to stand in a pool: its stored fitness is the table's
/// sample for its code, and its decoded value lies in the survival range.
pub open spec fn competitor_ok(
    competitor: CompetingIndividual,
    survival_range: SurvivalRange,
    table: Seq<i64>,
) -> bool {
    competitor.wf(table) && survival_range.contains_spec(value_millis_of(competitor.code_spec()))
}

/// A competitor whose fitness no member of the pool exceeds.
pub open spec fn dominates(pool: Seq<CompetingIndividual>, competitor: CompetingIndividual) -> bool {
    forall|i: int| 0 <= i < pool.len() ==> (#[trigger] pool[i]).fitness_spec()
        <= competitor.fitness_spec()
}

/// Whether `m` is one of the members of `pool`.
pub open spec fn member_of(pool: Seq<CompetingIndividual>, m: CompetingIndividual) -> bool {
    exists|k: int| 0 <= k < pool.len() && m == #[trigger] pool[k]
}

/// Provenance of a member with respect to a starting pool: either it is one
/// of the starting members, or its code is a byte-boundary splice of two
/// starting members' codes.
pub open spec fn from_pool_or_splice(pool: Seq<CompetingIndividual>, m: CompetingIndividual) -> bool {
    member_of(pool, m) || exists|a: int, b: int|
        0 <= a < pool.len() && 0 <= b < pool.len() && (m.code_spec() == splice_left_right(
            (#[trigger] pool[a]).code_spec(),
            (#[trigger] pool[b]).code_spec(),
        ) || m.code_spec() == splice_right_left(pool[a].code_spec(), pool[b].code_spec()))
}

/// Total fitness of a pool, as an unbounded integer.
pub open spec fn sum_fitness(pool: Seq<CompetingIndividual>) -> int
    decreases pool.len(),
{
    if pool.len() == 0 {
        0
    } else {
        sum_fitness(pool.drop_last()) + pool.last().fitness_spec()
    }
}

proof fn lemma_sum_fitness_bounds(pool: Seq<CompetingIndividual>)
    ensures
        pool.len() * (i64::MIN as int) <= sum_fitness(pool) <= pool.len() * (i64::MAX as int),
    decreases pool.len(),
{
    if pool.len() > 0 {
        lemma_sum_fitness_bounds(pool.drop_last());
    }
}

/// Every non-empty pool has a member that dominates it.
proof fn lemma_max_exists(pool: Seq<CompetingIndividual>)
    requires
        pool.len() >= 1,
    ensures
        exists|j: int| 0 <= j < pool.len() && dominates(pool, #[trigger] pool[j]),
    decreases pool.len(),
{
    if pool.len() == 1 {
        assert(dominates(pool, pool[0]));
    } else {
        let prefix = pool.drop_last();
        lemma_max_exists(prefix);
        let j = choose|j: int| 0 <= j < prefix.len() && dominates(prefix, #[trigger] prefix[j]);
        if pool.last().fitness_spec() >= pool[j].fitness_spec() {
            assert forall|i: int| 0 <= i < pool.len() implies (#[trigger] pool[i]).fitness_spec()
                <= pool[pool.len() - 1].fitness_spec() by {
                if i < pool.len() - 1 {
                    assert(prefix[i].fitness_spec() <= prefix[j].fitness_spec());
                }
            }
            assert(dominates(pool, pool[pool.len() - 1]));
        } else {
            assert forall|i: int| 0 <= i < pool.len() implies (#[trigger] pool[i]).fitness_spec()
                <= pool[j].fitness_spec() by {
                if i < pool.len() - 1 {
                    assert(prefix[i].fitness_spec() <= prefix[j].fitness_spec());
                }
            }
            assert(dominates(pool, pool[j]));
        }
    }
}

/// Index of a member no other member's fitness exceeds; among equals the
/// first is picked, so ties rank in no particular order.
#[verifier::loop_isolation(false)]
fn max_index(competitors: &Vec<CompetingIndividual>) -> (r: usize)
    requires
        competitors@.len() >= 1,
    ensures
        r < competitors@.len(),
        dominates(competitors@, competitors@[r as int]),
{
    let mut best: usize = 0;
    let n = competitors.len();

    for i in 1..n
        invariant
            best < i,
            forall|j: int| 0 <= j < i ==> (#[trigger] competitors@[j]).fitness_spec()
                <= competitors@[best as int].fitness_spec(),
    {
        if competitors[i].fitness() > competitors[best].fitness() {
            best = i;
        }
    }

    best
}

/// A bounded pool of competitors ranked by fitness, with the parameters of
/// its generational loop fixed at construction.
pub struct Population {
    competitors: Vec<CompetingIndividual>,
    size: usize,
    selection_intensity: u32,
    mutation_probability: Probability,
    survival_range: SurvivalRange,
    fitness_table: FitnessTable,
}

impl Population {
    /// The current pool.
    pub closed spec fn competitors_spec(&self) -> Seq<CompetingIndividual> {
        self.competitors@
    }

    /// The target pool cardinality.
    pub closed spec fn size_spec(&self) -> usize {
        self.size
    }

    /// Fraction of the pool eligible for selection, in parts per
    /// `PROBABILITY_SCALE`.
    pub closed spec fn selection_intensity_spec(&self) -> u32 {
        self.selection_intensity
    }

    /// Per-bit mutation probability.
    pub closed spec fn mutation_probability_spec(&self) -> Probability {
        self.mutation_probability
    }

    /// Interval the members' decoded values must lie in.
    pub closed spec fn survival_range_spec(&self) -> SurvivalRange {
        self.survival_range
    }

    /// The fitness samples the pool ranks by.
    pub closed spec fn table_spec(&self) -> Seq<i64> {
        self.fitness_table@
    }

    /// The parameters fixed at construction, which no generational step
    /// changes.
    pub open spec fn same_parameters(&self, other: &Population) -> bool {
        &&& self.size_spec() == other.size_spec()
        &&& self.selection_intensity_spec() == other.selection_intensity_spec()
        &&& self.mutation_probability_spec() == other.mutation_probability_spec()
        &&& self.survival_range_spec() == other.survival_range_spec()
        &&& self.table_spec() == other.table_spec()
    }

    /// The pool's invariant, restored after every generational step: the
    /// parameters are valid, the pool holds exactly `size` members, and
    /// every member is well formed and decodes into the survival range.
    pub open spec fn wf(&self) -> bool {
        &&& self.size_spec() >= 1
        &&& self.competitors_spec().len() == self.size_spec()
        &&& 1 <= self.selection_intensity_spec() <= PROBABILITY_SCALE
        &&& self.survival_range_spec().wf()
        &&& self.table_spec().len() == CODE_SPACE_SIZE
        &&& forall|i: int| 0 <= i < self.competitors_spec().len() ==> competitor_ok(
            #[trigger] self.competitors_spec()[i],
            self.survival_range_spec(),
            self.table_spec(),
        )
    }

    /// Seeds a pool of exactly `size` members with pairwise distinct codes:
    /// each member's value is drawn uniformly from the grid values of the
    /// survival range not drawn before, so a value never seeds two members.
    /// The range must offer at least `size` distinct grid values.
    #[verifier::loop_isolation(false)]
    pub fn new(
        size: usize,
        selection_intensity: u32,
        mutation_probability: Probability,
        survival_range: SurvivalRange,
        fitness_table: FitnessTable,
    ) -> (r: Population)
        requires
            size >= 1,
            1 <= selection_intensity <= PROBABILITY_SCALE,
            survival_range.wf(),
            fitness_table.wf(),
            size <= survival_range.high_millis - survival_range.low_millis + 1,
        ensures
            r.wf(),
            r.size_spec() == size,
            r.selection_intensity_spec() == selection_intensity,
            r.mutation_probability_spec() == mutation_probability,
            r.survival_range_spec() == survival_range,
            r.table_spec() == fitness_table@,
            forall|i: int, j: int|
                0 <= i < j < r.competitors_spec().len() ==> (#[trigger] r.competitors_spec()[i])
                    .code_spec() != (#[trigger] r.competitors_spec()[j]).code_spec(),
    {
        let width: usize = (survival_range.high_millis - survival_range.low_millis) as usize + 1;
        let mut candidates: Vec<i32> = Vec::new();
        for k in 0..width
            invariant
                candidates@.len() == k,
                forall|i: int| 0 <= i < k ==> #[trigger] candidates@[i] == survival_range
                    .low_millis + i,
        {
            candidates.push(survival_range.low_millis + k as i32);
        }

        let mut individuals: Vec<NewbornIndividual> = Vec::new();

        for k in 0..size
            invariant
                candidates@.len() == width - k,
                individuals@.len() == k,
                forall|i: int| 0 <= i < candidates@.len() ==> survival_range.contains_spec(
                    #[trigger] candidates@[i] as int,
                ),
                forall|i: int, j: int|
                    0 <= i < j < candidates@.len() ==> (#[trigger] candidates@[i]) != (
                    #[trigger] candidates@[j]),
                forall|i: int| 0 <= i < individuals@.len() ==> ({
                    let n = #[trigger] individuals@[i];
                    n.wf(fitness_table@) && survival_range.contains_spec(value_millis_of(
                        n.code_spec(),
                    ))
                }),
                forall|i: int, j: int|
                    0 <= i < j < individuals@.len() ==> value_millis_of(
                        (#[trigger] individuals@[i]).code_spec(),
                    ) != value_millis_of((#[trigger] individuals@[j]).code_spec()),
                forall|i: int, j: int|
                    0 <= i < individuals@.len() && 0 <= j < candidates@.len()
                        ==> value_millis_of((#[trigger] individuals@[i]).code_spec()) != (
                        #[trigger] candidates@[j]) as int,
        {
            let drawn = sample_range(0, candidates.len() as i64);
            let chosen = drawn as usize;
            let ghost pre = candidates@;
            let value = candidates.swap_remove(chosen);
            proof {
                assert forall|i: int| 0 <= i < candidates@.len() implies (
                #[trigger] candidates@[i]) == if i == chosen {
                    pre[pre.len() - 1]
                } else {
                    pre[i]
                } by {}
                assert(forall|i: int| 0 <= i < candidates@.len() ==> (#[trigger] candidates@[i])
                    != value);
            }
            let newborn = NewbornIndividual::build(value, &fitness_table).unwrap();
            individuals.push(newborn);
        }

        let mut competitors: Vec<CompetingIndividual> = Vec::new();
        for k in 0..size
            invariant
                individuals@.len() == size,
                competitors@.len() == k,
                forall|i: int| 0 <= i < k ==> ({
                    let c = #[trigger] competitors@[i];
                    c.code_spec() == individuals@[i].code_spec() && c.fitness_spec()
                        == individuals@[i].fitness_spec()
                }),
        {
            competitors.push(CompetingIndividual::promote(individuals[k]));
        }

        Population {
            competitors,
            size,
            selection_intensity,
            mutation_probability,
            survival_range,
            fitness_table,
        }
    }

    /// The members of the current pool, in no particular order.
    pub fn members(&self) -> (r: &Vec<CompetingIndividual>)
        ensures
            r@ == self.competitors_spec(),
    {
        &self.competitors
    }

    /// The decoded value and fitness of a member no other member's fitness
    /// exceeds: the value lies in the survival range and the fitness is the
    /// table's sample for it.
    pub fn best(&self) -> (r: (i32, i64))
        requires
            self.wf(),
        ensures
            exists|i: int|
                0 <= i < self.competitors_spec().len()
                    && r.0 == value_millis_of((#[trigger] self.competitors_spec()[i]).code_spec())
                    && r.1 == self.competitors_spec()[i].fitness_spec(),
            forall|i: int| 0 <= i < self.competitors_spec().len() ==> (
            #[trigger] self.competitors_spec()[i]).fitness_spec() <= r.1,
            self.survival_range_spec().contains_spec(r.0 as int),
            r.1 == self.table_spec()[r.0 + 32768],
    {
        let mi = max_index(&self.competitors);
        let value = self.competitors[mi].value();
        let fitness = self.competitors[mi].fitness();
        (value, fitness)
    }

    /// Total fitness of the current pool.
    #[verifier::loop_isolation(false)]
    fn total_fitness(&self) -> (r: i128)
        ensures
            r == sum_fitness(self.competitors_spec()),
    {
        let mut total: i128 = 0;
        let n = self.competitors.len();

        for i in 0..n
            invariant
                total == sum_fitness(self.competitors@.take(i as int)),
                i * (i64::MIN as int) <= total <= i * (i64::MAX as int),
        {
            proof {
                assert(self.competitors@.take(i + 1).drop_last() =~= self.competitors@.take(
                    i as int,
                ));
            }
            total = total + self.competitors[i].fitness() as i128;
        }

        proof {
            assert(self.competitors@.take(n as int) =~= self.competitors@);
        }
        total
    }

    /// Runs `count` generational steps, recording the best (value, fitness)
    /// pair after each; the recorded fitness never decreases from one entry
    /// to the next, every entry is at least the best fitness of the starting
    /// pool, and the last entry is the best of the final pool.
    #[verifier::loop_isolation(false)]
    pub fn create_generations(&mut self, count: usize) -> (r: Vec<(i32, i64)>)
        requires
            old(self).wf(),
        ensures
            final(self).wf(),
            final(self).same_parameters(old(self)),
            r@.len() == count,
            forall|k: int| 0 <= k < count - 1 ==> (#[trigger] r@[k]).1 <= r@[k + 1].1,
            forall|k: int| 0 <= k < count ==> final(self).survival_range_spec().contains_spec(
                (#[trigger] r@[k]).0 as int,
            ) && r@[k].1 == final(self).table_spec()[r@[k].0 + 32768],
            count >= 1 ==> forall|i: int|
                0 <= i < old(self).competitors_spec().len() ==> (#[trigger] old(self).competitors_spec()[i]).fitness_spec() <= r@[0].1,
            count >= 1 ==> exists|i: int|
                0 <= i < final(self).competitors_spec().len() && r@[count - 1].0
                    == value_millis_of((#[trigger] final(self).competitors_spec()[i]).code_spec())
                    && r@[count - 1].1 == final(self).competitors_spec()[i].fitness_spec(),
            count >= 1 ==> forall|i: int|
                0 <= i < final(self).competitors_spec().len() ==> (#[trigger] final(self).competitors_spec()[i]).fitness_spec() <= r@[count - 1].1,
    {
        let mut result: Vec<(i32, i64)> = Vec::new();

        for g in 0..count
            invariant
                self.wf(),
                self.same_parameters(old(self)),
                result@.len() == g,
                g == 0 ==> self.competitors_spec() == old(self).competitors_spec(),
                forall|k: int| 0 <= k < g - 1 ==> (#[trigger] result@[k]).1 <= result@[k + 1].1,
                forall|k: int| 0 <= k < g ==> self.survival_range_spec().contains_spec(
                    (#[trigger] result@[k]).0 as int,
                ) && result@[k].1 == self.table_spec()[result@[k].0 + 32768],
                g >= 1 ==> forall|i: int|
                    0 <= i < old(self).competitors_spec().len() ==> (#[trigger] old(self).competitors_spec()[i]).fitness_spec() <= result@[0].1,
                g >= 1 ==> exists|i: int|
                    0 <= i < self.competitors_spec().len() && result@[g - 1].0 == value_millis_of(
                        (#[trigger] self.competitors_spec()[i]).code_spec(),
                    ) && result@[g - 1].1 == self.competitors_spec()[i].fitness_spec(),
                g >= 1 ==> forall|i: int|
                    0 <= i < self.competitors_spec().len() ==> (#[trigger] self.competitors_spec()[i]).fitness_spec() <= result@[g - 1].1,
        {
            let ghost pool_before = self.competitors_spec();
            self.next_generation();
            let entry = self.best();
            proof {
                let j = choose|j: int|
                    0 <= j < self.competitors_spec().len() && dominates(
                        pool_before,
                        #[trigger] self.competitors_spec()[j],
                    );
                assert(self.competitors_spec()[j].fitness_spec() <= entry.1);
            }
            result.push(entry);
        }

        result
    }

    /// One generational step: fixes the selection quota and the pool's mean
    /// fitness, repeatedly examines the pool's current best member and, while
    /// the quota lasts and that member's fitness is at least the mean, spends
    /// one quota slot and removes the member with probability one half (a
    /// skipped member stays eligible and may be examined again); breeds the
    /// selected members pairwise, adds the surviving children and every
    /// selected member back to the pool, and truncates the pool to the best
    /// `size` members. A member that dominates the starting pool is always
    /// retained.
    #[verifier::loop_isolation(false)]
    #[verifier::rlimit(100)]
    pub fn next_generation(&mut self)
        requires
            old(self).wf(),
        ensures
            final(self).wf(),
            final(self).same_parameters(old(self)),
            exists|j: int|
                0 <= j < final(self).competitors_spec().len() && dominates(
                    old(self).competitors_spec(),
                    #[trigger] final(self).competitors_spec()[j],
                ),
            old(self).mutation_probability_spec().value_spec() == 0 ==> forall|i: int|
                0 <= i < final(self).competitors_spec().len() ==> from_pool_or_splice(
                    old(self).competitors_spec(),
                    #[trigger] final(self).competitors_spec()[i],
                ),
    {
        let total = self.total_fitness();
        let quota = self.selection_quota();
        let mut remaining = quota;
        let mut selected: Vec<CompetingIndividual> = Vec::new();
        let ghost original = self.competitors_spec();

        proof {
            lemma_max_exists(original);
        }

        loop
            invariant
                self.same_parameters(old(self)),
                self.competitors@.len() + selected@.len() == original.len(),
                forall|i: int| 0 <= i < self.competitors@.len() ==> competitor_ok(
                    #[trigger] self.competitors@[i],
                    self.survival_range_spec(),
                    self.table_spec(),
                ),
                forall|i: int| 0 <= i < selected@.len() ==> competitor_ok(
                    #[trigger] selected@[i],
                    self.survival_range_spec(),
                    self.table_spec(),
                ),
                forall|i: int| 0 <= i < self.competitors@.len() ==> member_of(
                    original,
                    #[trigger] self.competitors@[i],
                ),
                forall|i: int| 0 <= i < selected@.len() ==> member_of(
                    original,
                    #[trigger] selected@[i],
                ),
                (exists|j: int|
                    0 <= j < self.competitors@.len() && dominates(
                        original,
                        #[trigger] self.competitors@[j],
                    )) || (exists|j: int|
                    0 <= j < selected@.len() && dominates(original, #[trigger] selected@[j])),
            decreases remaining,
        {
            if self.competitors.len() == 0 || remaining == 0 {
                break;
            }

            let mi = max_index(&self.competitors);
            let max_fitness = self.competitors[mi].fitness();
            proof {
                assert((max_fitness as int) * (self.size as int) <= i64::MAX as int * usize::MAX
                    as int && (max_fitness as int) * (self.size as int) >= i64::MIN as int
                    * usize::MAX as int) by (nonlinear_arith)
                    requires
                        i64::MIN as int <= max_fitness as int <= i64::MAX as int,
                        0 <= self.size as int <= usize::MAX as int,
                ;
            }
            if (max_fitness as i128) * (self.size as i128) < total {
                break;
            }

            if sample_range(0, 2) == 1 {
                let ghost pool_before = self.competitors@;
                let ghost sel_before = selected@;
                let taken = self.competitors.swap_remove(mi);
                selected.push(taken);
                proof {
                    assert forall|ii: int| 0 <= ii < self.competitors@.len() implies competitor_ok(
                        #[trigger] self.competitors@[ii],
                        self.survival_range_spec(),
                        self.table_spec(),
                    ) by {
                        if ii == mi {
                            assert(self.competitors@[ii] == pool_before[pool_before.len() - 1]);
                        } else {
                            assert(self.competitors@[ii] == pool_before[ii]);
                        }
                    }
                    assert forall|ii: int| 0 <= ii < self.competitors@.len() implies member_of(
                        original,
                        #[trigger] self.competitors@[ii],
                    ) by {
                        if ii == mi {
                            assert(self.competitors@[ii] == pool_before[pool_before.len() - 1]);
                            assert(member_of(original, pool_before[pool_before.len() - 1]));
                        } else {
                            assert(self.competitors@[ii] == pool_before[ii]);
                            assert(member_of(original, pool_before[ii]));
                        }
                    }
                    assert(member_of(original, taken));
                    assert forall|ii: int| 0 <= ii < selected@.len() implies member_of(
                        original,
                        #[trigger] selected@[ii],
                    ) by {
                        if ii < sel_before.len() {
                            assert(selected@[ii] == sel_before[ii]);
                            assert(member_of(original, sel_before[ii]));
                        } else {
                            assert(selected@[ii] == taken);
                        }
                    }
                    if exists|j: int|
                        0 <= j < pool_before.len() && dominates(
                            original,
                            #[trigger] pool_before[j],
                        ) {
                        let j = choose|j: int|
                            0 <= j < pool_before.len() && dominates(
                                original,
                                #[trigger] pool_before[j],
                            );
                        assert(pool_before[j].fitness_spec() <= taken.fitness_spec());
                        assert forall|i: int| 0 <= i < original.len() implies (
                        #[trigger] original[i]).fitness_spec() <= taken.fitness_spec() by {
                            assert(original[i].fitness_spec() <= pool_before[j].fitness_spec());
                        }
                        assert(dominates(original, taken));
                        assert(selected@[sel_before.len() as int] == taken);
                    } else {
                        let j = choose|j: int|
                            0 <= j < sel_before.len() && dominates(
                                original,
                                #[trigger] sel_before[j],
                            );
                        assert(selected@[j] == sel_before[j]);
                    }
                }
            }

            remaining = remaining - 1;
        }

        proof {
            assert forall|i: int| 0 <= i < self.competitors@.len() implies from_pool_or_splice(
                original,
                #[trigger] self.competitors@[i],
            ) by {
                assert(member_of(original, self.competitors@[i]));
            }
        }

        let pair_count = selected.len() / 2;
        for p in 0..pair_count
            invariant
                self.same_parameters(old(self)),
                self.competitors@.len() + selected@.len() >= original.len(),
                forall|i: int| 0 <= i < self.competitors@.len() ==> competitor_ok(
                    #[trigger] self.competitors@[i],
                    self.survival_range_spec(),
                    self.table_spec(),
                ),
                forall|i: int| 0 <= i < selected@.len() ==> competitor_ok(
                    #[trigger] selected@[i],
                    self.survival_range_spec(),
                    self.table_spec(),
                ),
                forall|i: int| 0 <= i < selected@.len() ==> member_of(
                    original,
                    #[trigger] selected@[i],
                ),
                self.mutation_probability_spec().value_spec() == 0 ==> forall|i: int|
                    0 <= i < self.competitors@.len() ==> from_pool_or_splice(
                        original,
                        #[trigger] self.competitors@[i],
                    ),
                (exists|j: int|
                    0 <= j < self.competitors@.len() && dominates(
                        original,
                        #[trigger] self.competitors@[j],
                    )) || (exists|j: int|
                    0 <= j < selected@.len() && dominates(original, #[trigger] selected@[j])),
        {
            // Pairing order: the selected members in removal order, even
            // positions read from the front, odd positions from the back:
            // the first pairs with the last odd position, the third with the
            // second-to-last odd position, and so on; with an odd count the
            // last even position stays unpaired.
            let first = selected[2 * p];
            let second = selected[2 * (pair_count - p) - 1];
            let children = first.crossing_over(
                &second,
                &self.survival_range,
                self.mutation_probability,
                &self.fitness_table,
            );

            let child_count = children.len();
            for c in 0..child_count
                invariant
                    self.same_parameters(old(self)),
                    self.competitors@.len() + selected@.len() >= original.len(),
                    forall|i: int| 0 <= i < self.competitors@.len() ==> competitor_ok(
                        #[trigger] self.competitors@[i],
                        self.survival_range_spec(),
                        self.table_spec(),
                    ),
                    self.mutation_probability_spec().value_spec() == 0 ==> forall|i: int|
                        0 <= i < self.competitors@.len() ==> from_pool_or_splice(
                            original,
                            #[trigger] self.competitors@[i],
                        ),
                    (exists|j: int|
                        0 <= j < self.competitors@.len() && dominates(
                            original,
                            #[trigger] self.competitors@[j],
                        )) || (exists|j: int|
                        0 <= j < selected@.len() && dominates(original, #[trigger] selected@[j])),
            {
                let ghost pool_prev = self.competitors@;
                self.competitors.push(children[c]);
                proof {
                    if exists|j: int|
                        0 <= j < pool_prev.len() && dominates(original, #[trigger] pool_prev[j]) {
                        let j = choose|j: int|
                            0 <= j < pool_prev.len() && dominates(
                                original,
                                #[trigger] pool_prev[j],
                            );
                        assert(self.competitors@[j] == pool_prev[j]);
                    }
                    if self.mutation_probability_spec().value_spec() == 0 {
                        let lr = splice_left_right(first.code_spec(), second.code_spec());
                        let rl = splice_right_left(first.code_spec(), second.code_spec());
                        assert(children@[c as int].code_spec() == lr || children@[
                            c as int].code_spec() == rl);
                        assert(member_of(original, selected@[2 * (p as int)]));
                        assert(member_of(original, selected@[2 * ((pair_count - p) as int) - 1]));
                        let a = choose|k: int| 0 <= k < original.len() && first == #[trigger]
                            original[k];
                        let b = choose|k: int| 0 <= k < original.len() && second == #[trigger]
                            original[k];
                        assert(from_pool_or_splice(original, children@[c as int]));
                        assert forall|ii: int| 0 <= ii < self.competitors@.len() implies
                            from_pool_or_splice(original, #[trigger] self.competitors@[ii]) by {
                            if ii < pool_prev.len() {
                                assert(self.competitors@[ii] == pool_prev[ii]);
                                assert(from_pool_or_splice(original, pool_prev[ii]));
                            } else {
                                assert(self.competitors@[ii] == children@[c as int]);
                            }
                        }
                    }
                }
            }
        }

        let selected_count = selected.len();
        for s in 0..selected_count
            invariant
                self.same_parameters(old(self)),
                selected@.len() == selected_count,
                self.competitors@.len() + selected_count >= original.len() + s,
                forall|i: int| 0 <= i < self.competitors@.len() ==> competitor_ok(
                    #[trigger] self.competitors@[i],
                    self.survival_range_spec(),
                    self.table_spec(),
                ),
                forall|i: int| 0 <= i < selected@.len() ==> competitor_ok(
                    #[trigger] selected@[i],
                    self.survival_range_spec(),
                    self.table_spec(),
                ),
                forall|i: int| 0 <= i < selected@.len() ==> member_of(
                    original,
                    #[trigger] selected@[i],
                ),
                self.mutation_probability_spec().value_spec() == 0 ==> forall|i: int|
                    0 <= i < self.competitors@.len() ==> from_pool_or_splice(
                        original,
                        #[trigger] self.competitors@[i],
                    ),
                (exists|j: int|
                    0 <= j < self.competitors@.len() && dominates(
                        original,
                        #[trigger] self.competitors@[j],
                    )) || (exists|j: int|
                    s <= j < selected@.len() && dominates(original, #[trigger] selected@[j])),
        {
            let ghost pool_prev = self.competitors@;
            self.competitors.push(selected[s]);
            proof {
                if exists|j: int|
                    0 <= j < pool_prev.len() && dominates(original, #[trigger] pool_prev[j]) {
                    let j = choose|j: int|
                        0 <= j < pool_prev.len() && dominates(original, #[trigger] pool_prev[j]);
                    assert(self.competitors@[j] == pool_prev[j]);
                } else {
                    let j = choose|j: int|
                        s <= j < selected@.len() && dominates(original, #[trigger] selected@[j]);
                    if j == s {
                        assert(self.competitors@[pool_prev.len() as int] == selected@[j]);
                    }
                }
                if self.mutation_probability_spec().value_spec() == 0 {
                    assert(member_of(original, selected@[s as int]));
                    assert forall|ii: int| 0 <= ii < self.competitors@.len() implies
                        from_pool_or_splice(original, #[trigger] self.competitors@[ii]) by {
                        if ii < pool_prev.len() {
                            assert(self.competitors@[ii] == pool_prev[ii]);
                            assert(from_pool_or_splice(original, pool_prev[ii]));
                        } else {
                            assert(self.competitors@[ii] == selected@[s as int]);
                        }
                    }
                }
            }
        }

        proof {
            assert(self.competitors@.len() >= original.len());
        }
        let ghost merged_pool = self.competitors@;
        self.shrink();
        proof {
            if self.mutation_probability_spec().value_spec() == 0 {
                assert forall|i: int| 0 <= i < self.competitors_spec().len() implies
                    from_pool_or_splice(original, #[trigger] self.competitors_spec()[i]) by {
                    assert(member_of(merged_pool, self.competitors_spec()[i]));
                    let k = choose|k: int|
                        0 <= k < merged_pool.len() && self.competitors_spec()[i] == #[trigger]
                            merged_pool[k];
                    assert(from_pool_or_splice(original, merged_pool[k]));
                }
            }
        }
    }

    /// Elitist truncation: extracts the best member of the merged pool into
    /// a fresh pool until it holds exactly `size` members, and discards the
    /// remainder. The kept pool is a sub-multiset of the merged pool, every
    /// discarded member's fitness is at most every kept member's, and the
    /// merged pool's best member is always kept.
    #[verifier::loop_isolation(false)]
    #[verifier::rlimit(100)]
    fn shrink(&mut self)
        requires
            old(self).size_spec() >= 1,
            old(self).competitors_spec().len() >= old(self).size_spec(),
            forall|i: int| 0 <= i < old(self).competitors_spec().len() ==> competitor_ok(
                #[trigger] old(self).competitors_spec()[i],
                old(self).survival_range_spec(),
                old(self).table_spec(),
            ),
        ensures
            final(self).same_parameters(old(self)),
            final(self).competitors_spec().len() == final(self).size_spec(),
            forall|i: int| 0 <= i < final(self).competitors_spec().len() ==> competitor_ok(
                #[trigger] final(self).competitors_spec()[i],
                final(self).survival_range_spec(),
                final(self).table_spec(),
            ),
            forall|i: int| 0 <= i < final(self).competitors_spec().len() ==> member_of(
                old(self).competitors_spec(),
                #[trigger] final(self).competitors_spec()[i],
            ),
            final(self).competitors_spec().to_multiset().subset_of(
                old(self).competitors_spec().to_multiset(),
            ),
            forall|a: CompetingIndividual, b: CompetingIndividual|
                (#[trigger] old(self).competitors_spec().to_multiset().sub(
                    final(self).competitors_spec().to_multiset(),
                ).count(a)) > 0 && (#[trigger] final(self).competitors_spec().to_multiset().count(
                    b,
                )) > 0 ==> a.fitness_spec() <= b.fitness_spec(),
            exists|j: int|
                0 <= j < final(self).competitors_spec().len() && dominates(
                    old(self).competitors_spec(),
                    #[trigger] final(self).competitors_spec()[j],
                ),
    {
        broadcast use vstd::seq_lib::group_to_multiset_ensures;
        broadcast use vstd::multiset::group_multiset_axioms;

        let mut retained: Vec<CompetingIndividual> = Vec::new();
        let ghost merged = self.competitors@;

        proof {
            assert forall|v: CompetingIndividual| #[trigger] retained@.to_multiset().count(v)
                == 0 by {
                assert(!retained@.contains(v));
            }
            assert(retained@.to_multiset().add(self.competitors@.to_multiset())
                =~= merged.to_multiset());
        }

        while retained.len() < self.size && self.competitors.len() > 0
            invariant
                self.same_parameters(old(self)),
                retained@.len() <= self.size,
                retained@.len() + self.competitors@.len() == merged.len(),
                retained@.len() == 0 ==> self.competitors@ == merged,
                retained@.len() >= 1 ==> dominates(merged, retained@[0]),
                retained@.to_multiset().add(self.competitors@.to_multiset())
                    == merged.to_multiset(),
                forall|a: int, b: int|
                    0 <= a < self.competitors@.len() && 0 <= b < retained@.len() ==> (
                    #[trigger] self.competitors@[a]).fitness_spec() <= (#[trigger] retained@[b])
                        .fitness_spec(),
                forall|i: int| 0 <= i < self.competitors@.len() ==> member_of(
                    merged,
                    #[trigger] self.competitors@[i],
                ),
                forall|i: int| 0 <= i < retained@.len() ==> member_of(
                    merged,
                    #[trigger] retained@[i],
                ),
                forall|i: int| 0 <= i < self.competitors@.len() ==> competitor_ok(
                    #[trigger] self.competitors@[i],
                    self.survival_range_spec(),
                    self.table_spec(),
                ),
                forall|i: int| 0 <= i < retained@.len() ==> competitor_ok(
                    #[trigger] retained@[i],
                    self.survival_range_spec(),
                    self.table_spec(),
                ),
            decreases self.competitors@.len(),
        {
            let mi = max_index(&self.competitors);
            let ghost pool_before = self.competitors@;
            let ghost retained_before = retained@;
            let taken = self.competitors.remove(mi);
            retained.push(taken);
            proof {
                assert(self.competitors@ == pool_before.remove(mi as int));
                assert(pool_before.remove(mi as int).to_multiset() == pool_before.to_multiset()
                    .remove(taken));
                assert(retained@ == retained_before.push(taken));
                assert(retained_before.push(taken).to_multiset() =~= retained_before.to_multiset()
                    .insert(taken));
                assert(pool_before.contains(taken));
                assert(pool_before.to_multiset().count(taken) > 0);
                assert(retained@.to_multiset().add(self.competitors@.to_multiset())
                    =~= merged.to_multiset());
                assert forall|ii: int| 0 <= ii < self.competitors@.len() implies member_of(
                    merged,
                    #[trigger] self.competitors@[ii],
                ) && competitor_ok(
                    self.competitors@[ii],
                    self.survival_range_spec(),
                    self.table_spec(),
                ) by {
                    if ii < mi {
                        assert(self.competitors@[ii] == pool_before[ii]);
                        assert(member_of(merged, pool_before[ii]));
                    } else {
                        assert(self.competitors@[ii] == pool_before[ii + 1]);
                        assert(member_of(merged, pool_before[ii + 1]));
                    }
                }
                assert(member_of(merged, taken));
                assert forall|ii: int| 0 <= ii < retained@.len() implies member_of(
                    merged,
                    #[trigger] retained@[ii],
                ) by {
                    if ii < retained_before.len() {
                        assert(retained@[ii] == retained_before[ii]);
                        assert(member_of(merged, retained_before[ii]));
                    } else {
                        assert(retained@[ii] == taken);
                    }
                }
                assert forall|a: int, b: int|
                    0 <= a < self.competitors@.len() && 0 <= b < retained@.len() implies (
                #[trigger] self.competitors@[a]).fitness_spec() <= (#[trigger] retained@[b])
                    .fitness_spec() by {
                    let pa = if a < mi {
                        pool_before[a]
                    } else {
                        pool_before[a + 1]
                    };
                    assert(self.competitors@[a] == pa);
                    assert(pa.fitness_spec() <= taken.fitness_spec());
                    if b < retained_before.len() {
                        assert(retained@[b] == retained_before[b]);
                        assert(pa.fitness_spec() <= retained_before[b].fitness_spec());
                    } else {
                        assert(retained@[b] == taken);
                    }
                }
            }
        }

        let ghost kept = retained@;
        let ghost discard = self.competitors@;
        self.competitors = retained;
        proof {
            assert(self.competitors@ == kept);
            assert(0 < self.competitors_spec().len());
            assert(dominates(old(self).competitors_spec(), self.competitors_spec()[0]));
            assert forall|v: CompetingIndividual| #[trigger] kept.to_multiset().count(v)
                <= merged.to_multiset().count(v) by {
                assert(kept.to_multiset().add(discard.to_multiset()).count(v) == merged
                    .to_multiset().count(v));
            }
            assert(kept.to_multiset().subset_of(merged.to_multiset()));
            assert forall|a: CompetingIndividual, b: CompetingIndividual|
                (#[trigger] merged.to_multiset().sub(kept.to_multiset()).count(a)) > 0 && (
                #[trigger] kept.to_multiset().count(b)) > 0 implies a.fitness_spec()
                <= b.fitness_spec() by {
                assert(kept.to_multiset().add(discard.to_multiset()).count(a) == merged
                    .to_multiset().count(a));
                assert(discard.to_multiset().count(a) > 0);
                assert(discard.contains(a));
                let ai = choose|k: int| 0 <= k < discard.len() && discard[k] == a;
                assert(kept.contains(b));
                let bi = choose|k: int| 0 <= k < kept.len() && kept[k] == b;
                assert(discard[ai].fitness_spec() <= kept[bi].fitness_spec());
            }
        }
    }

    /// The selection quota: the number of eligible selection slots per
    /// generation, the intensity fraction of the pool size rounded upward.
    fn selection_quota(&self) -> (r: usize)
        requires
            1 <= self.selection_intensity_spec() <= PROBABILITY_SCALE,
            self.size_spec() >= 1,
        ensures
            r as int == (self.selection_intensity_spec() * self.size_spec() + (PROBABILITY_SCALE
                - 1)) / (PROBABILITY_SCALE as int),
            r <= self.size_spec(),
            r >= 1,
    {
        let scale = PROBABILITY_SCALE as u128;
        proof {
            assert(self.selection_intensity as int * self.size as int <= PROBABILITY_SCALE as int
                * usize::MAX as int) by (nonlinear_arith)
                requires
                    0 <= self.selection_intensity as int <= PROBABILITY_SCALE as int,
                    0 <= self.size as int <= usize::MAX as int,
            ;
        }
        let product = self.selection_intensity as u128 * self.size as u128;
        let quota = (product + (scale - 1)) / scale;
        proof {
            assert((self.selection_intensity as int * self.size as int + (PROBABILITY_SCALE as int
                - 1)) / (PROBABILITY_SCALE as int) <= self.size as int && (self.selection_intensity
                as int * self.size as int + (PROBABILITY_SCALE as int - 1)) / (PROBABILITY_SCALE
                as int) >= 1) by (nonlinear_arith)
                requires
                    1 <= self.selection_intensity as int <= PROBABILITY_SCALE as int,
                    self.size as int >= 1,
            ;
        }
        quota as usize
    }
}

} // verus!
