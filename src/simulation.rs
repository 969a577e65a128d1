//! The simulation: populations stepped generation after generation, the
//! overall fittest candidate, and the termination and propagation policies.
use vstd::prelude::*;

use crate::individual::{Individual, IndividualWrapper, MAX_FITNESS};
use crate::population::{fitness_sorted, intensities, sort_by_fitness, Population};
use crate::select::{count_is_valid, MaximizeSelector};

verus! {

/// A non-negative ratio `numerator / denominator`; a zero denominator stands
/// for an unbounded ratio.
#[derive(Clone, Copy, Debug, PartialEq, Eq, Structural)]
pub struct Factor {
    pub numerator: u64,
    pub denominator: u64,
}

/// Whether `a <= b` as ratios, compared by cross-multiplication.
pub open spec fn factor_at_most(a: Factor, b: Factor) -> bool {
    a.numerator as int * b.denominator as int <= b.numerator as int * a.denominator as int
}

/// The improvement factor: the best fitness over the baseline fitness.
pub open spec fn improvement_of(best: u64, baseline: u64) -> Factor {
    Factor { numerator: best, denominator: baseline }
}

/// Whenever the baseline fitness is positive and the best fitness is positive
/// and no worse than the baseline, the improvement factor lies in (0, 1].
pub proof fn lemma_improvement_factor_in_unit_interval(best: u64, baseline: u64)
    requires
        0 < best <= baseline,
    ensures
        improvement_of(best, baseline).numerator > 0,
        improvement_of(best, baseline).denominator > 0,
        factor_at_most(improvement_of(best, baseline), Factor { numerator: 1, denominator: 1 }),
{
}

impl Factor {
    /// Compares two ratios: `self <= other`.
    pub fn at_most(&self, other: &Factor) -> (r: bool)
        ensures
            r == factor_at_most(*self, *other),
    {
        let a = self.numerator as u128;
        let b = other.denominator as u128;
        let c = other.numerator as u128;
        let d = self.denominator as u128;
        proof {
            lemma_product_fits(a, b);
            lemma_product_fits(c, d);
        }
        a * b <= c * d
    }
}

/// The product of two values below 2^64 fits in a `u128`.
proof fn lemma_product_fits(a: u128, b: u128)
    requires
        a <= u64::MAX,
        b <= u64::MAX,
    ensures
        a * b <= u128::MAX,
{
    assert(a * b <= u64::MAX as int * u64::MAX as int) by (nonlinear_arith)
        requires
            a <= u64::MAX,
            b <= u64::MAX,
    ;
}

/// Whether the selector can pick parents from every doubled population.
pub open spec fn selector_fits<T>(count: usize, habitat: Seq<Population<T>>) -> bool {
    forall|q: int|
        0 <= q < habitat.len() ==> count_is_valid(count as nat, 2 * (#[trigger] habitat[q]).population@.len())
}

/// When the run stops.
#[derive(Clone, Copy, Debug, PartialEq, Eq, Structural)]
pub enum SimulationType {
    /// After exactly this many generations.
    EndIteration(u32),
    /// Once the best fitness is at most this value.
    EndFittness(u64),
    /// Once the improvement factor is at most this ratio.
    EndFactor(Factor),
}

/// How the fittest candidate is shared after each generation.
#[derive(Clone, Copy, Debug, PartialEq, Eq, Structural)]
pub enum FittestType {
    /// The overall fittest overwrites every slot but each population's last.
    GlobalFittest,
    /// Each population's own fittest overwrites its slots but the last.
    LocalFittest,
    /// The overall fittest overwrites one randomly chosen slot.
    RandomFittest,
}

/// Populations evolved together toward a common goal.
pub struct Simulation<T> {
    pub type_of_simulation: SimulationType,
    pub type_of_fittest: FittestType,
    /// Worker threads asked for; populations are stepped one after another.
    pub num_of_threads: usize,
    /// Best fitness over baseline fitness.
    pub improvement_factor: Factor,
    /// Fitness of the first candidate before any mutation.
    pub original_fitness: u64,
    pub habitat: Vec<Population<T>>,
    /// The fittest candidate seen so far.
    pub fittest: Option<IndividualWrapper<T>>,
    pub total_time_in_ms: u64,
    pub iteration_counter: u32,
    /// Whether a caller reporting progress should announce new fittest
    /// candidates.
    pub output_new_fittest: bool,
    /// Picks parents for candidate types that support crossover.
    pub selector: MaximizeSelector,
    /// The best fitness and the improvement factor at the start of the last
    /// run and after each of its generations.
    pub history: Ghost<Seq<(u64, Factor)>>,
    /// The populations right after the last generation step, before the
    /// fittest candidate was shared.
    pub stepped: Ghost<Seq<Population<T>>>,
    /// The populations when the last run stopped, before the final sort.
    pub evolved: Ghost<Seq<Population<T>>>,
}

/// Relies on time::precise_time_ns: a reading of a high-resolution clock, in
/// nanoseconds.
#[verifier::external_body]
fn precise_time_ns() -> (r: u64) {
    time::precise_time_ns()
}

/// Relies on rand::Rng::gen_range over rand::thread_rng: a value drawn from
/// `0..bound`, which must not be empty.
#[verifier::external_body]
fn random_below(bound: u64) -> (r: u64)
    requires
        bound > 0,
    ensures
        r < bound,
{
    rand::Rng::gen_range(&mut rand::thread_rng(), 0..bound)
}

/// Milliseconds from `start_ns` to `end_ns`, zero if the clock went backwards.
pub open spec fn elapsed_ms_of(start_ns: u64, end_ns: u64) -> u64 {
    if end_ns >= start_ns {
        ((end_ns - start_ns) / 1_000_000) as u64
    } else {
        0
    }
}

/// Milliseconds from `start_ns` to `end_ns`, zero if the clock went backwards.
pub fn elapsed_ms(start_ns: u64, end_ns: u64) -> (r: u64)
    ensures
        r == elapsed_ms_of(start_ns, end_ns),
{
    if end_ns >= start_ns {
        (end_ns - start_ns) / 1_000_000
    } else {
        0
    }
}

impl<T> Simulation<T> {
    /// At least one population, none of them empty, each at its target size.
    pub open spec fn wf(&self) -> bool {
        &&& 1 <= self.habitat@.len() <= u32::MAX
        &&& forall|q: int|
            0 <= q < self.habitat@.len() ==> (#[trigger] self.habitat@[q]).wf()
                && self.habitat@[q].population@.len() >= 1
    }

    /// Fitness of the fittest candidate seen so far.
    pub open spec fn best_fitness(&self) -> u64 {
        match self.fittest {
            Some(w) => w.fitness,
            None => MAX_FITNESS,
        }
    }

    /// Cached fitness of slot `k` of population `q`.
    pub open spec fn fitness_at(&self, q: int, k: int) -> u64 {
        self.habitat@[q].population@[k].fitness
    }

    /// No candidate has a fitness below `f`.
    pub open spec fn all_at_least(&self, f: u64) -> bool {
        forall|q: int, k: int|
            0 <= q < self.habitat@.len() && 0 <= k < self.habitat@[q].population@.len() ==> f
                <= #[trigger] self.fitness_at(q, k)
    }

    /// No candidate of `h` has a fitness below `f`.
    pub open spec fn none_below(h: Seq<Population<T>>, f: u64) -> bool {
        forall|q: int, k: int|
            0 <= q < h.len() && 0 <= k < h[q].population@.len() ==> f <= #[trigger] h[q].population@[k].fitness
    }

    /// `f` is `previous`, or the fitness of some candidate of `h`.
    pub open spec fn comes_from(h: Seq<Population<T>>, f: u64, previous: u64) -> bool {
        f == previous || exists|q: int, k: int|
            0 <= q < h.len() && 0 <= k < h[q].population@.len() && #[trigger] h[q].population@[k].fitness == f
    }

    /// `after` is `before` but for the slot at position `draw`, counting all
    /// slots in order, which holds fitness `f`.
    pub open spec fn placed_only_at(before: Seq<Population<T>>, after: Seq<Population<T>>, f: u64, draw: int) -> bool {
        forall|q: int, t: int|
            #![trigger after[q].population@[t]]
            0 <= q < after.len() && 0 <= t < after[q].population@.len() ==> {
                &&& slots_before(before, q) + t == draw ==> after[q].population@[t].fitness == f
                &&& slots_before(before, q) + t != draw ==> after[q].population@[t] == before[q].population@[t]
            }
    }

    /// The population sizes are those of `other`.
    pub open spec fn same_shape(&self, other: &Self) -> bool {
        &&& self.habitat@.len() == other.habitat@.len()
        &&& forall|q: int|
            0 <= q < self.habitat@.len() ==> (#[trigger] self.habitat@[q]).population@.len()
                == other.habitat@[q].population@.len() && self.habitat@[q].num_of_individuals
                == other.habitat@[q].num_of_individuals
    }

    /// The configuration of `other` and its record of the last run are kept.
    pub open spec fn same_config(&self, other: &Self) -> bool {
        &&& self.same_settings(other)
        &&& self.history == other.history
        &&& self.stepped == other.stepped
        &&& self.evolved == other.evolved
    }

    /// The configuration of `other` is kept.
    pub open spec fn same_settings(&self, other: &Self) -> bool {
        &&& self.type_of_simulation == other.type_of_simulation
        &&& self.type_of_fittest == other.type_of_fittest
        &&& self.num_of_threads == other.num_of_threads
        &&& self.output_new_fittest == other.output_new_fittest
        &&& self.selector == other.selector
    }

    /// Whether the policy's goal is met after `counter` generations, with
    /// `best` the best fitness and `factor` the improvement factor then.
    pub open spec fn goal_met(&self, counter: int, best: u64, factor: Factor) -> bool {
        match self.type_of_simulation {
            SimulationType::EndIteration(n) => counter >= n,
            SimulationType::EndFittness(target) => best <= target,
            SimulationType::EndFactor(target) => factor_at_most(factor, target),
        }
    }

    /// Whether the run is over after `counter` generations: the policy's goal
    /// is met, or the counter can grow no further.
    pub open spec fn finished(&self, counter: u32) -> bool {
        counter == u32::MAX || match self.type_of_simulation {
            SimulationType::EndIteration(n) => counter >= n,
            SimulationType::EndFittness(target) => self.best_fitness() <= target,
            SimulationType::EndFactor(target) => factor_at_most(self.improvement_factor, target),
        }
    }

    /// Where the fittest candidate is, if it beats `bound`: the first slot
    /// holding the lowest fitness.
    fn find_fittest(&self, bound: u64) -> (r: Option<(usize, usize)>)
        requires
            self.wf(),
        ensures
            r is None ==> self.all_at_least(bound),
            r matches Some((q, k)) ==> {
                &&& q < self.habitat@.len()
                &&& k < self.habitat@[q as int].population@.len()
                &&& self.fitness_at(q as int, k as int) < bound
                &&& self.all_at_least(self.fitness_at(q as int, k as int))
                &&& forall|a: int, j: int|
                    0 <= a <= q && 0 <= j < self.habitat@[a].population@.len() && (a < q || j < k) ==> self.fitness_at(
                        q as int,
                        k as int,
                    ) < #[trigger] self.fitness_at(a, j)
            },
    {
        let mut found: Option<(usize, usize)> = None;
        let mut cur = bound;
        let mut q: usize = 0;
        while q < self.habitat.len()
            invariant
                self.wf(),
                q <= self.habitat@.len(),
                cur <= bound,
                found is None ==> cur == bound,
                found matches Some((fq, fk)) ==> fq < self.habitat@.len() && fk
                    < self.habitat@[fq as int].population@.len() && self.fitness_at(fq as int, fk as int)
                    == cur && cur < bound,
                forall|a: int, k: int|
                    0 <= a < q && 0 <= k < self.habitat@[a].population@.len() ==> cur
                        <= #[trigger] self.fitness_at(a, k),
                found matches Some((fq, fk)) ==> forall|a: int, j: int|
                    0 <= a <= fq && 0 <= j < self.habitat@[a].population@.len() && (a < fq || j < fk) ==> cur
                        < #[trigger] self.fitness_at(a, j),
                found matches Some((fq, fk)) ==> fq < q,
            decreases self.habitat@.len() - q,
        {
            let n = self.habitat[q].population.len();
            let mut k: usize = 0;
            while k < n
                invariant
                    self.wf(),
                    q < self.habitat@.len(),
                    n == self.habitat@[q as int].population@.len(),
                    k <= n,
                    cur <= bound,
                    found is None ==> cur == bound,
                    found matches Some((fq, fk)) ==> fq < self.habitat@.len() && fk
                        < self.habitat@[fq as int].population@.len() && self.fitness_at(fq as int, fk as int)
                        == cur && cur < bound,
                    forall|a: int, j: int|
                        0 <= a < q && 0 <= j < self.habitat@[a].population@.len() ==> cur
                            <= #[trigger] self.fitness_at(a, j),
                    forall|j: int| 0 <= j < k ==> cur <= #[trigger] self.fitness_at(q as int, j),
                    found matches Some((fq, fk)) ==> forall|a: int, j: int|
                        0 <= a <= fq && 0 <= j < self.habitat@[a].population@.len() && (a < fq || j < fk) ==> cur
                            < #[trigger] self.fitness_at(a, j),
                    found matches Some((fq, fk)) ==> fq < q || (fq == q && fk < k),
                decreases n - k,
            {
                let f = self.habitat[q].population[k].fitness;
                if f < cur {
                    cur = f;
                    found = Some((q, k));
                }
                k = k + 1;
            }
            q = q + 1;
        }
        found
    }
}

/// Number of candidate slots in the first `q` populations.
pub open spec fn slots_before<T>(h: Seq<Population<T>>, q: int) -> int
    decreases q,
{
    if q <= 0 {
        0
    } else {
        slots_before(h, q - 1) + h[q - 1].population@.len()
    }
}

/// The slot counts grow with `q` and stay below `q` times the largest size.
proof fn lemma_slots_before<T>(h: Seq<Population<T>>, q: int)
    requires
        0 <= q <= h.len(),
        forall|a: int| 0 <= a < h.len() ==> (#[trigger] h[a]).population@.len() <= u32::MAX,
    ensures
        0 <= slots_before(h, q) <= q * u32::MAX,
        forall|a: int| 0 <= a <= q ==> slots_before(h, a) <= slots_before(h, q),
    decreases q,
{
    if q > 0 {
        lemma_slots_before(h, q - 1);
    }
}

/// Slot counts depend on the population sizes alone.
proof fn lemma_slots_same_sizes<T>(h1: Seq<Population<T>>, h2: Seq<Population<T>>)
    requires
        h1.len() == h2.len(),
        forall|a: int| 0 <= a < h1.len() ==> (#[trigger] h1[a]).population@.len() == h2[a].population@.len(),
    ensures
        forall|q: int| 0 <= q <= h1.len() ==> #[trigger] slots_before(h1, q) == slots_before(h2, q),
{
    assert forall|q: int| 0 <= q <= h1.len() implies #[trigger] slots_before(h1, q) == slots_before(h2, q) by {
        lemma_slots_same_sizes_to(h1, h2, q);
    }
}

proof fn lemma_slots_same_sizes_to<T>(h1: Seq<Population<T>>, h2: Seq<Population<T>>, q: int)
    requires
        0 <= q <= h1.len(),
        h1.len() == h2.len(),
        forall|a: int| 0 <= a < h1.len() ==> (#[trigger] h1[a]).population@.len() == h2[a].population@.len(),
    ensures
        slots_before(h1, q) == slots_before(h2, q),
    decreases q,
{
    if q > 0 {
        lemma_slots_same_sizes_to(h1, h2, q - 1);
    }
}

impl<T: Individual + Clone> Simulation<T> {
    /// The cached fitness of the fittest candidate seen so far.
    fn current_best(&self) -> (r: u64)
        ensures
            r == self.best_fitness(),
    {
        match &self.fittest {
            Some(w) => w.fitness,
            None => MAX_FITNESS,
        }
    }

    /// Counts one more success for population `q`.
    fn credit(&mut self, q: usize)
        requires
            q < old(self).habitat@.len(),
        ensures
            final(self).habitat@.len() == old(self).habitat@.len(),
            forall|a: int|
                0 <= a < final(self).habitat@.len() ==> (#[trigger] final(self).habitat@[a]).population
                    == old(self).habitat@[a].population && final(self).habitat@[a].num_of_individuals
                    == old(self).habitat@[a].num_of_individuals,
            final(self).fittest == old(self).fittest,
            final(self).same_config(&*old(self)),
            final(self).original_fitness == old(self).original_fitness,
            final(self).improvement_factor == old(self).improvement_factor,
    {
        if self.habitat[q].fitness_counter < u64::MAX {
            self.habitat[q].fitness_counter = self.habitat[q].fitness_counter + 1;
        }
    }

    /// Runs one generation step in every population.
    fn step_all(&mut self) -> (r: Result<(), ()>)
        requires
            old(self).wf(),
        ensures
            final(self).wf(),
            final(self).same_shape(&*old(self)),
            final(self).same_config(&*old(self)),
            final(self).fittest == old(self).fittest,
            final(self).original_fitness == old(self).original_fitness,
            final(self).improvement_factor == old(self).improvement_factor,
            r is Err <==> T::crossover_supported() && !selector_fits(old(self).selector.count(), old(self).habitat@),
            forall|q: int| 0 <= q < final(self).habitat@.len() ==> intensities(#[trigger] final(self).habitat@[q].population@)
                == intensities(old(self).habitat@[q].population@),
            r is Ok ==> forall|q: int|
                0 <= q < final(self).habitat@.len() ==> fitness_sorted(
                    #[trigger] final(self).habitat@[q].population@,
                ),
    {
        let selector = self.selector;
        let mut q: usize = 0;
        while q < self.habitat.len()
            invariant
                self.wf(),
                self.same_shape(&*old(self)),
                self.same_config(&*old(self)),
                self.fittest == old(self).fittest,
                self.original_fitness == old(self).original_fitness,
                self.improvement_factor == old(self).improvement_factor,
                selector == self.selector,
                q <= self.habitat@.len(),
                forall|a: int| 0 <= a < self.habitat@.len() ==> intensities(#[trigger] self.habitat@[a].population@)
                    == intensities(old(self).habitat@[a].population@),
                forall|a: int| 0 <= a < q ==> fitness_sorted(#[trigger] self.habitat@[a].population@),
                forall|a: int|
                    0 <= a < q ==> !(T::crossover_supported() && !count_is_valid(
                        selector.count() as nat,
                        2 * (#[trigger] self.habitat@[a]).population@.len(),
                    )),
            decreases self.habitat@.len() - q,
        {
            let r = self.habitat[q].run_body(&selector);
            if r.is_err() {
                proof {
                    assert(!count_is_valid(selector.count() as nat, 2 * old(self).habitat@[q as int].population@.len()));
                }
                return Err(());
            }
            q = q + 1;
        }
        proof {
            if T::crossover_supported() && !selector_fits(old(self).selector.count(), old(self).habitat@) {
                let a = choose|a: int|
                    0 <= a < old(self).habitat@.len() && !count_is_valid(
                        old(self).selector.count() as nat,
                        2 * (#[trigger] old(self).habitat@[a]).population@.len(),
                    );
                assert(self.habitat@[a].population@.len() == old(self).habitat@[a].population@.len());
            }
        }
        Ok(())
    }

    /// Replaces the recorded fittest candidate with a better one, if any
    /// population holds one, and returns a copy of the recorded fittest.
    fn update_fittest(&mut self) -> (best: IndividualWrapper<T>)
        requires
            old(self).wf(),
            old(self).fittest is Some,
        ensures
            final(self).wf(),
            final(self).same_shape(&*old(self)),
            final(self).same_config(&*old(self)),
            final(self).original_fitness == old(self).original_fitness,
            final(self).improvement_factor == old(self).improvement_factor,
            final(self).fittest is Some,
            best.fitness == final(self).best_fitness(),
            final(self).best_fitness() <= old(self).best_fitness(),
            final(self).all_at_least(final(self).best_fitness()),
            Self::none_below(old(self).habitat@, final(self).best_fitness()),
            Self::comes_from(old(self).habitat@, final(self).best_fitness(), old(self).best_fitness()),
            forall|q: int|
                0 <= q < final(self).habitat@.len() ==> (#[trigger] final(self).habitat@[q]).population
                    == old(self).habitat@[q].population,
    {
        let bound = self.current_best();
        match self.find_fittest(bound) {
            Some((q, k)) => {
                let found = self.habitat[q].population[k].duplicate();
                self.fittest = Some(found);
                self.credit(q);
                assert(old(self).habitat@[q as int].population@[k as int].fitness == self.best_fitness());
                assert(self.all_at_least(self.best_fitness())) by {
                    assert forall|a: int, j: int|
                        0 <= a < self.habitat@.len() && 0 <= j < self.habitat@[a].population@.len()
                            implies self.best_fitness() <= #[trigger] self.fitness_at(a, j) by {
                        assert(old(self).fitness_at(a, j) == self.fitness_at(a, j));
                    }
                }
            },
            None => {},
        }
        proof {
            assert forall|q: int, k: int|
                0 <= q < old(self).habitat@.len() && 0 <= k < old(self).habitat@[q].population@.len() implies self.best_fitness()
                    <= #[trigger] old(self).habitat@[q].population@[k].fitness by {
                assert(self.habitat@[q].population == old(self).habitat@[q].population);
                assert(self.fitness_at(q, k) == old(self).habitat@[q].population@[k].fitness);
            }
        }
        match &self.fittest {
            Some(w) => w.duplicate(),
            None => {
                assert(false);
                self.habitat[0].population[0].duplicate()
            },
        }
    }

    /// Shares the overall fittest candidate with every slot but each
    /// population's last.
    fn propagate_global(&mut self)
        requires
            old(self).wf(),
            old(self).fittest is Some,
        ensures
            final(self).wf(),
            final(self).same_shape(&*old(self)),
            final(self).same_config(&*old(self)),
            final(self).original_fitness == old(self).original_fitness,
            final(self).fittest is Some,
            final(self).best_fitness() <= old(self).best_fitness(),
            final(self).all_at_least(final(self).best_fitness()),
            Self::none_below(old(self).habitat@, final(self).best_fitness()),
            Self::comes_from(old(self).habitat@, final(self).best_fitness(), old(self).best_fitness()),
            final(self).improvement_factor == improvement_of(final(self).best_fitness(), final(self).original_fitness),
            forall|q: int, s: int|
                0 <= q < final(self).habitat@.len() && 0 <= s < final(self).habitat@[q].population@.len() - 1
                    ==> #[trigger] final(self).fitness_at(q, s) == final(self).best_fitness() && cloned::<T>(
                    final(self).fittest->Some_0.individual,
                    final(self).habitat@[q].population@[s].individual,
                ),
            forall|q: int|
                0 <= q < final(self).habitat@.len() ==> (#[trigger] final(self).habitat@[q]).population@.last()
                    == old(self).habitat@[q].population@.last(),
            forall|q: int| 0 <= q < final(self).habitat@.len() ==> intensities(#[trigger] final(self).habitat@[q].population@)
                == intensities(old(self).habitat@[q].population@),
    {
        let best = self.update_fittest();
        let ghost updated = *self;
        let mut q: usize = 0;
        while q < self.habitat.len()
            invariant
                self.wf(),
                self.same_shape(&updated),
                self.same_config(&updated),
                self.fittest == updated.fittest,
                self.original_fitness == updated.original_fitness,
                self.improvement_factor == updated.improvement_factor,
                updated.all_at_least(best.fitness),
                best.fitness == updated.best_fitness(),
                q <= self.habitat@.len(),
                forall|a: int| q <= a < self.habitat@.len() ==> #[trigger] self.habitat@[a] == updated.habitat@[a],
                forall|a: int, s: int|
                    0 <= a < q && 0 <= s < self.habitat@[a].population@.len() - 1 ==> #[trigger] self.fitness_at(a, s)
                        == best.fitness,
                forall|a: int, s: int|
                    0 <= a < q && 0 <= s < self.habitat@[a].population@.len() ==> best.fitness
                        <= #[trigger] self.fitness_at(a, s),
                forall|a: int, s: int|
                    0 <= a < q && 0 <= s < self.habitat@[a].population@.len() - 1 ==> cloned::<T>(
                        best.individual,
                        #[trigger] self.habitat@[a].population@[s].individual,
                    ),
                forall|a: int|
                    0 <= a < self.habitat@.len() ==> (#[trigger] self.habitat@[a]).population@.last()
                        == updated.habitat@[a].population@.last() && intensities(self.habitat@[a].population@)
                        == intensities(updated.habitat@[a].population@),
            decreases self.habitat@.len() - q,
        {
            let ghost before = *self;
            self.habitat[q].spread(&best);
            proof {
                let p = self.habitat@[q as int];
                let len = p.population@.len();
                assert(p.population@[len - 1] == updated.habitat@[q as int].population@[len - 1]);
                assert(updated.fitness_at(q as int, len - 1) >= best.fitness);
                assert forall|a: int| 0 <= a < self.habitat@.len() && a != q implies #[trigger] self.habitat@[a]
                    == before.habitat@[a] by {}
                assert forall|a: int, s: int|
                    0 <= a < q + 1 && 0 <= s < self.habitat@[a].population@.len() - 1 implies cloned::<T>(
                    best.individual,
                    #[trigger] self.habitat@[a].population@[s].individual,
                ) by {
                    if a != q {
                        assert(self.habitat@[a] == before.habitat@[a]);
                    }
                }
                assert forall|a: int, s: int|
                    0 <= a < q + 1 && 0 <= s < self.habitat@[a].population@.len() implies best.fitness
                        <= #[trigger] self.fitness_at(a, s) && (s < self.habitat@[a].population@.len() - 1
                        ==> self.fitness_at(a, s) == best.fitness) by {
                    if a == q {
                        if s == len - 1 {
                            assert(self.fitness_at(a, s) == updated.fitness_at(a, s));
                        } else {
                            assert(self.habitat@[a].population@[s].fitness == best.fitness);
                        }
                    } else {
                        assert(self.habitat@[a] == before.habitat@[a]);
                        assert(before.fitness_at(a, s) == self.fitness_at(a, s));
                    }
                }
            }
            q = q + 1;
        }
        let ghost spread = *self;
        let fitness = best.fitness;
        self.fittest = Some(best);
        self.improvement_factor = Factor { numerator: fitness, denominator: self.original_fitness };
        proof {
            assert forall|a: int, s: int|
                0 <= a < self.habitat@.len() && 0 <= s < self.habitat@[a].population@.len() implies self.best_fitness()
                    <= #[trigger] self.fitness_at(a, s) && (s < self.habitat@[a].population@.len() - 1
                    ==> self.fitness_at(a, s) == self.best_fitness()) by {
                assert(spread.fitness_at(a, s) == self.fitness_at(a, s));
            }
            assert forall|a: int, s: int|
                0 <= a < self.habitat@.len() && 0 <= s < self.habitat@[a].population@.len() - 1 implies cloned::<T>(
                self.fittest->Some_0.individual,
                #[trigger] self.habitat@[a].population@[s].individual,
            ) by {
                assert(spread.habitat@[a].population@[s] == self.habitat@[a].population@[s]);
            }
        }
    }

    /// Shares each population's own fittest candidate with its slots but the
    /// last, and records the best of them if it beats the recorded fittest.
    fn propagate_local(&mut self)
        requires
            old(self).wf(),
            old(self).fittest is Some,
        ensures
            final(self).wf(),
            final(self).same_shape(&*old(self)),
            final(self).same_config(&*old(self)),
            final(self).original_fitness == old(self).original_fitness,
            final(self).fittest is Some,
            final(self).best_fitness() <= old(self).best_fitness(),
            final(self).all_at_least(final(self).best_fitness()),
            Self::none_below(old(self).habitat@, final(self).best_fitness()),
            Self::comes_from(old(self).habitat@, final(self).best_fitness(), old(self).best_fitness()),
            final(self).improvement_factor == improvement_of(final(self).best_fitness(), final(self).original_fitness),
            forall|q: int| 0 <= q < final(self).habitat@.len() ==> intensities(#[trigger] final(self).habitat@[q].population@)
                == intensities(old(self).habitat@[q].population@),
            forall|q: int, s: int|
                0 <= q < final(self).habitat@.len() && 0 <= s < final(self).habitat@[q].population@.len() ==> {
                    &&& #[trigger] final(self).fitness_at(q, s) >= final(self).fitness_at(q, 0)
                    &&& s < final(self).habitat@[q].population@.len() - 1 ==> final(self).fitness_at(q, s)
                        == final(self).fitness_at(q, 0)
                },
    {
        let ghost start = *self;
        let mut q: usize = 0;
        while q < self.habitat.len()
            invariant
                self.wf(),
                self.same_shape(&start),
                self.same_config(&start),
                self.original_fitness == start.original_fitness,
                self.fittest is Some,
                self.best_fitness() <= start.best_fitness(),
                q <= self.habitat@.len(),
                forall|a: int| q <= a < self.habitat@.len() ==> (#[trigger] self.habitat@[a]).population
                    == start.habitat@[a].population,
                forall|a: int| 0 <= a < self.habitat@.len() ==> intensities(#[trigger] self.habitat@[a].population@)
                    == intensities(start.habitat@[a].population@),
                forall|a: int, s: int|
                    0 <= a < q && 0 <= s < start.habitat@[a].population@.len() ==> self.best_fitness()
                        <= #[trigger] start.habitat@[a].population@[s].fitness,
                Self::comes_from(start.habitat@, self.best_fitness(), start.best_fitness()),
                forall|a: int, s: int|
                    0 <= a < q && 0 <= s < self.habitat@[a].population@.len() ==> self.best_fitness()
                        <= #[trigger] self.fitness_at(a, s),
                forall|a: int, s: int|
                    0 <= a < q && 0 <= s < self.habitat@[a].population@.len() ==> {
                        &&& #[trigger] self.fitness_at(a, s) >= self.fitness_at(a, 0)
                        &&& s < self.habitat@[a].population@.len() - 1 ==> self.fitness_at(a, s)
                            == self.fitness_at(a, 0)
                    },
            decreases self.habitat@.len() - q,
        {
            let k = self.habitat[q].best_slot();
            let candidate = self.habitat[q].population[k].duplicate();
            let cur = self.current_best();
            let ghost before = *self;
            if candidate.fitness < cur {
                self.fittest = Some(candidate.duplicate());
                self.credit(q);
            }
            proof {
                assert(before.habitat@[q as int].population == start.habitat@[q as int].population);
                if candidate.fitness < cur {
                    assert(start.habitat@[q as int].population@[k as int].fitness == self.best_fitness());
                }
                assert forall|a: int, s: int|
                    0 <= a < q + 1 && 0 <= s < start.habitat@[a].population@.len() implies self.best_fitness()
                        <= #[trigger] start.habitat@[a].population@[s].fitness by {
                    if a == q {
                        assert(before.habitat@[a].population@[s].fitness == start.habitat@[a].population@[s].fitness);
                    }
                }
            }
            let ghost credited = *self;
            assert(forall|a: int, s: int|
                0 <= a < q && 0 <= s < self.habitat@[a].population@.len() ==> self.best_fitness()
                    <= #[trigger] self.fitness_at(a, s)) by {
                assert forall|a: int, s: int|
                    0 <= a < q && 0 <= s < self.habitat@[a].population@.len() implies self.best_fitness()
                        <= #[trigger] self.fitness_at(a, s) by {
                    assert(before.fitness_at(a, s) == self.fitness_at(a, s));
                }
            }
            self.habitat[q].spread(&candidate);
            proof {
                let len = self.habitat@[q as int].population@.len();
                assert forall|a: int| 0 <= a < self.habitat@.len() && a != q implies #[trigger] self.habitat@[a]
                    == credited.habitat@[a] by {}
                assert forall|a: int, s: int|
                    0 <= a < q + 1 && 0 <= s < self.habitat@[a].population@.len() implies self.best_fitness()
                        <= #[trigger] self.fitness_at(a, s) by {
                    if a == q {
                        if s == len - 1 {
                            assert(self.fitness_at(a, s) == credited.fitness_at(a, s));
                            assert(credited.fitness_at(a, s) == before.fitness_at(a, s));
                            assert(before.habitat@[a].population@[k as int].fitness <= before.fitness_at(a, s));
                        } else {
                            assert(self.habitat@[a].population@[s].fitness == candidate.fitness);
                        }
                    } else {
                        assert(credited.fitness_at(a, s) == self.fitness_at(a, s));
                    }
                }
                assert forall|a: int, s: int|
                    0 <= a < q + 1 && 0 <= s < self.habitat@[a].population@.len() implies {
                        &&& #[trigger] self.fitness_at(a, s) >= self.fitness_at(a, 0)
                        &&& s < self.habitat@[a].population@.len() - 1 ==> self.fitness_at(a, s)
                            == self.fitness_at(a, 0)
                    } by {
                    if a == q {
                        if len > 1 {
                            assert(self.habitat@[a].population@[0].fitness == candidate.fitness);
                        }
                        if s == len - 1 {
                            assert(self.fitness_at(a, s) == credited.fitness_at(a, s));
                            assert(credited.fitness_at(a, s) == before.fitness_at(a, s));
                            assert(before.habitat@[a].population@[k as int].fitness <= before.fitness_at(a, s));
                        } else {
                            assert(self.habitat@[a].population@[s].fitness == candidate.fitness);
                        }
                    } else {
                        assert(credited.habitat@[a].population == before.habitat@[a].population);
                        assert(credited.fitness_at(a, s) == self.fitness_at(a, s));
                        assert(credited.fitness_at(a, 0) == self.fitness_at(a, 0));
                        assert(before.fitness_at(a, s) == credited.fitness_at(a, s));
                        assert(before.fitness_at(a, 0) == credited.fitness_at(a, 0));
                    }
                }
            }
            q = q + 1;
        }
        let best = self.current_best();
        let ghost spread = *self;
        self.improvement_factor = Factor { numerator: best, denominator: self.original_fitness };
        proof {
            assert forall|a: int, s: int|
                0 <= a < self.habitat@.len() && 0 <= s < self.habitat@[a].population@.len() implies self.best_fitness()
                    <= #[trigger] self.fitness_at(a, s) && self.fitness_at(a, s) >= self.fitness_at(a, 0) && (s
                    < self.habitat@[a].population@.len() - 1 ==> self.fitness_at(a, s) == self.fitness_at(a, 0)) by {
                assert(spread.fitness_at(a, s) == self.fitness_at(a, s));
                assert(spread.fitness_at(a, 0) == self.fitness_at(a, 0));
            }
        }
    }

    /// Copies the overall fittest candidate into one slot, drawn uniformly
    /// from all slots of all populations.
    fn propagate_random(&mut self)
        requires
            old(self).wf(),
            old(self).fittest is Some,
        ensures
            final(self).wf(),
            final(self).same_shape(&*old(self)),
            final(self).same_config(&*old(self)),
            final(self).original_fitness == old(self).original_fitness,
            final(self).fittest is Some,
            final(self).best_fitness() <= old(self).best_fitness(),
            final(self).all_at_least(final(self).best_fitness()),
            Self::none_below(old(self).habitat@, final(self).best_fitness()),
            Self::comes_from(old(self).habitat@, final(self).best_fitness(), old(self).best_fitness()),
            final(self).improvement_factor == improvement_of(final(self).best_fitness(), final(self).original_fitness),
            forall|q: int| 0 <= q < final(self).habitat@.len() ==> intensities(#[trigger] final(self).habitat@[q].population@)
                == intensities(old(self).habitat@[q].population@),
            exists|draw: int| #[trigger] Self::placed_only_at(
                old(self).habitat@,
                final(self).habitat@,
                final(self).best_fitness(),
                draw,
            ),
    {
        let best = self.update_fittest();
        let ghost updated = *self;
        let mut total: u64 = 0;
        let mut q: usize = 0;
        while q < self.habitat.len()
            invariant
                *self == updated,
                self.wf(),
                q <= self.habitat@.len(),
                total == slots_before(self.habitat@, q as int),
            decreases self.habitat@.len() - q,
        {
            proof {
                assert forall|a: int| 0 <= a < self.habitat@.len() implies (#[trigger] self.habitat@[a]).population@.len()
                    <= u32::MAX by {
                    assert(self.habitat@[a].wf());
                }
                lemma_slots_before(self.habitat@, q as int);
                assert(q * u32::MAX + u32::MAX <= u32::MAX * u32::MAX + u32::MAX) by (nonlinear_arith)
                    requires
                        q < u32::MAX,
                ;
            }
            total = total + self.habitat[q].population.len() as u64;
            q = q + 1;
        }
        proof {
            assert(self.habitat@[0].population@.len() >= 1);
            assert forall|a: int| 0 <= a < self.habitat@.len() implies (#[trigger] self.habitat@[a]).population@.len()
                <= u32::MAX by {
                assert(self.habitat@[a].wf());
            }
            lemma_slots_before(self.habitat@, self.habitat@.len() as int);
            assert(slots_before(self.habitat@, 0) == 0);
            assert(slots_before(self.habitat@, 1) >= 1);
        }
        let r = random_below(total);
        self.place_fittest_at(r);
        proof {
            lemma_slots_same_sizes(updated.habitat@, old(self).habitat@);
        }
        let ghost placed = *self;
        self.improvement_factor = Factor { numerator: best.fitness, denominator: self.original_fitness };
        proof {
            assert forall|a: int, s: int|
                0 <= a < self.habitat@.len() && 0 <= s < self.habitat@[a].population@.len() implies self.best_fitness()
                    <= #[trigger] self.fitness_at(a, s) by {
                assert(placed.fitness_at(a, s) == self.fitness_at(a, s));
                if slots_before(updated.habitat@, a) + s != r {
                    assert(updated.fitness_at(a, s) == placed.fitness_at(a, s));
                }
            }
            assert forall|q: int, t: int|
                #![trigger self.habitat@[q].population@[t]]
                0 <= q < self.habitat@.len() && 0 <= t < self.habitat@[q].population@.len() implies {
                    &&& slots_before(old(self).habitat@, q) + t == r ==> self.habitat@[q].population@[t].fitness
                        == self.best_fitness()
                    &&& slots_before(old(self).habitat@, q) + t != r ==> self.habitat@[q].population@[t]
                        == old(self).habitat@[q].population@[t]
                } by {
                assert(placed.habitat@[q].population@[t] == self.habitat@[q].population@[t]);
                assert(updated.habitat@[q].population == old(self).habitat@[q].population);
            }
    assert(Self::placed_only_at(old(self).habitat@, self.habitat@, self.best_fitness(), r as int));
        }
    }

    /// Copies the recorded fittest candidate into the slot whose position,
    /// counting all slots of all populations in order, is `draw`. Every other
    /// slot is left alone.
    pub fn place_fittest_at(&mut self, draw: u64)
        requires
            old(self).wf(),
            old(self).fittest is Some,
            draw < slots_before(old(self).habitat@, old(self).habitat@.len() as int),
        ensures
            final(self).wf(),
            final(self).same_shape(&*old(self)),
            final(self).same_config(&*old(self)),
            final(self).original_fitness == old(self).original_fitness,
            final(self).improvement_factor == old(self).improvement_factor,
            final(self).fittest == old(self).fittest,
            forall|q: int| 0 <= q < final(self).habitat@.len() ==> intensities(#[trigger] final(self).habitat@[q].population@)
                == intensities(old(self).habitat@[q].population@),
            forall|q: int, s: int|
                #![trigger final(self).habitat@[q].population@[s]]
                0 <= q < final(self).habitat@.len() && 0 <= s < final(self).habitat@[q].population@.len() ==> {
                    &&& slots_before(old(self).habitat@, q) + s == draw ==> {
                        &&& final(self).habitat@[q].population@[s].fitness == final(self).best_fitness()
                        &&& cloned::<T>(
                            final(self).fittest->Some_0.individual,
                            final(self).habitat@[q].population@[s].individual,
                        )
                    }
                    &&& slots_before(old(self).habitat@, q) + s != draw ==> final(self).habitat@[q].population@[s]
                        == old(self).habitat@[q].population@[s]
                },
    {
        proof {
            assert forall|a: int| 0 <= a < self.habitat@.len() implies (#[trigger] self.habitat@[a]).population@.len()
                <= u32::MAX by {
                assert(self.habitat@[a].wf());
            }
            assert(slots_before(self.habitat@, 0) == 0);
        }
        let mut q: usize = 0;
        let mut rem: u64 = draw;
        while rem >= self.habitat[q].population.len() as u64
            invariant
                *self == *old(self),
                self.wf(),
                q < self.habitat@.len(),
                rem == draw - slots_before(self.habitat@, q as int),
                draw < slots_before(self.habitat@, self.habitat@.len() as int),
                forall|a: int| 0 <= a < self.habitat@.len() ==> (#[trigger] self.habitat@[a]).population@.len() <= u32::MAX,
            decreases self.habitat@.len() - q,
        {
            rem = rem - self.habitat[q].population.len() as u64;
            q = q + 1;
            proof {
                if q == self.habitat@.len() {
                    assert(false);
                }
            }
        }
        let slot = rem as usize;
        let copy = match &self.fittest {
            Some(w) => w.individual.clone(),
            None => {
                assert(false);
                self.habitat[0].population[0].individual.clone()
            },
        };
        let fitness = self.current_best();
        self.habitat[q].population[slot].individual = copy;
        self.habitat[q].population[slot].fitness = fitness;
        proof {
            let h = old(self).habitat@;
            assert(self.habitat@[q as int].population@.len() == h[q as int].population@.len());
            assert forall|a: int| 0 <= a < self.habitat@.len() implies (#[trigger] self.habitat@[a]).wf()
                && self.habitat@[a].population@.len() >= 1 by {
                assert(h[a].wf());
            }
            assert forall|a: int| 0 <= a < self.habitat@.len() implies intensities(#[trigger] self.habitat@[a].population@)
                == intensities(h[a].population@) by {
                assert(intensities(self.habitat@[a].population@) =~= intensities(h[a].population@));
            }
            assert forall|a: int, t: int|
                #![trigger self.habitat@[a].population@[t]]
                0 <= a < self.habitat@.len() && 0 <= t < self.habitat@[a].population@.len()
                    && slots_before(h, a) + t == draw implies a == q && t == slot by {
                assert forall|b: int| 0 <= b < h.len() implies (#[trigger] h[b]).population@.len() <= u32::MAX by {
                    assert(h[b].wf());
                }
                if a < q {
                    lemma_slots_before(h, q as int);
                    assert(slots_before(h, a + 1) == slots_before(h, a) + h[a].population@.len());
                    assert(slots_before(h, a + 1) <= slots_before(h, q as int));
                } else if a > q {
                    lemma_slots_before(h, a);
                    assert(slots_before(h, q as int + 1) == slots_before(h, q as int) + h[q as int].population@.len());
                    assert(slots_before(h, q as int + 1) <= slots_before(h, a));
                }
            }
        }
    }

    /// Whether the run is over after `counter` generations.
    fn is_finished(&self, counter: u32) -> (r: bool)
        ensures
            r == self.finished(counter),
    {
        if counter == u32::MAX {
            return true;
        }
        match self.type_of_simulation {
            SimulationType::EndIteration(n) => counter >= n,
            SimulationType::EndFittness(target) => self.current_best() <= target,
            SimulationType::EndFactor(target) => self.improvement_factor.at_most(&target),
        }
    }

    /// One generation of a started run: every population takes a generation
    /// step, then the fittest candidate is shared as `type_of_fittest` says.
    /// The recorded fittest never gets worse, and afterwards no candidate is
    /// fitter than it. Fails, with the fittest and the improvement factor
    /// unchanged, when a population's step fails.
    pub fn run_generation(&mut self) -> (r: Result<(), ()>)
        requires
            old(self).wf(),
            old(self).fittest is Some,
        ensures
            final(self).wf(),
            final(self).same_shape(&*old(self)),
            final(self).same_settings(&*old(self)),
            final(self).history == old(self).history,
            final(self).evolved == old(self).evolved,
            final(self).original_fitness == old(self).original_fitness,
            final(self).fittest is Some,
            final(self).best_fitness() <= old(self).best_fitness(),
            r is Ok ==> final(self).all_at_least(final(self).best_fitness()),
            r is Ok ==> final(self).improvement_factor == improvement_of(
                final(self).best_fitness(),
                final(self).original_fitness,
            ),
            r is Err ==> final(self).fittest == old(self).fittest && final(self).improvement_factor
                == old(self).improvement_factor,
            r is Err <==> T::crossover_supported() && !selector_fits(old(self).selector.count(), old(self).habitat@),
            r is Ok && final(self).type_of_fittest == FittestType::GlobalFittest ==> forall|q: int, s: int|
                0 <= q < final(self).habitat@.len() && 0 <= s < final(self).habitat@[q].population@.len() - 1
                    ==> #[trigger] final(self).fitness_at(q, s) == final(self).best_fitness() && cloned::<T>(
                    final(self).fittest->Some_0.individual,
                    final(self).habitat@[q].population@[s].individual,
                ),
            forall|q: int| 0 <= q < final(self).habitat@.len() ==> intensities(#[trigger] final(self).habitat@[q].population@)
                == intensities(old(self).habitat@[q].population@),
            r is Ok && final(self).type_of_fittest == FittestType::LocalFittest ==> forall|q: int, s: int|
                0 <= q < final(self).habitat@.len() && 0 <= s < final(self).habitat@[q].population@.len() ==> {
                    &&& #[trigger] final(self).fitness_at(q, s) >= final(self).fitness_at(q, 0)
                    &&& s < final(self).habitat@[q].population@.len() - 1 ==> final(self).fitness_at(q, s)
                        == final(self).fitness_at(q, 0)
                },
            r is Ok ==> {
                &&& final(self).stepped@.len() == final(self).habitat@.len()
                &&& forall|q: int|
                    0 <= q < final(self).habitat@.len() ==> {
                        &&& (#[trigger] final(self).stepped@[q]).population@.len()
                            == final(self).habitat@[q].population@.len()
                        &&& fitness_sorted(final(self).stepped@[q].population@)
                        &&& intensities(final(self).stepped@[q].population@) == intensities(
                            old(self).habitat@[q].population@,
                        )
                    }
                &&& Self::none_below(final(self).stepped@, final(self).best_fitness())
                &&& Self::comes_from(final(self).stepped@, final(self).best_fitness(), old(self).best_fitness())
            },
            r is Ok && final(self).type_of_fittest == FittestType::GlobalFittest ==> forall|q: int|
                0 <= q < final(self).habitat@.len() ==> (#[trigger] final(self).habitat@[q]).population@.last()
                    == final(self).stepped@[q].population@.last(),
            r is Ok && final(self).type_of_fittest == FittestType::RandomFittest ==> exists|draw: int|
                #[trigger] Self::placed_only_at(final(self).stepped@, final(self).habitat@, final(self).best_fitness(), draw),
    {
        let stepped = self.step_all();
        if stepped.is_err() {
            return Err(());
        }
        let ghost after_step = self.habitat@;
        self.stepped = Ghost(after_step);
        match self.type_of_fittest {
            FittestType::GlobalFittest => self.propagate_global(),
            FittestType::LocalFittest => self.propagate_local(),
            FittestType::RandomFittest => self.propagate_random(),
        }
        Ok(())
    }

    /// Runs generations until the termination policy is met (or the
    /// generation counter is exhausted), then sorts every population by
    /// fitness and records the elapsed time and the number of generations.
    /// The baseline fitness is that of the first candidate of the first
    /// population, scored before any mutation; the fittest candidate starts
    /// as that candidate.
    pub fn run(&mut self) -> (r: Result<(), ()>)
        requires
            old(self).wf(),
        ensures
            final(self).wf(),
            final(self).same_shape(&*old(self)),
            final(self).same_settings(&*old(self)),
            final(self).fittest is Some,
            final(self).best_fitness() <= old(self).habitat@[0].population@[0].fitness,
            final(self).improvement_factor == improvement_of(
                final(self).best_fitness(),
                final(self).original_fitness,
            ),
            r is Err ==> T::crossover_supported() && !selector_fits(old(self).selector.count(), old(self).habitat@),
            !T::crossover_supported() || selector_fits(old(self).selector.count(), old(self).habitat@) ==> r is Ok,
            r is Ok ==> final(self).finished(final(self).iteration_counter),
            final(self).history@.len() == final(self).iteration_counter + 1,
            final(self).history@.last() == (final(self).best_fitness(), final(self).improvement_factor),
            forall|j: int|
                0 <= j < final(self).iteration_counter ==> !final(self).goal_met(
                    j,
                    #[trigger] final(self).history@[j].0,
                    final(self).history@[j].1,
                ),
            forall|j: int|
                0 <= j < final(self).iteration_counter ==> #[trigger] final(self).history@[j + 1].0
                    <= final(self).history@[j].0,
            exists|start_ns: u64, end_ns: u64| final(self).total_time_in_ms == elapsed_ms_of(start_ns, end_ns),
            forall|q: int|
                0 <= q < final(self).habitat@.len() ==> fitness_sorted(
                    #[trigger] final(self).habitat@[q].population@,
                ),
            r is Ok ==> (final(self).type_of_simulation matches SimulationType::EndIteration(n)
                ==> final(self).iteration_counter == n),
            final(self).evolved@.len() == final(self).habitat@.len(),
            forall|q: int|
                0 <= q < final(self).habitat@.len() ==> (#[trigger] final(self).habitat@[q]).population@.to_multiset()
                    == final(self).evolved@[q].population@.to_multiset() && final(self).habitat@[q].population@.len()
                    == final(self).evolved@[q].population@.len(),
    {
        let start_ns = precise_time_ns();
        let baseline = self.habitat[0].population[0].individual.calculate_fitness();
        self.original_fitness = baseline;
        self.fittest = Some(self.habitat[0].population[0].duplicate());
        let first = self.current_best();
        self.improvement_factor = Factor { numerator: first, denominator: baseline };
        let ghost start_record = seq![(self.best_fitness(), self.improvement_factor)];
        self.history = Ghost(start_record);
        let ghost begun = *self;
        let mut counter: u32 = 0;
        let mut failed = false;
        while !failed && !self.is_finished(counter)
            invariant
                self.wf(),
                self.same_shape(&begun),
                self.same_settings(&begun),
                self.original_fitness == baseline,
                self.history@.len() == counter + 1,
                self.history@.last() == (self.best_fitness(), self.improvement_factor),
                forall|j: int|
                    0 <= j < counter ==> !self.goal_met(j, #[trigger] self.history@[j].0, self.history@[j].1),
                forall|j: int| 0 <= j < counter ==> #[trigger] self.history@[j + 1].0 <= self.history@[j].0,
                self.fittest is Some,
                self.best_fitness() <= first,
                first == old(self).habitat@[0].population@[0].fitness,
                self.improvement_factor == improvement_of(self.best_fitness(), baseline),
                self.type_of_simulation matches SimulationType::EndIteration(n) ==> counter <= n,
                failed ==> T::crossover_supported() && !selector_fits(begun.selector.count(), begun.habitat@),
            decreases u32::MAX - counter, if failed { 0int } else { 1int },
        {
            let ghost before = *self;
            let generation = self.run_generation();
            if generation.is_err() {
                proof {
                    let a = choose|a: int|
                        0 <= a < before.habitat@.len() && !count_is_valid(
                            before.selector.count() as nat,
                            2 * (#[trigger] before.habitat@[a]).population@.len(),
                        );
                    assert(before.habitat@[a].population@.len() == begun.habitat@[a].population@.len());
                }
                failed = true;
            } else {
                proof {
                    assert(!before.goal_met(counter as int, before.best_fitness(), before.improvement_factor));
                }
                let ghost record = self.history@.push((self.best_fitness(), self.improvement_factor));
                self.history = Ghost(record);
                counter = counter + 1;
                proof {
                    assert forall|j: int| 0 <= j < counter implies !self.goal_met(
                        j,
                        #[trigger] self.history@[j].0,
                        self.history@[j].1,
                    ) by {
                        assert(self.history@[j] == before.history@[j]);
                    }
                    assert forall|j: int| 0 <= j < counter implies #[trigger] self.history@[j + 1].0
                        <= self.history@[j].0 by {
                        if j < counter - 1 {
                            assert(self.history@[j + 1] == before.history@[j + 1]);
                        }
                        assert(self.history@[j] == before.history@[j]);
                    }
                }
            }
        }
        let ghost before_sort = self.habitat@;
        self.evolved = Ghost(before_sort);
        let ghost evolved = *self;
        let mut q: usize = 0;
        while q < self.habitat.len()
            invariant
                self.wf(),
                self.same_shape(&evolved),
                self.same_config(&evolved),
                self.original_fitness == evolved.original_fitness,
                self.fittest == evolved.fittest,
                self.improvement_factor == evolved.improvement_factor,
                q <= self.habitat@.len(),
                forall|a: int| 0 <= a < q ==> fitness_sorted(#[trigger] self.habitat@[a].population@),
                forall|a: int|
                    0 <= a < self.habitat@.len() ==> (#[trigger] self.habitat@[a]).population@.to_multiset()
                        == evolved.habitat@[a].population@.to_multiset(),
            decreases self.habitat@.len() - q,
        {
            sort_by_fitness(&mut self.habitat[q].population);
            q = q + 1;
        }
        let end_ns = precise_time_ns();
        self.total_time_in_ms = elapsed_ms(start_ns, end_ns);
        self.iteration_counter = counter;
        assert(self.total_time_in_ms == elapsed_ms_of(start_ns, end_ns));
        if failed {
            Err(())
        } else {
            Ok(())
        }
    }
}

} // verus!
