//! Assembling and validating a simulation before it runs.
use vstd::prelude::*;

use crate::individual::{IndividualWrapper, MAX_FITNESS};
use crate::population::{fresh_wrappers, same_candidate, Population};
use crate::select::{count_is_valid, MaximizeSelector};
use crate::simulation::{selector_fits, Factor, FittestType, Simulation, SimulationType};

verus! {

/// The outcome of validating a configuration.
pub enum BuilderResult<T> {
    /// Iteration-bounded termination with fewer than 10 generations.
    LowIterration,
    /// No population, or one with fewer than 3 candidates.
    LowIndividuals,
    /// The selector's parent count does not suit some population: it must be
    /// positive, even and below that population's size.
    InvalidSelector,
    /// A simulation ready to run.
    Ready(Simulation<T>),
}

/// Whether every population is large enough to be evolved.
pub open spec fn populations_large_enough<T>(habitat: Seq<Population<T>>) -> bool {
    habitat.len() >= 1 && forall|q: int| 0 <= q < habitat.len() ==> (#[trigger] habitat[q]).population@.len() >= 3
}

/// Whether the run asks for too few generations.
pub open spec fn iterations_too_low(t: SimulationType) -> bool {
    t matches SimulationType::EndIteration(n) && n < 10
}

/// Collects the configuration of a simulation.
pub struct SimulationBuilder<T> {
    simulation: Simulation<T>,
    num_of_individuals: u32,
}

impl<T> SimulationBuilder<T> {
    /// The simulation being assembled.
    pub closed spec fn sim(&self) -> Simulation<T> {
        self.simulation
    }

    /// How many copies `one_individual` adds.
    pub closed spec fn size(&self) -> u32 {
        self.num_of_individuals
    }

    /// Every population added so far holds its target number of candidates.
    pub open spec fn wf(&self) -> bool {
        &&& self.sim().habitat@.len() <= u32::MAX
        &&& forall|q: int| 0 <= q < self.sim().habitat@.len() ==> (#[trigger] self.sim().habitat@[q]).wf()
    }

    /// The same configuration as `other`, but for the policies and sizes that
    /// a setter changes.
    pub open spec fn same_populations(&self, other: &Self) -> bool {
        self.sim().habitat == other.sim().habitat
    }

    /// Defaults: 10 generations, 10 candidates per added population, 2
    /// threads, global propagation, new-fittest notices on, and a selector
    /// that picks 2 parents.
    pub fn new() -> (r: SimulationBuilder<T>)
        ensures
            r.wf(),
            r.sim().type_of_simulation == SimulationType::EndIteration(10),
            r.sim().type_of_fittest == FittestType::GlobalFittest,
            r.sim().num_of_threads == 2,
            r.sim().output_new_fittest,
            r.sim().habitat@.len() == 0,
            r.sim().fittest is None,
            r.sim().selector.count() == 2,
            r.sim().original_fitness == MAX_FITNESS,
            r.sim().improvement_factor == (Factor { numerator: MAX_FITNESS, denominator: 1 }),
            r.sim().iteration_counter == 0,
            r.sim().total_time_in_ms == 0,
            r.size() == 10,
    {
        SimulationBuilder {
            simulation: Simulation {
                type_of_simulation: SimulationType::EndIteration(10),
                type_of_fittest: FittestType::GlobalFittest,
                num_of_threads: 2,
                improvement_factor: Factor { numerator: MAX_FITNESS, denominator: 1 },
                original_fitness: MAX_FITNESS,
                habitat: Vec::new(),
                fittest: None,
                total_time_in_ms: 0,
                iteration_counter: 0,
                output_new_fittest: true,
                selector: MaximizeSelector::new(2),
                history: Ghost(Seq::empty()),
                stepped: Ghost(Seq::empty()),
                evolved: Ghost(Seq::empty()),
            },
            num_of_individuals: 10,
        }
    }

    /// Run exactly `iterations` generations.
    pub fn iterations(self, iterations: u32) -> (r: SimulationBuilder<T>)
        ensures
            r.sim() == (Simulation { type_of_simulation: SimulationType::EndIteration(iterations), ..self.sim() }),
            r.size() == self.size(),
    {
        let mut b = self;
        b.simulation.type_of_simulation = SimulationType::EndIteration(iterations);
        b
    }

    /// Run until the improvement factor is at most `factor`.
    pub fn factor(self, factor: Factor) -> (r: SimulationBuilder<T>)
        ensures
            r.sim() == (Simulation { type_of_simulation: SimulationType::EndFactor(factor), ..self.sim() }),
            r.size() == self.size(),
    {
        let mut b = self;
        b.simulation.type_of_simulation = SimulationType::EndFactor(factor);
        b
    }

    /// Run until the best fitness is at most `fittness`.
    pub fn fittness(self, fittness: u64) -> (r: SimulationBuilder<T>)
        ensures
            r.sim() == (Simulation { type_of_simulation: SimulationType::EndFittness(fittness), ..self.sim() }),
            r.size() == self.size(),
    {
        let mut b = self;
        b.simulation.type_of_simulation = SimulationType::EndFittness(fittness);
        b
    }

    /// The number of copies that `one_individual` adds.
    pub fn individuals(self, individuals: u32) -> (r: SimulationBuilder<T>)
        ensures
            r.sim() == self.sim(),
            r.size() == individuals,
    {
        let mut b = self;
        b.num_of_individuals = individuals;
        b
    }

    /// The number of worker threads asked for. Populations are stepped one
    /// after another, so this is recorded for reporting only.
    pub fn threads(self, threads: usize) -> (r: SimulationBuilder<T>)
        ensures
            r.sim() == (Simulation { num_of_threads: threads, ..self.sim() }),
            r.size() == self.size(),
    {
        let mut b = self;
        b.simulation.num_of_threads = threads;
        b
    }

    /// Whether each new fittest candidate is announced.
    pub fn output_new_fittest(self, output_new_fittest: bool) -> (r: SimulationBuilder<T>)
        ensures
            r.sim() == (Simulation { output_new_fittest, ..self.sim() }),
            r.size() == self.size(),
    {
        let mut b = self;
        b.simulation.output_new_fittest = output_new_fittest;
        b
    }

    /// Share the overall fittest with every slot but each population's last.
    pub fn global_fittest(self) -> (r: SimulationBuilder<T>)
        ensures
            r.sim() == (Simulation { type_of_fittest: FittestType::GlobalFittest, ..self.sim() }),
            r.size() == self.size(),
    {
        let mut b = self;
        b.simulation.type_of_fittest = FittestType::GlobalFittest;
        b
    }

    /// Share each population's own fittest within that population.
    pub fn local_fittest(self) -> (r: SimulationBuilder<T>)
        ensures
            r.sim() == (Simulation { type_of_fittest: FittestType::LocalFittest, ..self.sim() }),
            r.size() == self.size(),
    {
        let mut b = self;
        b.simulation.type_of_fittest = FittestType::LocalFittest;
        b
    }

    /// Copy the overall fittest into one random slot.
    pub fn random_fittest(self) -> (r: SimulationBuilder<T>)
        ensures
            r.sim() == (Simulation { type_of_fittest: FittestType::RandomFittest, ..self.sim() }),
            r.size() == self.size(),
    {
        let mut b = self;
        b.simulation.type_of_fittest = FittestType::RandomFittest;
        b
    }

    /// The number of parents picked for crossover.
    pub fn selector(self, count: usize) -> (r: SimulationBuilder<T>)
        ensures
            r.sim() == (Simulation { selector: r.sim().selector, ..self.sim() }),
            r.sim().selector.count() == count,
            r.size() == self.size(),
    {
        let mut b = self;
        b.simulation.selector = MaximizeSelector::new(count);
        b
    }

    /// Adds `population`, whatever its id.
    pub fn add_population(self, population: Population<T>) -> (r: SimulationBuilder<T>)
        requires
            self.wf(),
            population.wf(),
            self.sim().habitat@.len() < u32::MAX,
        ensures
            r.wf(),
            r.sim() == (Simulation { habitat: r.sim().habitat, ..self.sim() }),
            r.sim().habitat@ == self.sim().habitat@.push(population),
            r.size() == self.size(),
    {
        let mut b = self;
        b.simulation.habitat.push(population);
        b
    }

    /// Adds a population made of `initial_population`, each candidate mutated
    /// once per generation.
    pub fn initial_population(self, initial_population: Vec<T>) -> (r: SimulationBuilder<T>)
        requires
            self.wf(),
            initial_population.len() <= u32::MAX,
            self.sim().habitat@.len() < u32::MAX,
        ensures
            r.wf(),
            r.sim() == (Simulation { habitat: r.sim().habitat, ..self.sim() }),
            r.sim().habitat@.len() == self.sim().habitat@.len() + 1,
            r.sim().habitat@.drop_last() == self.sim().habitat@,
            r.sim().habitat@.last().population@ == fresh_wrappers(
                initial_population@,
                1,
                self.sim().habitat@.len() as u32,
            ),
            r.sim().habitat@.last().wf(),
            r.sim().habitat@.last().id == self.sim().habitat@.len(),
            r.sim().habitat@.last().reset_limit_end == 0,
            r.size() == self.size(),
    {
        let id = self.simulation.habitat.len() as u32;
        let population = Population::new(id, initial_population, 1);
        let r = self.add_population(population);
        assert(r.sim().habitat@.drop_last() =~= self.sim().habitat@);
        r
    }
}

impl<T> SimulationBuilder<T> {
    /// Adds a population made of the candidates of `initial_population`,
    /// each with its own mutation intensity.
    pub fn initial_population_num_mut(self, initial_population: Vec<(T, u32)>) -> (r: SimulationBuilder<T>)
        requires
            self.wf(),
            initial_population.len() <= u32::MAX,
            self.sim().habitat@.len() < u32::MAX,
        ensures
            r.wf(),
            r.sim() == (Simulation { habitat: r.sim().habitat, ..self.sim() }),
            r.sim().habitat@.len() == self.sim().habitat@.len() + 1,
            r.sim().habitat@.drop_last() == self.sim().habitat@,
            r.sim().habitat@.last().population@.len() == initial_population.len(),
            forall|k: int|
                0 <= k < initial_population.len() ==> #[trigger] r.sim().habitat@.last().population@[k]
                    == IndividualWrapper::new_spec(
                    initial_population@[k].0,
                    initial_population@[k].1,
                    self.sim().habitat@.len() as u32,
                ),
            r.sim().habitat@.last().id == self.sim().habitat@.len(),
            r.sim().habitat@.last().reset_limit_end == 0,
            r.size() == self.size(),
    {
        let id = self.simulation.habitat.len() as u32;
        let n = initial_population.len();
        let mut source = initial_population;
        let mut wrapped: Vec<IndividualWrapper<T>> = Vec::new();
        while source.len() > 0
            invariant
                wrapped.len() + source.len() == n,
                n == initial_population.len(),
                n <= u32::MAX,
                source@ == initial_population@.subrange(wrapped.len() as int, n as int),
                forall|k: int| 0 <= k < wrapped.len() ==> #[trigger] wrapped@[k] == IndividualWrapper::new_spec(
                    initial_population@[k].0,
                    initial_population@[k].1,
                    id,
                ),
            decreases source.len(),
        {
            let ghost before = source@;
            let (individual, num_of_mutations) = source.remove(0);
            assert(before[0] == initial_population@[wrapped.len() as int]);
            wrapped.push(IndividualWrapper::new(individual, num_of_mutations, id));
            assert(source@ =~= initial_population@.subrange(wrapped.len() as int, n as int));
        }
        let population = Population {
            num_of_individuals: n as u32,
            population: wrapped,
            reset_limit: 0,
            reset_limit_start: 0,
            reset_limit_end: 0,
            reset_limit_increment: 0,
            reset_counter: 0,
            id,
            fitness_counter: 0,
        };
        let r = self.add_population(population);
        assert(r.sim().habitat@.drop_last() =~= self.sim().habitat@);
        r
    }

    /// Gives the candidates of the most recently added population the
    /// mutation intensities 1, 2, 3, ... in slot order.
    pub fn increasing_mutation_rate(self) -> (r: SimulationBuilder<T>)
        requires
            self.wf(),
        ensures
            r.wf(),
            r.sim() == (Simulation { habitat: r.sim().habitat, ..self.sim() }),
            r.sim().habitat@.len() == self.sim().habitat@.len(),
            r.sim().habitat@.len() > 0 ==> r.sim().habitat@.drop_last() == self.sim().habitat@.drop_last(),
            r.sim().habitat@.len() > 0 ==> r.sim().habitat@.last().population@.len()
                == self.sim().habitat@.last().population@.len(),
            r.sim().habitat@.len() > 0 ==> forall|k: int|
                0 <= k < r.sim().habitat@.last().population@.len() ==> (#[trigger] r.sim().habitat@.last().population@[k]).num_of_mutations
                    == k + 1 && same_candidate(
                    r.sim().habitat@.last().population@[k],
                    self.sim().habitat@.last().population@[k],
                ),
            r.size() == self.size(),
    {
        let mut b = self;
        let n = b.simulation.habitat.len();
        if n > 0 {
            let ghost before = b.simulation.habitat@;
            assert(before[n - 1].wf());
            b.simulation.habitat[n - 1].increasing_mutation_rate();
            proof {
                assert(b.sim().habitat@.drop_last() =~= before.drop_last());
                assert forall|q: int| 0 <= q < b.sim().habitat@.len() implies (#[trigger] b.sim().habitat@[q]).wf() by {
                    if q < n - 1 {
                        assert(b.sim().habitat@[q] == before[q]);
                    }
                }
            }
        }
        b
    }

    /// Turns on the plateau-escape schedule of the most recently added
    /// population (see `Population::set_reset_limit`).
    pub fn reset_limit(self, start: u32, end: u32, increment: u32) -> (r: SimulationBuilder<T>)
        requires
            self.wf(),
        ensures
            r.wf(),
            r.sim() == (Simulation { habitat: r.sim().habitat, ..self.sim() }),
            r.sim().habitat@.len() == self.sim().habitat@.len(),
            r.sim().habitat@.len() > 0 ==> r.sim().habitat@.drop_last() == self.sim().habitat@.drop_last(),
            r.sim().habitat@.len() > 0 ==> {
                let p = r.sim().habitat@.last();
                &&& p.population == self.sim().habitat@.last().population
                &&& p.reset_limit == start
                &&& p.reset_limit_start == start
                &&& p.reset_limit_end == end
                &&& p.reset_limit_increment == increment
                &&& p.reset_counter == 0
            },
            r.size() == self.size(),
    {
        let mut b = self;
        let n = b.simulation.habitat.len();
        if n > 0 {
            let ghost before = b.simulation.habitat@;
            assert(before[n - 1].wf());
            b.simulation.habitat[n - 1].set_reset_limit(start, end, increment);
            proof {
                assert(b.sim().habitat@.drop_last() =~= before.drop_last());
                assert forall|q: int| 0 <= q < b.sim().habitat@.len() implies (#[trigger] b.sim().habitat@[q]).wf() by {
                    if q < n - 1 {
                        assert(b.sim().habitat@[q] == before[q]);
                    }
                }
            }
        }
        b
    }

    /// Validates the configuration: every population needs at least 3
    /// candidates (and there must be one), an iteration-bounded run at least
    /// 10 generations, and the selector's count must suit every population.
    /// The checks are made in this order.
    pub fn finalize(self) -> (r: BuilderResult<T>)
        requires
            self.wf(),
        ensures
            r is LowIndividuals <==> !populations_large_enough(self.sim().habitat@),
            r is LowIterration <==> populations_large_enough(self.sim().habitat@) && iterations_too_low(
                self.sim().type_of_simulation,
            ),
            r is InvalidSelector <==> populations_large_enough(self.sim().habitat@) && !iterations_too_low(
                self.sim().type_of_simulation,
            ) && !selector_fits(self.sim().selector.count(), self.sim().habitat@),
            r matches BuilderResult::Ready(sim) ==> sim == self.sim() && sim.wf(),
    {
        let n = self.simulation.habitat.len();
        if n == 0 {
            return BuilderResult::LowIndividuals;
        }
        let mut q: usize = 0;
        while q < n
            invariant
                n == self.sim().habitat@.len(),
                q <= n,
                forall|a: int| 0 <= a < q ==> (#[trigger] self.sim().habitat@[a]).population@.len() >= 3,
            decreases n - q,
        {
            if self.simulation.habitat[q].population.len() < 3 {
                return BuilderResult::LowIndividuals;
            }
            q = q + 1;
        }
        if let SimulationType::EndIteration(end_iteration) = self.simulation.type_of_simulation {
            if end_iteration < 10 {
                return BuilderResult::LowIterration;
            }
        }
        let count = self.simulation.selector.get_count();
        let mut q: usize = 0;
        while q < n
            invariant
                n == self.sim().habitat@.len(),
                q <= n,
                count == self.sim().selector.count(),
                populations_large_enough(self.sim().habitat@),
                !iterations_too_low(self.sim().type_of_simulation),
                forall|a: int|
                    0 <= a < q ==> count_is_valid(count as nat, 2 * (#[trigger] self.sim().habitat@[a]).population@.len()),
            decreases n - q,
        {
            let len = self.simulation.habitat[q].population.len();
            if count == 0 || count % 2 != 0 || count >= len {
                return BuilderResult::InvalidSelector;
            }
            q = q + 1;
        }
        BuilderResult::Ready(self.simulation)
    }
}

impl<T: Clone> SimulationBuilder<T> {
    /// Adds a population of `individuals` copies of `individual` (see
    /// `individuals`), each mutated `num_of_mutations` times per generation.
    pub fn one_individual_num_mut(self, individual: T, num_of_mutations: u32) -> (r: SimulationBuilder<T>)
        requires
            self.wf(),
            self.sim().habitat@.len() < u32::MAX,
        ensures
            r.wf(),
            r.sim() == (Simulation { habitat: r.sim().habitat, ..self.sim() }),
            r.sim().habitat@.len() == self.sim().habitat@.len() + 1,
            r.sim().habitat@.drop_last() == self.sim().habitat@,
            r.sim().habitat@.last().population@.len() == self.size(),
            forall|k: int|
                0 <= k < self.size() ==> {
                    let w = #[trigger] r.sim().habitat@.last().population@[k];
                    &&& w.num_of_mutations == num_of_mutations
                    &&& w.fitness == MAX_FITNESS
                    &&& w.id == self.sim().habitat@.len()
                    &&& cloned::<T>(individual, w.individual)
                },
            r.size() == self.size(),
    {
        let mut copies: Vec<T> = Vec::new();
        let mut k: u32 = 0;
        while k < self.num_of_individuals
            invariant
                copies.len() == k,
                k <= self.num_of_individuals,
                forall|j: int| 0 <= j < k ==> cloned::<T>(individual, #[trigger] copies@[j]),
            decreases self.num_of_individuals - k,
        {
            copies.push(individual.clone());
            k = k + 1;
        }
        let id = self.simulation.habitat.len() as u32;
        let population = Population::new(id, copies, num_of_mutations);
        let r = self.add_population(population);
        assert(r.sim().habitat@.drop_last() =~= self.sim().habitat@);
        r
    }

    /// Adds a population of `individuals` copies of `individual`, each
    /// mutated once per generation.
    pub fn one_individual(self, individual: T) -> (r: SimulationBuilder<T>)
        requires
            self.wf(),
            self.sim().habitat@.len() < u32::MAX,
        ensures
            r.wf(),
            r.sim() == (Simulation { habitat: r.sim().habitat, ..self.sim() }),
            r.sim().habitat@.len() == self.sim().habitat@.len() + 1,
            r.sim().habitat@.drop_last() == self.sim().habitat@,
            r.sim().habitat@.last().population@.len() == self.size(),
            forall|k: int|
                0 <= k < self.size() ==> {
                    let w = #[trigger] r.sim().habitat@.last().population@[k];
                    &&& w.num_of_mutations == 1
                    &&& w.fitness == MAX_FITNESS
                    &&& w.id == self.sim().habitat@.len()
                    &&& cloned::<T>(individual, w.individual)
                },
            r.size() == self.size(),
    {
        self.one_individual_num_mut(individual, 1)
    }
}

} // verus!
