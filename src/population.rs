//! One population of candidates and its generation step.
use vstd::prelude::*;

use crate::individual::{Individual, IndividualWrapper};
use crate::select::Selector;

verus! {

broadcast use vstd::seq_lib::group_to_multiset_ensures;

/// Ascending by cached fitness: index 0 holds the fittest candidate.
pub open spec fn fitness_sorted<T>(s: Seq<IndividualWrapper<T>>) -> bool {
    forall|i: int, j: int| 0 <= i <= j < s.len() ==> #[trigger] s[i].fitness <= #[trigger] s[j].fitness
}

/// `kept` holds the `kept.len()` fittest entries of `work`: with the discarded
/// entries it makes up `work`, and no discarded entry is fitter than the last
/// kept one.
pub open spec fn fittest_kept<T>(work: Seq<IndividualWrapper<T>>, kept: Seq<IndividualWrapper<T>>) -> bool {
    exists|rest: Seq<IndividualWrapper<T>>|
        #![trigger rest.to_multiset()]
        work.to_multiset() == kept.to_multiset().add(rest.to_multiset()) && forall|j: int|
            0 <= j < rest.len() && kept.len() > 0 ==> kept.last().fitness <= #[trigger] rest[j].fitness
}

/// `work` is a working set of a generation step on `snapshot`: the `n` mutated
/// candidates, then copies of the `n` unmutated ones, then any children.
pub open spec fn working_set_of<T: Clone>(work: Seq<IndividualWrapper<T>>, snapshot: Seq<IndividualWrapper<T>>) -> bool {
    &&& work.len() >= 2 * snapshot.len()
    &&& forall|k: int|
        0 <= k < snapshot.len() ==> (#[trigger] work[snapshot.len() + k]).fitness == snapshot[k].fitness
            && cloned::<T>(snapshot[k].individual, work[snapshot.len() + k].individual)
}

/// Two wrappers hold the same candidate with the same cached fitness.
pub open spec fn same_candidate<T>(a: IndividualWrapper<T>, b: IndividualWrapper<T>) -> bool {
    a.individual == b.individual && a.fitness == b.fitness
}

/// The mutation intensities of `s`, slot by slot.
pub open spec fn intensities<T>(s: Seq<IndividualWrapper<T>>) -> Seq<u32> {
    s.map_values(|w: IndividualWrapper<T>| w.num_of_mutations)
}

/// Sorts the candidates ascending by cached fitness.
pub fn sort_by_fitness<T>(v: &mut Vec<IndividualWrapper<T>>)
    ensures
        final(v)@.to_multiset() == old(v)@.to_multiset(),
        final(v)@.len() == old(v)@.len(),
        fitness_sorted(final(v)@),
{
    let n = v.len();
    if n == 0 {
        return;
    }
    let mut i: usize = 1;
    while i < n
        invariant
            v.len() == n,
            1 <= i <= n,
            v@.to_multiset() == old(v)@.to_multiset(),
            forall|a: int, b: int| 0 <= a <= b < i ==> #[trigger] v@[a].fitness <= #[trigger] v@[b].fitness,
        decreases n - i,
    {
        let ghost before = v@;
        let w = v.remove(i);
        let ghost rest = v@;
        let mut j: usize = i;
        while j > 0 && v[j - 1].fitness > w.fitness
            invariant
                v@ == rest,
                rest.len() == n - 1,
                i < n,
                j <= i,
                forall|k: int| j <= k < i ==> #[trigger] rest[k].fitness > w.fitness,
            decreases j,
        {
            j = j - 1;
        }
        v.insert(j, w);
        proof {
            assert(before.remove(i as int).insert(j as int, w).to_multiset() =~= before.to_multiset());
            assert forall|a: int, b: int| 0 <= a <= b < i + 1 implies #[trigger] v@[a].fitness
                <= #[trigger] v@[b].fitness by {
                if j > 0 {
                    assert(rest[j - 1].fitness <= w.fitness);
                }
                if a < j && b >= j && j > 0 {
                    assert(rest[a].fitness <= rest[j - 1].fitness);
                }
                if a > j {
                    assert(v@[a] == rest[a - 1]);
                    assert(v@[b] == rest[b - 1]);
                }
                if a < j && b < j {
                    assert(v@[a] == rest[a]);
                }
            }
        }
        i = i + 1;
    }
}

/// The reset threshold that follows `limit`: advanced by `increment`, and back
/// to `start` once it reaches `end`.
pub open spec fn next_reset_limit(limit: u32, start: u32, end: u32, increment: u32) -> u32 {
    if limit + increment >= end {
        start
    } else {
        (limit + increment) as u32
    }
}

/// One generation of the plateau-escape schedule: the new threshold, the new
/// counter, and whether the population is reset. Scheduling is off when
/// `end == 0`.
pub open spec fn reset_schedule(limit: u32, start: u32, end: u32, increment: u32, counter: u32) -> (
    u32,
    u32,
    bool,
) {
    if end == 0 {
        (limit, counter, false)
    } else if counter + 1 > limit {
        (next_reset_limit(limit, start, end, increment), 0, true)
    } else {
        (limit, (counter + 1) as u32, false)
    }
}

/// Each of `individuals` wrapped as a fresh, unscored candidate.
pub open spec fn fresh_wrappers<T>(individuals: Seq<T>, num_of_mutations: u32, id: u32) -> Seq<
    IndividualWrapper<T>,
> {
    individuals.map_values(|x: T| IndividualWrapper::new_spec(x, num_of_mutations, id))
}

/// A group of candidates evolved together, with its plateau-escape schedule.
pub struct Population<T> {
    /// The target size, kept after every generation step.
    pub num_of_individuals: u32,
    /// The candidates, fittest first after each generation step.
    pub population: Vec<IndividualWrapper<T>>,
    /// Generations to wait before every candidate is reset.
    pub reset_limit: u32,
    /// The first value of `reset_limit`, and the one it returns to.
    pub reset_limit_start: u32,
    /// Once `reset_limit` reaches this value it returns to the start value;
    /// zero turns resets off.
    pub reset_limit_end: u32,
    /// What `reset_limit` grows by after each reset.
    pub reset_limit_increment: u32,
    /// Generations since the last reset.
    pub reset_counter: u32,
    /// Identifies the population in statistics.
    pub id: u32,
    /// How often this population produced the overall fittest candidate.
    pub fitness_counter: u64,
}

impl<T> Population<T> {
    /// The population holds exactly its target number of candidates.
    pub open spec fn wf(&self) -> bool {
        self.population@.len() == self.num_of_individuals as nat
    }

    /// The schedule fields after one generation step, as `reset_schedule` gives
    /// them, with everything else about the schedule unchanged.
    pub open spec fn schedule_advanced(&self, next: &Self) -> bool {
        let (limit, counter, _) = reset_schedule(
            self.reset_limit,
            self.reset_limit_start,
            self.reset_limit_end,
            self.reset_limit_increment,
            self.reset_counter,
        );
        &&& next.reset_limit == limit
        &&& next.reset_counter == counter
        &&& next.reset_limit_start == self.reset_limit_start
        &&& next.reset_limit_end == self.reset_limit_end
        &&& next.reset_limit_increment == self.reset_limit_increment
        &&& next.num_of_individuals == self.num_of_individuals
        &&& next.id == self.id
        &&& next.fitness_counter == self.fitness_counter
    }

    /// Whether the next generation step resets every candidate.
    pub open spec fn resets_next(&self) -> bool {
        reset_schedule(
            self.reset_limit,
            self.reset_limit_start,
            self.reset_limit_end,
            self.reset_limit_increment,
            self.reset_counter,
        ).2
    }

    /// A population of unscored candidates, each mutated `num_of_mutations`
    /// times per generation, with resets turned off.
    pub fn new(id: u32, individuals: Vec<T>, num_of_mutations: u32) -> (r: Population<T>)
        requires
            individuals.len() <= u32::MAX,
        ensures
            r.wf(),
            r.id == id,
            r.num_of_individuals == individuals.len(),
            r.population@ == fresh_wrappers(individuals@, num_of_mutations, id),
            r.reset_limit_end == 0,
            r.reset_counter == 0,
            r.fitness_counter == 0,
    {
        let n = individuals.len();
        let mut source = individuals;
        let mut wrapped: Vec<IndividualWrapper<T>> = Vec::new();
        while source.len() > 0
            invariant
                wrapped.len() + source.len() == n,
                n <= u32::MAX,
                wrapped@ + fresh_wrappers(source@, num_of_mutations, id) == fresh_wrappers(
                    individuals@,
                    num_of_mutations,
                    id,
                ),
            decreases source.len(),
        {
            let ghost before = source@;
            let x = source.remove(0);
            assert(fresh_wrappers(before, num_of_mutations, id) =~= seq![
                IndividualWrapper::new_spec(x, num_of_mutations, id),
            ] + fresh_wrappers(source@, num_of_mutations, id));
            wrapped.push(IndividualWrapper::new(x, num_of_mutations, id));
            assert(wrapped@ + fresh_wrappers(source@, num_of_mutations, id) =~= fresh_wrappers(
                individuals@,
                num_of_mutations,
                id,
            ));
        }
        Population {
            num_of_individuals: n as u32,
            population: wrapped,
            reset_limit: 0,
            reset_limit_start: 0,
            reset_limit_end: 0,
            reset_limit_increment: 0,
            reset_counter: 0,
            id,
            fitness_counter: 0,
        }
    }

    /// Turns on the plateau-escape schedule: every candidate is reset once
    /// `start` generations have passed; the wait then grows by `increment`
    /// and returns to `start` once it reaches `end`.
    pub fn set_reset_limit(&mut self, start: u32, end: u32, increment: u32)
        ensures
            final(self).reset_limit == start,
            final(self).reset_limit_start == start,
            final(self).reset_limit_end == end,
            final(self).reset_limit_increment == increment,
            final(self).reset_counter == 0,
            final(self).population == old(self).population,
            final(self).num_of_individuals == old(self).num_of_individuals,
            final(self).id == old(self).id,
            final(self).fitness_counter == old(self).fitness_counter,
    {
        self.reset_limit = start;
        self.reset_limit_start = start;
        self.reset_limit_end = end;
        self.reset_limit_increment = increment;
        self.reset_counter = 0;
    }

    /// Sets the mutation intensities to 1, 2, 3, ... in slot order.
    pub fn increasing_mutation_rate(&mut self)
        requires
            old(self).population@.len() <= u32::MAX,
        ensures
            final(self).population@.len() == old(self).population@.len(),
            forall|i: int| 0 <= i < final(self).population@.len() ==>
                (#[trigger] final(self).population@[i]).num_of_mutations == i + 1,
            forall|i: int|
                0 <= i < final(self).population@.len() ==> same_candidate(
                    #[trigger] final(self).population@[i],
                    old(self).population@[i],
                ),
            final(self).num_of_individuals == old(self).num_of_individuals,
            final(self).reset_limit == old(self).reset_limit,
            final(self).reset_counter == old(self).reset_counter,
    {
        let n = self.population.len();
        let mut i: usize = 0;
        while i < n
            invariant
                n == old(self).population@.len(),
                n <= u32::MAX,
                i <= n,
                self.population@.len() == n,
                forall|k: int| 0 <= k < i ==> (#[trigger] self.population@[k]).num_of_mutations == k + 1,
                forall|k: int|
                    0 <= k < n ==> same_candidate(#[trigger] self.population@[k], old(self).population@[k]),
                forall|k: int| i <= k < n ==> #[trigger] self.population@[k] == old(self).population@[k],
                self.num_of_individuals == old(self).num_of_individuals,
                self.reset_limit == old(self).reset_limit,
                self.reset_counter == old(self).reset_counter,
            decreases n - i,
        {
            self.population[i].num_of_mutations = (i + 1) as u32;
            i = i + 1;
        }
    }

    /// Advances the plateau-escape schedule by one generation and says whether
    /// the population must be reset now.
    fn advance_reset_schedule(&mut self) -> (reset: bool)
        ensures
            old(self).schedule_advanced(&*final(self)),
            reset == old(self).resets_next(),
            final(self).population == old(self).population,
    {
        if self.reset_limit_end == 0 {
            return false;
        }
        let counter = self.reset_counter as u64 + 1;
        if counter > self.reset_limit as u64 {
            let advanced = self.reset_limit as u64 + self.reset_limit_increment as u64;
            if advanced >= self.reset_limit_end as u64 {
                self.reset_limit = self.reset_limit_start;
            } else {
                self.reset_limit = advanced as u32;
            }
            self.reset_counter = 0;
            true
        } else {
            self.reset_counter = counter as u32;
            false
        }
    }
}

impl<T: Individual + Clone> Population<T> {
    /// Copies `best` into every slot but the last, which is left alone to keep
    /// some diversity.
    pub fn spread(&mut self, best: &IndividualWrapper<T>)
        requires
            old(self).population@.len() >= 1,
        ensures
            final(self).population@.len() == old(self).population@.len(),
            forall|s: int|
                0 <= s < final(self).population@.len() - 1 ==> (#[trigger] final(self).population@[s]).fitness
                    == best.fitness && cloned::<T>(best.individual, final(self).population@[s].individual),
            final(self).population@.last() == old(self).population@.last(),
            intensities(final(self).population@) == intensities(old(self).population@),
            final(self).num_of_individuals == old(self).num_of_individuals,
            final(self).reset_limit == old(self).reset_limit,
            final(self).reset_counter == old(self).reset_counter,
            final(self).reset_limit_start == old(self).reset_limit_start,
            final(self).reset_limit_end == old(self).reset_limit_end,
            final(self).reset_limit_increment == old(self).reset_limit_increment,
            final(self).id == old(self).id,
            final(self).fitness_counter == old(self).fitness_counter,
    {
        let n = self.population.len();
        let mut s: usize = 0;
        while s < n - 1
            invariant
                n == old(self).population@.len(),
                n >= 1,
                s <= n - 1,
                self.population@.len() == n,
                forall|t: int|
                    0 <= t < s ==> (#[trigger] self.population@[t]).fitness == best.fitness && cloned::<T>(
                        best.individual,
                        self.population@[t].individual,
                    ),
                forall|t: int| s <= t < n ==> #[trigger] self.population@[t] == old(self).population@[t],
                intensities(self.population@) == intensities(old(self).population@),
                self.num_of_individuals == old(self).num_of_individuals,
                self.reset_limit == old(self).reset_limit,
                self.reset_counter == old(self).reset_counter,
                self.reset_limit_start == old(self).reset_limit_start,
                self.reset_limit_end == old(self).reset_limit_end,
                self.reset_limit_increment == old(self).reset_limit_increment,
                self.id == old(self).id,
                self.fitness_counter == old(self).fitness_counter,
            decreases n - 1 - s,
        {
            let copy = best.individual.clone();
            self.population[s].individual = copy;
            self.population[s].fitness = best.fitness;
            assert(intensities(self.population@) =~= intensities(old(self).population@));
            s = s + 1;
        }
    }

    /// The first slot holding the lowest fitness.
    pub fn best_slot(&self) -> (r: usize)
        requires
            self.population@.len() >= 1,
        ensures
            r < self.population@.len(),
            forall|k: int|
                0 <= k < self.population@.len() ==> self.population@[r as int].fitness
                    <= #[trigger] self.population@[k].fitness,
    {
        let mut best: usize = 0;
        let mut k: usize = 1;
        while k < self.population.len()
            invariant
                1 <= k <= self.population@.len(),
                best < k,
                forall|j: int| 0 <= j < k ==> self.population@[best as int].fitness <= #[trigger] self.population@[j].fitness,
            decreases self.population@.len() - k,
        {
            if self.population[k].fitness < self.population[best].fitness {
                best = k;
            }
            k = k + 1;
        }
        best
    }

    /// Rescores every candidate.
    pub fn calculate_fitness(&mut self)
        ensures
            final(self).population@.len() == old(self).population@.len(),
            intensities(final(self).population@) == intensities(old(self).population@),
            final(self).num_of_individuals == old(self).num_of_individuals,
            final(self).reset_limit == old(self).reset_limit,
            final(self).reset_counter == old(self).reset_counter,
            final(self).reset_limit_start == old(self).reset_limit_start,
            final(self).reset_limit_end == old(self).reset_limit_end,
            final(self).reset_limit_increment == old(self).reset_limit_increment,
            final(self).id == old(self).id,
            final(self).fitness_counter == old(self).fitness_counter,
            forall|k: int|
                0 <= k < final(self).population@.len() ==> (#[trigger] final(self).population@[k]).individual
                    == old(self).population@[k].individual,
    {
        let n = self.population.len();
        let mut i: usize = 0;
        while i < n
            invariant
                n == old(self).population@.len(),
                i <= n,
                self.population@.len() == n,
                intensities(self.population@) == intensities(old(self).population@),
                self.num_of_individuals == old(self).num_of_individuals,
                self.reset_limit == old(self).reset_limit,
                self.reset_counter == old(self).reset_counter,
                self.reset_limit_start == old(self).reset_limit_start,
                self.reset_limit_end == old(self).reset_limit_end,
                self.reset_limit_increment == old(self).reset_limit_increment,
                self.id == old(self).id,
                self.fitness_counter == old(self).fitness_counter,
                forall|k: int|
                    0 <= k < n ==> (#[trigger] self.population@[k]).individual == old(self).population@[k].individual,
            decreases n - i,
        {
            let fitness = self.population[i].individual.calculate_fitness();
            self.population[i].fitness = fitness;
            assert(intensities(self.population@) =~= intensities(old(self).population@));
            i = i + 1;
        }
    }

    /// Resets every candidate to its canonical state and rescores it.
    fn reset_all(&mut self)
        ensures
            final(self).population@.len() == old(self).population@.len(),
            intensities(final(self).population@) == intensities(old(self).population@),
            final(self).num_of_individuals == old(self).num_of_individuals,
            final(self).reset_limit == old(self).reset_limit,
            final(self).reset_counter == old(self).reset_counter,
            final(self).reset_limit_start == old(self).reset_limit_start,
            final(self).reset_limit_end == old(self).reset_limit_end,
            final(self).reset_limit_increment == old(self).reset_limit_increment,
            final(self).id == old(self).id,
            final(self).fitness_counter == old(self).fitness_counter,
    {
        let n = self.population.len();
        let mut i: usize = 0;
        while i < n
            invariant
                n == old(self).population@.len(),
                i <= n,
                self.population@.len() == n,
                intensities(self.population@) == intensities(old(self).population@),
                self.num_of_individuals == old(self).num_of_individuals,
                self.reset_limit == old(self).reset_limit,
                self.reset_counter == old(self).reset_counter,
                self.reset_limit_start == old(self).reset_limit_start,
                self.reset_limit_end == old(self).reset_limit_end,
                self.reset_limit_increment == old(self).reset_limit_increment,
                self.id == old(self).id,
                self.fitness_counter == old(self).fitness_counter,
            decreases n - i,
        {
            self.population[i].individual.reset();
            let fitness = self.population[i].individual.calculate_fitness();
            self.population[i].fitness = fitness;
            assert(intensities(self.population@) =~= intensities(old(self).population@));
            i = i + 1;
        }
    }

    /// One generation: advance the plateau-escape schedule (resetting every
    /// candidate when it fires), mutate and rescore a copy of every candidate,
    /// add the unmutated originals, breed children through `selector` when the
    /// candidate type supports crossover, sort by fitness and keep the fittest
    /// `num_of_individuals`. Each slot keeps its mutation intensity.
    ///
    /// Fails, leaving the unmutated candidates in place, when the selector
    /// refuses the doubled population.
    pub fn run_body<S: Selector<T>>(&mut self, selector: &S) -> (r: Result<(), ()>)
        requires
            old(self).wf(),
        ensures
            final(self).wf(),
            old(self).schedule_advanced(&*final(self)),
            intensities(final(self).population@) == intensities(old(self).population@),
            r is Err <==> T::crossover_supported() && selector.fails_for(2 * old(self).population@.len()),
            r is Ok ==> fitness_sorted(final(self).population@),
            r is Ok && !old(self).resets_next() ==> exists|work: Seq<IndividualWrapper<T>>, kept: Seq<IndividualWrapper<T>>|
                #![trigger fittest_kept(work, kept)]
                working_set_of(work, old(self).population@) && fittest_kept(work, kept) && kept.len()
                    == old(self).population@.len() && forall|k: int|
                    0 <= k < kept.len() ==> same_candidate(#[trigger] final(self).population@[k], kept[k])
                        && final(self).population@[k].id == kept[k].id,
            r is Err && !old(self).resets_next() ==> forall|k: int|
                0 <= k < old(self).population@.len() ==> (#[trigger] final(self).population@[k]).fitness
                    == old(self).population@[k].fitness,
            r is Ok && !old(self).resets_next() ==> forall|k: int|
                #![trigger old(self).population@[k]]
                0 <= k < old(self).population@.len() ==> final(self).population@[0].fitness
                    <= old(self).population@[k].fitness,
    {
        let ghost start = *self;
        let reset = self.advance_reset_schedule();
        if reset {
            self.reset_all();
        }
        let ghost stepped = *self;
        assert(intensities(stepped.population@) == intensities(start.population@));
        let n = self.population.len();

        // Keep the unmutated candidates and the per-slot intensities.
        let mut originals: Vec<IndividualWrapper<T>> = Vec::new();
        let mut slot_intensity: Vec<u32> = Vec::new();
        let mut i: usize = 0;
        while i < n
            invariant
                n == self.population@.len(),
                self.population@ == stepped.population@,
                i <= n,
                originals@.len() == i,
                slot_intensity@ == intensities(self.population@).take(i as int),
                forall|k: int| 0 <= k < i ==> (#[trigger] originals@[k]).fitness == self.population@[k].fitness,
                forall|k: int| 0 <= k < i ==> (#[trigger] originals@[k]).num_of_mutations == self.population@[k].num_of_mutations,
                forall|k: int| 0 <= k < i ==> cloned::<T>(self.population@[k].individual, (#[trigger] originals@[k]).individual),
            decreases n - i,
        {
            originals.push(self.population[i].duplicate());
            slot_intensity.push(self.population[i].num_of_mutations);
            assert(slot_intensity@ =~= intensities(self.population@).take(i + 1));
            i = i + 1;
        }
        assert(slot_intensity@ =~= intensities(stepped.population@));

        // Mutate and rescore every candidate.
        let mut work: Vec<IndividualWrapper<T>> = Vec::new();
        std::mem::swap(&mut work, &mut self.population);
        let mut i: usize = 0;
        while i < n
            invariant
                work@.len() == n,
                i <= n,
            decreases n - i,
        {
            work[i].mutate_and_score();
            i = i + 1;
        }
        let ghost mutated = work@;
        let ghost kept = originals@;
        work.append(&mut originals);
        let ghost doubled = work@;
        assert(doubled == mutated + kept);

        if T::can_crossover() {
            let mut candidates: Vec<T> = Vec::new();
            let mut i: usize = 0;
            while i < work.len()
                invariant
                    i <= work@.len(),
                    work@.len() == 2 * n,
                    candidates@.len() == i,
                decreases work@.len() - i,
            {
                candidates.push(work[i].individual.clone());
                i = i + 1;
            }
            match selector.select(candidates.as_slice()) {
                Err(e) => {
                    let mut unmutated = work.split_off(n);
                    assert(unmutated@ =~= kept);
                    std::mem::swap(&mut unmutated, &mut self.population);
                    return Err(e);
                },
                Ok(parents) => {
                    let mut parents = parents;
                    while parents.len() > 0
                        invariant
                            work@.len() >= 2 * n,
                            work@.subrange(0, 2 * n) == doubled,
                        decreases parents.len(),
                    {
                        let (mut a, mut b) = parents.remove(0);
                        let child = a.crossover(&mut b);
                        let fitness = child.calculate_fitness();
                        let ghost prev = work@;
                        work.push(IndividualWrapper { individual: child, fitness, num_of_mutations: 1, id: self.id });
                        assert(work@.subrange(0, 2 * n) =~= prev.subrange(0, 2 * n));
                    }
                },
            }
        }
        let ghost bred = work@;
        sort_by_fitness(&mut work);
        proof {
            // every unmutated original is still in the working set
            assert forall|k: int| #![trigger stepped.population@[k]] 0 <= k < n implies exists|p: int|
                0 <= p < work@.len() && #[trigger] work@[p].fitness == stepped.population@[k].fitness by {
                assert(bred[n + k] == doubled[n + k]);
                assert(doubled[n + k] == kept[k]);
                assert(bred.to_multiset().count(bred[n + k]) > 0);
                assert(work@.contains(bred[n + k]));
            }
        }
        let ghost sorted = work@;
        work.truncate(n);
        proof {
            let top = sorted.take(n as int);
            let rest = sorted.skip(n as int);
            assert(sorted =~= top + rest);
            vstd::seq_lib::lemma_multiset_commutative(top, rest);
            assert(forall|j: int| 0 <= j < rest.len() && top.len() > 0 ==> top.last().fitness <= #[trigger] rest[j].fitness) by {
                assert forall|j: int| 0 <= j < rest.len() && top.len() > 0 implies top.last().fitness
                    <= #[trigger] rest[j].fitness by {
                    assert(sorted[n - 1].fitness <= sorted[n + j].fitness);
                }
            }
            assert(fittest_kept(bred, top));
            assert forall|k: int| 0 <= k < n implies (#[trigger] bred[n + k]).fitness == stepped.population@[k].fitness
                && cloned::<T>(stepped.population@[k].individual, bred[n + k].individual) by {
                assert(bred[n + k] == doubled[n + k]);
                assert(doubled[n + k] == kept[k]);
            }
        }

        // Give every slot back its intensity.
        let mut i: usize = 0;
        while i < n
            invariant
                work@.len() == n,
                slot_intensity@.len() == n,
                i <= n,
                n <= sorted.len(),
                forall|k: int| 0 <= k < n ==> same_candidate(#[trigger] work@[k], sorted[k]) && work@[k].id == sorted[k].id,
                forall|k: int| 0 <= k < i ==> #[trigger] work@[k].num_of_mutations == slot_intensity@[k],
            decreases n - i,
        {
            work[i].num_of_mutations = slot_intensity[i];
            i = i + 1;
        }
        assert(intensities(work@) =~= slot_intensity@);
        self.population = work;
        proof {
            if !old(self).resets_next() {
                assert(stepped.population == old(self).population);
                assert(working_set_of(bred, old(self).population@));
                let top = sorted.take(n as int);
                assert forall|k: int| 0 <= k < top.len() implies same_candidate(#[trigger] self.population@[k], top[k])
                    && self.population@[k].id == top[k].id by {}
                assert(fittest_kept(bred, top));
            }
        }
        Ok(())
    }
}

} // verus!
