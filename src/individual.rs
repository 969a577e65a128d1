//! The capability set that candidates provide, and the wrapper that caches
//! their fitness.
use vstd::prelude::*;

verus! {

/// Fitness of an unscored or invalid candidate: it loses every comparison.
pub const MAX_FITNESS: u64 = 0xffff_ffff_ffff_ffff;

/// What a candidate solution offers the engine. Fitness is "lower is better";
/// a candidate in an invalid state reports `MAX_FITNESS`.
pub trait Individual: Sized {
    /// Applies one small random perturbation in place.
    fn mutate(&mut self);

    /// Scores the candidate as it is now stored.
    fn calculate_fitness(&self) -> u64;

    /// Restores the canonical starting state.
    fn reset(&mut self);

    /// Whether the candidate type breeds children by `crossover`; an
    /// implementation gives the same answer as `can_crossover`.
    spec fn crossover_supported() -> bool;

    /// Whether `crossover` may be used to breed children.
    fn can_crossover() -> (r: bool)
        ensures
            r == Self::crossover_supported(),
    ;

    /// Produces one child from two parents.
    fn crossover(&mut self, other: &mut Self) -> Self;
}

/// A candidate together with its cached fitness, its mutation intensity (how
/// many times it is mutated per generation) and the id of its population.
pub struct IndividualWrapper<T> {
    pub individual: T,
    pub fitness: u64,
    pub num_of_mutations: u32,
    pub id: u32,
}

impl<T> IndividualWrapper<T> {
    /// A fresh, unscored candidate.
    pub open spec fn new_spec(individual: T, num_of_mutations: u32, id: u32) -> Self {
        IndividualWrapper { individual, fitness: MAX_FITNESS, num_of_mutations, id }
    }

    /// A fresh, unscored candidate.
    pub fn new(individual: T, num_of_mutations: u32, id: u32) -> (r: Self)
        ensures
            r == Self::new_spec(individual, num_of_mutations, id),
    {
        IndividualWrapper { individual, fitness: MAX_FITNESS, num_of_mutations, id }
    }
}

impl<T: Clone> IndividualWrapper<T> {
    /// A copy whose bookkeeping fields equal this one's and whose candidate is a
    /// clone of this one's.
    pub fn duplicate(&self) -> (r: Self)
        ensures
            r.fitness == self.fitness,
            r.num_of_mutations == self.num_of_mutations,
            r.id == self.id,
            cloned::<T>(self.individual, r.individual),
    {
        IndividualWrapper {
            individual: self.individual.clone(),
            fitness: self.fitness,
            num_of_mutations: self.num_of_mutations,
            id: self.id,
        }
    }
}

impl<T: Individual> IndividualWrapper<T> {
    /// Mutates the candidate `num_of_mutations` times and rescores it.
    pub fn mutate_and_score(&mut self)
        ensures
            final(self).num_of_mutations == old(self).num_of_mutations,
            final(self).id == old(self).id,
    {
        let n = self.num_of_mutations;
        let mut k: u32 = 0;
        while k < n
            invariant
                self.num_of_mutations == n,
                self.id == old(self).id,
            decreases n - k,
        {
            self.individual.mutate();
            k = k + 1;
        }
        self.fitness = self.individual.calculate_fitness();
    }
}

} // verus!
