use darwin::population::sort_by_fitness;
use darwin::{Individual, IndividualWrapper, MaximizeSelector, Population, MAX_FITNESS};
use rand::Rng;

/// Counts down towards zero; a reset puts it back at 1000.
#[derive(Clone, Debug)]
struct Countdown {
    value: u64,
    resets: u32,
}

impl Individual for Countdown {
    fn mutate(&mut self) {
        if self.value > 0 {
            self.value -= 1;
        }
    }

    fn calculate_fitness(&self) -> u64 {
        self.value
    }

    fn reset(&mut self) {
        self.value = 1000;
        self.resets += 1;
    }

    fn crossover_supported() -> bool {

        false

    }


    fn can_crossover() -> bool {
        false
    }

    fn crossover(&mut self, _other: &mut Self) -> Self {
        self.clone()
    }
}

/// Jumps to a random value on every mutation.
#[derive(Clone, Debug)]
struct Noisy {
    value: u64,
}

impl Individual for Noisy {
    fn mutate(&mut self) {
        self.value = rand::thread_rng().gen_range(0..1000);
    }

    fn calculate_fitness(&self) -> u64 {
        self.value
    }

    fn reset(&mut self) {
        self.value = 500;
    }

    fn crossover_supported() -> bool {

        false

    }


    fn can_crossover() -> bool {
        false
    }

    fn crossover(&mut self, _other: &mut Self) -> Self {
        self.clone()
    }
}

/// Breeds children whose value is the mean of the parents'.
#[derive(Clone, Debug)]
struct Breeder {
    value: u64,
}

impl Individual for Breeder {
    fn mutate(&mut self) {
        self.value = self.value + 3;
    }

    fn calculate_fitness(&self) -> u64 {
        self.value
    }

    fn reset(&mut self) {
        self.value = 100;
    }

    fn crossover_supported() -> bool {

        true

    }


    fn can_crossover() -> bool {
        true
    }

    fn crossover(&mut self, other: &mut Self) -> Self {
        Breeder { value: (self.value + other.value) / 2 }
    }
}

#[derive(Clone, Debug)]
/// Never changes but on reset.
struct Still {
    value: u64,
}
impl Individual for Still {
    fn mutate(&mut self) {}
    fn calculate_fitness(&self) -> u64 {
        self.value
    }
    fn reset(&mut self) {
        self.value = 42;
    }
    fn crossover_supported() -> bool {
        false
    }

    fn can_crossover() -> bool {
        false
    }
    fn crossover(&mut self, _other: &mut Self) -> Self {
        self.clone()
    }
}

fn is_sorted<T>(p: &Population<T>) -> bool {
    p.population.windows(2).all(|w| w[0].fitness <= w[1].fitness)
}

#[test]
fn new_population_is_unscored() {
    let p = Population::new(7, vec![Countdown { value: 3, resets: 0 }; 4], 2);
    assert_eq!(p.num_of_individuals, 4);
    assert_eq!(p.population.len(), 4);
    assert_eq!(p.id, 7);
    assert_eq!(p.reset_limit_end, 0);
    for w in &p.population {
        assert_eq!(w.fitness, MAX_FITNESS);
        assert_eq!(w.num_of_mutations, 2);
        assert_eq!(w.id, 7);
    }
}

#[test]
fn step_keeps_size_order_and_intensities() {
    let mut p = Population::new(1, (0..30).map(|i| Noisy { value: i * 7 % 31 }).collect(), 1);
    p.increasing_mutation_rate();
    let selector = MaximizeSelector::new(2);
    for _ in 0..20 {
        assert!(p.run_body(&selector).is_ok());
        assert_eq!(p.population.len(), 30);
        assert!(is_sorted(&p));
        for (k, w) in p.population.iter().enumerate() {
            assert_eq!(w.num_of_mutations, k as u32 + 1);
        }
    }
}

#[test]
fn step_never_loses_the_fittest_without_reset() {
    let mut p = Population::new(1, (0..10).map(|i| Noisy { value: i }).collect(), 1);
    p.calculate_fitness();
    let selector = MaximizeSelector::new(2);
    let mut best = 0;
    for _ in 0..10 {
        assert!(p.run_body(&selector).is_ok());
        assert!(p.population[0].fitness <= best);
        best = p.population[0].fitness;
    }
    assert_eq!(best, 0);
}

#[test]
fn countdown_step_improves_every_slot() {
    let mut p = Population::new(1, vec![Countdown { value: 50, resets: 0 }; 5], 3);
    p.calculate_fitness();
    let selector = MaximizeSelector::new(2);
    assert!(p.run_body(&selector).is_ok());
    let fitness: Vec<u64> = p.population.iter().map(|w| w.fitness).collect();
    assert_eq!(fitness, vec![47, 47, 47, 47, 47]);
}

#[test]
fn reset_schedule_fires_after_its_limit() {
    let mut p = Population::new(1, vec![Countdown { value: 500, resets: 0 }; 10], 1);
    p.set_reset_limit(100, 1000, 100);
    let selector = MaximizeSelector::new(2);
    for _ in 0..100 {
        assert!(p.run_body(&selector).is_ok());
    }
    assert_eq!(p.reset_limit, 100);
    assert_eq!(p.reset_counter, 100);
    assert!(p.population.iter().all(|w| w.individual.resets == 0));
    assert!(p.run_body(&selector).is_ok());
    assert_eq!(p.reset_limit, 200);
    assert_eq!(p.reset_counter, 0);
    assert!(p.population.iter().all(|w| w.individual.resets >= 1));
}

#[test]
fn reset_limit_wraps_back_to_start() {
    let mut p = Population::new(1, vec![Countdown { value: 5, resets: 0 }; 3], 1);
    p.set_reset_limit(1, 3, 1);
    let selector = MaximizeSelector::new(2);
    // limit 1: resets on the second step, limit becomes 2
    assert!(p.run_body(&selector).is_ok());
    assert!(p.run_body(&selector).is_ok());
    assert_eq!(p.reset_limit, 2);
    // limit 2: resets on the third step after that, 2 + 1 reaches 3, back to 1
    for _ in 0..3 {
        assert!(p.run_body(&selector).is_ok());
    }
    assert_eq!(p.reset_limit, 1);
    assert_eq!(p.reset_counter, 0);
}

#[test]
fn resets_twice_give_the_same_fitness() {
    let mut p = Population::new(1, (0..4).map(|i| Still { value: i * 100 }).collect(), 1);
    // a zero limit resets on every step
    p.set_reset_limit(0, 1000, 0);
    let selector = MaximizeSelector::new(2);
    assert!(p.run_body(&selector).is_ok());
    let first: Vec<u64> = p.population.iter().map(|w| w.fitness).collect();
    assert!(p.run_body(&selector).is_ok());
    let second: Vec<u64> = p.population.iter().map(|w| w.fitness).collect();
    assert_eq!(first, vec![42, 42, 42, 42]);
    assert_eq!(first, second);
}

#[test]
fn crossover_children_join_the_population() {
    let mut p = Population::new(1, (0..6).map(|i| Breeder { value: i * 10 }).collect(), 1);
    p.calculate_fitness();
    let selector = MaximizeSelector::new(4);
    assert!(p.run_body(&selector).is_ok());
    let fitness: Vec<u64> = p.population.iter().map(|w| w.fitness).collect();
    // originals 0..50, mutants 3..53, children of (53, 50) and (43, 40) with
    // the parents ranked by the highest value
    assert_eq!(fitness, vec![0, 3, 10, 13, 20, 23]);
    assert_eq!(p.population.len(), 6);
}

#[test]
fn refused_selection_leaves_unmutated_candidates() {
    let mut p = Population::new(1, (0..6).map(|i| Breeder { value: i * 10 }).collect(), 1);
    p.calculate_fitness();
    let selector = MaximizeSelector::new(0);
    assert!(p.run_body(&selector).is_err());
    let fitness: Vec<u64> = p.population.iter().map(|w| w.fitness).collect();
    assert_eq!(fitness, vec![0, 10, 20, 30, 40, 50]);
}

#[test]
fn spread_fills_all_but_the_last_slot() {
    let mut p = Population::new(1, (0..4).map(|i| Countdown { value: 10 + i, resets: 0 }).collect(), 1);
    p.calculate_fitness();
    let best = IndividualWrapper { individual: Countdown { value: 1, resets: 0 }, fitness: 1, num_of_mutations: 9, id: 3 };
    p.spread(&best);
    let fitness: Vec<u64> = p.population.iter().map(|w| w.fitness).collect();
    assert_eq!(fitness, vec![1, 1, 1, 13]);
    assert_eq!(p.population[0].individual.value, 1);
    assert_eq!(p.population[0].num_of_mutations, 1);
    assert_eq!(p.best_slot(), 0);
}

#[test]
fn sort_orders_by_fitness() {
    let mut v: Vec<IndividualWrapper<u8>> =
        [5u64, 1, 4, 1, 3].iter().map(|&f| IndividualWrapper { individual: f as u8, fitness: f, num_of_mutations: 1, id: 0 }).collect();
    sort_by_fitness(&mut v);
    let fitness: Vec<u64> = v.iter().map(|w| w.fitness).collect();
    assert_eq!(fitness, vec![1, 1, 3, 4, 5]);
    let mut empty: Vec<IndividualWrapper<u8>> = Vec::new();
    sort_by_fitness(&mut empty);
    assert!(empty.is_empty());
}
