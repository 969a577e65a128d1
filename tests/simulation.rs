use darwin::{
    elapsed_ms, BuilderResult, Factor, FittestType, Individual, Simulation, SimulationBuilder, SimulationType,
};
use rand::Rng;

/// Counts down towards zero by one per mutation.
#[derive(Clone, Debug)]
struct Countdown {
    value: u64,
}

impl Individual for Countdown {
    fn mutate(&mut self) {
        if self.value > 0 {
            self.value -= 1;
        }
    }

    fn calculate_fitness(&self) -> u64 {
        self.value
    }

    fn reset(&mut self) {
        self.value = 100;
    }

    fn crossover_supported() -> bool {

        false

    }


    fn can_crossover() -> bool {
        false
    }

    fn crossover(&mut self, _other: &mut Self) -> Self {
        self.clone()
    }
}

const UNSOLVED_SUDOKU: [u8; 81] = [
    5, 3, 4, 6, 7, 8, 9, 1, 2, //
    6, 7, 2, 1, 9, 5, 3, 4, 8, //
    1, 9, 8, 3, 4, 2, 5, 6, 7, //
    8, 5, 9, 7, 6, 1, 4, 2, 3, //
    4, 2, 6, 8, 5, 3, 7, 9, 1, //
    7, 1, 3, 9, 2, 4, 8, 5, 6, //
    0, 6, 0, 0, 0, 0, 2, 8, 0, //
    0, 0, 0, 4, 1, 9, 0, 0, 5, //
    0, 0, 0, 0, 8, 0, 0, 7, 9,
];

/// A Sudoku grid whose free cells are filled in by mutation.
#[derive(Clone, Debug)]
struct Sudoku {
    solved: Vec<u8>,
}

/// Errors in a group of nine cells: cells out of range, and digits that do
/// not occur exactly once.
fn group_errors(cells: &[u8]) -> u64 {
    let mut occurrence = [0u32; 9];
    let mut error = 0;
    for &c in cells {
        if c > 0 && c < 10 {
            occurrence[(c - 1) as usize] += 1;
        } else {
            error += 1;
        }
    }
    error + occurrence.iter().filter(|&&n| n != 1).count() as u64
}

impl Individual for Sudoku {
    fn mutate(&mut self) {
        let mut rng = rand::thread_rng();
        let mut index: usize = rng.gen_range(0..81);
        while UNSOLVED_SUDOKU[index] != 0 {
            index = rng.gen_range(0..81);
        }
        self.solved[index] = rng.gen_range(1..10);
    }

    fn calculate_fitness(&self) -> u64 {
        let mut result = 0;
        for i in 0..9 {
            let row: Vec<u8> = (0..9).map(|c| self.solved[i * 9 + c]).collect();
            let col: Vec<u8> = (0..9).map(|r| self.solved[r * 9 + i]).collect();
            let (br, bc) = ((i / 3) * 3, (i % 3) * 3);
            let block: Vec<u8> = (0..9).map(|k| self.solved[(br + k / 3) * 9 + bc + k % 3]).collect();
            result += group_errors(&row) + group_errors(&col) + group_errors(&block);
        }
        result
    }

    fn reset(&mut self) {
        self.solved = UNSOLVED_SUDOKU.to_vec();
    }

    fn crossover_supported() -> bool {

        false

    }


    fn can_crossover() -> bool {
        false
    }

    fn crossover(&mut self, _other: &mut Self) -> Self {
        self.clone()
    }
}

fn built<T>(result: BuilderResult<T>) -> Simulation<T> {
    match result {
        BuilderResult::Ready(sim) => sim,
        BuilderResult::LowIndividuals => panic!("too few individuals"),
        BuilderResult::LowIterration => panic!("too few iterations"),
        BuilderResult::InvalidSelector => panic!("invalid selector"),
    }
}

fn best_of<T>(sim: &Simulation<T>) -> u64 {
    sim.fittest.as_ref().unwrap().fitness
}

fn all_sorted<T>(sim: &Simulation<T>) -> bool {
    sim.habitat.iter().all(|p| p.population.windows(2).all(|w| w[0].fitness <= w[1].fitness))
}

#[test]
fn too_few_individuals_is_refused() {
    let result = SimulationBuilder::new().individuals(2).one_individual(Countdown { value: 5 }).finalize();
    assert!(matches!(result, BuilderResult::LowIndividuals));
}

#[test]
fn too_few_iterations_is_refused() {
    let result = SimulationBuilder::new().iterations(5).one_individual(Countdown { value: 5 }).finalize();
    assert!(matches!(result, BuilderResult::LowIterration));
}

#[test]
fn no_population_is_refused() {
    let result = SimulationBuilder::<Countdown>::new().finalize();
    assert!(matches!(result, BuilderResult::LowIndividuals));
}

#[test]
fn unsuitable_selector_is_refused() {
    let result = SimulationBuilder::new().individuals(4).selector(4).one_individual(Countdown { value: 5 }).finalize();
    assert!(matches!(result, BuilderResult::InvalidSelector));
    let result = SimulationBuilder::new().selector(3).one_individual(Countdown { value: 5 }).finalize();
    assert!(matches!(result, BuilderResult::InvalidSelector));
}

#[test]
fn builder_records_the_configuration() {
    let sim = built(
        SimulationBuilder::new()
            .fittness(7)
            .threads(4)
            .output_new_fittest(false)
            .random_fittest()
            .initial_population_num_mut(vec![(Countdown { value: 1 }, 4), (Countdown { value: 2 }, 5), (Countdown { value: 3 }, 6)])
            .initial_population(vec![Countdown { value: 9 }; 5])
            .increasing_mutation_rate()
            .reset_limit(10, 100, 10)
            .finalize(),
    );
    assert_eq!(sim.type_of_simulation, SimulationType::EndFittness(7));
    assert_eq!(sim.type_of_fittest, FittestType::RandomFittest);
    assert_eq!(sim.num_of_threads, 4);
    assert!(!sim.output_new_fittest);
    assert_eq!(sim.habitat.len(), 2);
    let first: Vec<u32> = sim.habitat[0].population.iter().map(|w| w.num_of_mutations).collect();
    assert_eq!(first, vec![4, 5, 6]);
    let second: Vec<u32> = sim.habitat[1].population.iter().map(|w| w.num_of_mutations).collect();
    assert_eq!(second, vec![1, 2, 3, 4, 5]);
    assert_eq!(sim.habitat[1].reset_limit, 10);
    assert_eq!(sim.habitat[1].reset_limit_end, 100);
    assert_eq!(sim.habitat[0].reset_limit_end, 0);
    assert_eq!(sim.habitat[1].id, 1);
}

#[test]
fn iteration_bounded_run_takes_exactly_that_many_generations() {
    let mut sim = built(
        SimulationBuilder::new().iterations(12).individuals(5).one_individual(Countdown { value: 100 }).finalize(),
    );
    assert!(sim.run().is_ok());
    assert_eq!(sim.iteration_counter, 12);
    assert_eq!(sim.original_fitness, 100);
    // one step per generation, shared with every slot
    assert_eq!(best_of(&sim), 88);
    assert_eq!(sim.improvement_factor, Factor { numerator: 88, denominator: 100 });
    assert!(all_sorted(&sim));
}

#[test]
fn fitness_bounded_run_stops_at_the_target() {
    let mut sim = built(
        SimulationBuilder::new().fittness(90).individuals(4).local_fittest().one_individual(Countdown { value: 100 }).finalize(),
    );
    assert!(sim.run().is_ok());
    assert_eq!(best_of(&sim), 90);
    assert_eq!(sim.iteration_counter, 10);
}

#[test]
fn factor_bounded_run_stops_at_the_ratio() {
    let mut sim = built(
        SimulationBuilder::new()
            .factor(Factor { numerator: 3, denominator: 4 })
            .individuals(3)
            .one_individual_num_mut(Countdown { value: 100 }, 5)
            .finalize(),
    );
    assert!(sim.run().is_ok());
    assert_eq!(best_of(&sim), 75);
    assert_eq!(sim.iteration_counter, 5);
    assert_eq!(sim.improvement_factor, Factor { numerator: 75, denominator: 100 });
}

#[test]
fn global_fittest_fills_all_but_the_last_slots() {
    let mut sim = built(
        SimulationBuilder::new()
            .iterations(10)
            .initial_population_num_mut(vec![(Countdown { value: 50 }, 1); 3])
            .initial_population_num_mut(vec![(Countdown { value: 50 }, 2); 3])
            .finalize(),
    );
    assert!(sim.run().is_ok());
    assert_eq!(best_of(&sim), 30);
    for p in &sim.habitat {
        assert_eq!(p.population[0].fitness, 30);
        assert_eq!(p.population[1].fitness, 30);
    }
    assert!(sim.habitat[1].fitness_counter >= 1);
}

#[test]
fn best_never_gets_worse_under_every_policy() {
    let builders = vec![
        SimulationBuilder::new().global_fittest(),
        SimulationBuilder::new().local_fittest(),
        SimulationBuilder::new().random_fittest(),
    ];
    for b in builders {
        let mut sim = built(
            b.iterations(10)
                .initial_population((0..8).map(|i| Countdown { value: 40 + i }).collect())
                .initial_population((0..8).map(|i| Countdown { value: 60 + i }).collect())
                .finalize(),
        );
        assert!(sim.run().is_ok());
        let mut best = best_of(&sim);
        for _ in 0..15 {
            assert!(sim.run_generation().is_ok());
            assert!(best_of(&sim) <= best);
            best = best_of(&sim);
            for p in &sim.habitat {
                assert!(p.population.iter().all(|w| w.fitness >= best));
            }
        }
    }
}

#[test]
fn improvement_factor_lies_in_the_unit_interval() {
    let mut sim = built(
        SimulationBuilder::new().iterations(10).individuals(6).random_fittest().one_individual(Countdown { value: 80 }).finalize(),
    );
    assert!(sim.run().is_ok());
    let f = sim.improvement_factor;
    assert_eq!(f.denominator, 80);
    assert!(f.numerator > 0 && f.numerator <= f.denominator);
    assert!(f.at_most(&Factor { numerator: 1, denominator: 1 }));
}

#[test]
fn factors_compare_as_ratios() {
    let half = Factor { numerator: 1, denominator: 2 };
    let three_sixths = Factor { numerator: 3, denominator: 6 };
    let two_thirds = Factor { numerator: 2, denominator: 3 };
    assert!(half.at_most(&three_sixths));
    assert!(three_sixths.at_most(&half));
    assert!(half.at_most(&two_thirds));
    assert!(!two_thirds.at_most(&half));
    let huge = Factor { numerator: u64::MAX, denominator: 1 };
    assert!(!huge.at_most(&Factor { numerator: u64::MAX - 1, denominator: 1 }));
}

#[test]
fn elapsed_time_in_milliseconds() {
    assert_eq!(elapsed_ms(1_000_000, 4_500_000), 3);
    assert_eq!(elapsed_ms(5, 5), 0);
    assert_eq!(elapsed_ms(10_000_000, 1), 0);
}

#[test]
fn sudoku_run_improves_on_the_baseline() {
    let start = Sudoku { solved: UNSOLVED_SUDOKU.to_vec() };
    let baseline = start.calculate_fitness();
    let target = baseline / 2;
    let mut sim = built(
        SimulationBuilder::new()
            .fittness(target)
            .threads(2)
            .individuals(100)
            .global_fittest()
            .one_individual(start.clone())
            .increasing_mutation_rate()
            .one_individual(start)
            .finalize(),
    );
    assert!(sim.run().is_ok());
    assert_eq!(sim.original_fitness, baseline);
    assert!(sim.iteration_counter <= 20000);
    assert!(best_of(&sim) <= target);
    assert!(best_of(&sim) < baseline);
    assert!(all_sorted(&sim));
}

/// Breeds children whose value is the mean of the parents'.
#[derive(Clone, Debug)]
struct Breeder {
    value: u64,
}

impl Individual for Breeder {
    fn mutate(&mut self) {
        if self.value > 0 {
            self.value -= 1;
        }
    }

    fn calculate_fitness(&self) -> u64 {
        self.value
    }

    fn reset(&mut self) {
        self.value = 100;
    }

    fn crossover_supported() -> bool {
        true
    }

    fn can_crossover() -> bool {
        true
    }

    fn crossover(&mut self, other: &mut Self) -> Self {
        Breeder { value: (self.value + other.value) / 2 }
    }
}

#[test]
fn placing_the_fittest_counts_slots_across_populations() {
    let mut sim = built(
        SimulationBuilder::new()
            .iterations(10)
            .initial_population((0..3).map(|i| Countdown { value: 10 + i }).collect())
            .initial_population((0..4).map(|i| Countdown { value: 20 + i }).collect())
            .finalize(),
    );
    assert!(sim.run().is_ok());
    let before: Vec<Vec<u64>> = sim.habitat.iter().map(|p| p.population.iter().map(|w| w.fitness).collect()).collect();
    let best = best_of(&sim);
    // position 4 is the second slot of the second population
    sim.place_fittest_at(4);
    for (q, p) in sim.habitat.iter().enumerate() {
        for (s, w) in p.population.iter().enumerate() {
            if q == 1 && s == 1 {
                assert_eq!(w.fitness, best);
                assert_eq!(w.individual.value, best);
            } else {
                assert_eq!(w.fitness, before[q][s]);
            }
        }
    }
}

#[test]
fn run_with_crossover_succeeds_when_the_selector_fits() {
    let mut sim = built(
        SimulationBuilder::new()
            .iterations(10)
            .selector(2)
            .initial_population((0..5).map(|i| Breeder { value: 50 + 3 * i }).collect())
            .finalize(),
    );
    assert!(sim.run().is_ok());
    assert_eq!(sim.iteration_counter, 10);
    assert!(best_of(&sim) <= 40);
    assert!(all_sorted(&sim));
}

#[test]
fn run_with_crossover_fails_when_the_selector_does_not_fit() {
    let mut sim = built(
        SimulationBuilder::new()
            .iterations(10)
            .initial_population((0..5).map(|i| Breeder { value: 50 + i }).collect())
            .finalize(),
    );
    // a count the builder would have refused
    sim.selector = darwin::MaximizeSelector::new(6);
    assert!(sim.run().is_err());
    assert_eq!(sim.iteration_counter, 0);
    assert!(all_sorted(&sim));
}

#[test]
fn run_without_crossover_ignores_the_selector() {
    let mut sim = built(
        SimulationBuilder::new().iterations(10).individuals(5).one_individual(Countdown { value: 30 }).finalize(),
    );
    sim.selector = darwin::MaximizeSelector::new(7);
    assert!(sim.run().is_ok());
    assert_eq!(best_of(&sim), 20);
}
