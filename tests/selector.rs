use darwin::{Individual, MaximizeSelector, Selector};

#[derive(Clone, Debug)]
struct Test {
    f: u64,
}

impl Individual for Test {
    fn mutate(&mut self) {}

    fn calculate_fitness(&self) -> u64 {
        self.f
    }

    fn reset(&mut self) {
        self.f = 0;
    }

    fn crossover_supported() -> bool {

        false

    }


    fn can_crossover() -> bool {
        false
    }

    fn crossover(&mut self, _other: &mut Self) -> Self {
        self.clone()
    }
}

fn scored_population() -> Vec<Test> {
    (0..100).map(|i: usize| Test { f: i as u64 }).collect()
}

#[test]
fn test_count_zero() {
    let selector = MaximizeSelector::new(0);
    let population: Vec<Test> = scored_population();
    assert!(selector.select(&population).is_err());
}

#[test]
fn test_count_odd() {
    let selector = MaximizeSelector::new(5);
    let population: Vec<Test> = scored_population();
    assert!(selector.select(&population).is_err());
}

#[test]
fn test_count_too_large() {
    let selector = MaximizeSelector::new(100);
    let population: Vec<Test> = scored_population();
    assert!(selector.select(&population).is_err());
}

#[test]
fn test_result_size() {
    let selector = MaximizeSelector::new(20);
    let population: Vec<Test> = scored_population();
    assert_eq!(20, selector.select(&population).unwrap().len() * 2);
}

#[test]
fn test_result_ok() {
    let selector = MaximizeSelector::new(20);
    let population: Vec<Test> = scored_population();
    // The greatest fitness should be 99.
    assert!(selector.select(&population).unwrap()[0].0.calculate_fitness() == 99);
}

#[test]
fn test_contains_best() {
    let selector = MaximizeSelector::new(2);
    let population: Vec<Test> = scored_population();
    let parents = selector.select(&population).unwrap()[0].clone();
    let fit1 = parents.0.calculate_fitness();
    let max_fitness = population.iter().map(|i| i.calculate_fitness()).max().unwrap();
    assert_eq!(fit1, max_fitness);
}

#[test]
fn count_at_half_the_population_is_refused() {
    let selector = MaximizeSelector::new(50);
    let population: Vec<Test> = scored_population();
    assert!(selector.select(&population).is_err());
    let selector = MaximizeSelector::new(48);
    assert_eq!(selector.select(&population).unwrap().len(), 24);
}

#[test]
fn indices_are_paired_best_first_with_ties_in_order() {
    let selector = MaximizeSelector::new(4);
    let scores: Vec<u64> = vec![5, 9, 2, 9, 7, 1, 7, 0, 3];
    let pairs = selector.select_indices(&scores).unwrap();
    assert_eq!(pairs, vec![(1, 3), (4, 6)]);
}

#[test]
fn indices_refused_for_invalid_counts() {
    let scores: Vec<u64> = vec![4, 3, 2, 1, 0];
    assert!(MaximizeSelector::new(0).select_indices(&scores).is_err());
    assert!(MaximizeSelector::new(3).select_indices(&scores).is_err());
    assert!(MaximizeSelector::new(4).select_indices(&scores).is_err());
    assert_eq!(MaximizeSelector::new(2).select_indices(&scores).unwrap(), vec![(0, 1)]);
}

#[test]
fn top_ranked_lists_the_best_indices() {
    let scores: Vec<u64> = vec![1, 8, 8, 3, 9];
    assert_eq!(darwin::select::top_ranked(&scores, 3), vec![4, 1, 2]);
    assert_eq!(darwin::select::top_ranked(&scores, 0), Vec::<usize>::new());
    assert_eq!(darwin::select::top_ranked(&scores, 5), vec![4, 1, 2, 3, 0]);
}

#[test]
fn selected_pairs_follow_the_ranking() {
    let selector = MaximizeSelector::new(20);
    let population: Vec<Test> = scored_population();
    let pairs = selector.select(&population).unwrap();
    for (p, (a, b)) in pairs.iter().enumerate() {
        assert_eq!(a.f, 99 - 2 * p as u64);
        assert_eq!(b.f, 98 - 2 * p as u64);
    }
}
