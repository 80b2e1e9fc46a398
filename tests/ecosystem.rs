use ecosystem::{Ecosystem, EcosystemError, Organism};

/// An organism with a fixed score that breeds as itself.
#[derive(Debug, Clone, PartialEq)]
struct Fixed {
    score: u64,
}

impl Organism for Fixed {
    type Rate = f64;

    fn spec_fitness(&self) -> u64 {
        self.score
    }

    fn spec_breed(&self, other: &Self) -> Self {
        self.breed(other)
    }

    fn spec_mutated(&self, from: Self, _rate: f64) -> bool {
        *self == from
    }

    fn fitness(&self) -> u64 {
        self.score
    }

    fn breed(&self, _other: &Self) -> Self {
        self.clone()
    }

    fn mutate(&mut self, _rate: &f64) {}
}

/// An organism whose child averages its parents and whose mutation adds the rate.
#[derive(Debug, Clone, PartialEq)]
struct Counter {
    value: u64,
}

impl Organism for Counter {
    type Rate = u64;

    fn spec_fitness(&self) -> u64 {
        self.value
    }

    fn spec_breed(&self, other: &Self) -> Self {
        self.breed(other)
    }

    fn spec_mutated(&self, from: Self, rate: u64) -> bool {
        self.value == from.value + rate
    }

    fn fitness(&self) -> u64 {
        self.value
    }

    fn breed(&self, other: &Self) -> Self {
        Counter { value: (self.value + other.value) / 2 }
    }

    fn mutate(&mut self, rate: &u64) {
        self.value += *rate;
    }
}

fn fixed(scores: &[u64]) -> Vec<Fixed> {
    scores.iter().map(|&score| Fixed { score }).collect()
}

#[test]
fn empty_population_is_refused() {
    let r = Ecosystem::<Fixed>::new(Vec::new());
    assert!(matches!(r, Err(EcosystemError::Empty)));
}

#[test]
fn new_population_starts_at_generation_zero() {
    let eco = Ecosystem::new(fixed(&[2, 7, 1])).unwrap();
    assert_eq!(eco.generation(), 0);
    assert_eq!(eco.organisms(), &fixed(&[2, 7, 1]));
}

#[test]
fn generation_counts_each_advance() {
    let mut eco = Ecosystem::new(fixed(&[3, 1, 4, 1, 5])).unwrap();
    for g in 1..=5u32 {
        assert_eq!(eco.breed_next_generation(&0.5), Ok(()));
        assert_eq!(eco.generation(), g);
        assert_eq!(eco.organisms().len(), 5);
    }
}

#[test]
fn fittest_is_the_greatest() {
    let eco = Ecosystem::new(fixed(&[4, 3, 9, 2, 1])).unwrap();
    assert_eq!(eco.fittest().score, 9);
    assert_eq!(eco.fittest_index(), 2);
}

#[test]
fn fittest_prefers_the_first_of_equals() {
    let eco = Ecosystem::new(fixed(&[1, 5, 3, 5])).unwrap();
    assert_eq!(eco.fittest_index(), 1);
    let eco = Ecosystem::new(fixed(&[0, 0, 0])).unwrap();
    assert_eq!(eco.fittest_index(), 0);
}

#[test]
fn four_fixed_organisms_one_generation() {
    let mut eco = Ecosystem::new(fixed(&[4, 3, 2, 1])).unwrap();
    let before = eco.organisms().clone();
    assert_eq!(eco.fittest().score, 4);
    assert_eq!(eco.fittest().score, 4);
    assert_eq!(eco.organisms(), &before);
    assert_eq!(eco.generation(), 0);
    assert_eq!(eco.breed_next_generation(&0.0), Ok(()));
    assert_eq!(eco.organisms().len(), 4);
    assert_eq!(eco.generation(), 1);
    let after = eco.organisms().clone();
    let best = eco.fittest().score;
    assert_eq!(eco.fittest().score, best);
    assert_eq!(eco.organisms(), &after);
    for o in eco.organisms() {
        assert!((1..=4).contains(&o.score));
    }
}

#[test]
fn lone_organism_breeds_with_itself() {
    let mut eco = Ecosystem::new(vec![Counter { value: 5 }]).unwrap();
    assert_eq!(eco.breed_next_generation(&2), Ok(()));
    assert_eq!(eco.organisms(), &vec![Counter { value: 7 }]);
    assert_eq!(eco.generation(), 1);
}

#[test]
fn children_are_bred_and_mutated() {
    let mut eco = Ecosystem::new(vec![Counter { value: 10 }; 6]).unwrap();
    assert_eq!(eco.breed_next_generation(&3), Ok(()));
    assert_eq!(eco.organisms(), &vec![Counter { value: 13 }; 6]);
    assert_eq!(eco.breed_next_generation(&1), Ok(()));
    assert_eq!(eco.organisms(), &vec![Counter { value: 14 }; 6]);
    assert_eq!(eco.generation(), 2);
}

#[test]
fn zero_fitness_everywhere_is_an_error() {
    let mut eco = Ecosystem::new(fixed(&[0, 0])).unwrap();
    assert_eq!(eco.select_suitable_organism(), Err(EcosystemError::NoFitness));
    assert_eq!(eco.breed_next_generation(&0.1), Err(EcosystemError::NoFitness));
    assert_eq!(eco.generation(), 0);
    assert_eq!(eco.organisms(), &fixed(&[0, 0]));
    assert_eq!(eco.offspring(&0.1), None);
}

#[test]
fn selection_never_takes_a_zero_fitness_organism() {
    let eco = Ecosystem::new(fixed(&[0, 5, 0, 0])).unwrap();
    for _ in 0..500 {
        assert_eq!(eco.select_suitable_organism(), Ok(1));
    }
}

#[test]
fn selection_is_proportionate_to_fitness() {
    let eco = Ecosystem::new(fixed(&[10, 1, 1, 1])).unwrap();
    let draws = 20000;
    let mut high = 0;
    for _ in 0..draws {
        if eco.select_suitable_organism().unwrap() == 0 {
            high += 1;
        }
    }
    let share = high as f64 / draws as f64;
    assert!(share > 0.72 && share < 0.82, "share {}", share);
}

#[test]
fn selection_reaches_every_organism_of_equal_fitness() {
    let eco = Ecosystem::new(fixed(&[3, 3, 3])).unwrap();
    let mut seen = [false; 3];
    for _ in 0..600 {
        let i = eco.select_suitable_organism().unwrap();
        assert!(i < 3);
        seen[i] = true;
    }
    assert_eq!(seen, [true, true, true]);
}

#[test]
fn evenly_fit_population_always_advances() {
    let mut eco = Ecosystem::new(fixed(&[2, 2, 2, 2, 2, 2, 2, 2])).unwrap();
    for _ in 0..20 {
        assert_eq!(eco.breed_next_generation(&1.0), Ok(()));
    }
    assert_eq!(eco.organisms(), &fixed(&[2, 2, 2, 2, 2, 2, 2, 2]));
    assert_eq!(eco.generation(), 20);
}

#[test]
fn advancing_twice_keeps_size_and_counts_two() {
    let mut eco = Ecosystem::new(fixed(&[9, 1, 1, 1, 1, 1])).unwrap();
    assert_eq!(eco.breed_next_generation(&0.2), Ok(()));
    assert_eq!(eco.breed_next_generation(&0.2), Ok(()));
    assert_eq!(eco.organisms().len(), 6);
    assert_eq!(eco.generation(), 2);
}

#[test]
fn acceptance_needs_fitness_above_the_threshold() {
    let eco = Ecosystem::new(fixed(&[4, 0, 7])).unwrap();
    assert!(eco.is_accepted(0, 3));
    assert!(!eco.is_accepted(0, 4));
    assert!(!eco.is_accepted(0, 5));
    assert!(!eco.is_accepted(1, 0));
    assert!(eco.is_accepted(2, 6));
    assert!(!eco.is_accepted(2, 7));
}

#[test]
fn offspring_of_a_fit_population() {
    let eco = Ecosystem::new(vec![Counter { value: 8 }, Counter { value: 8 }]).unwrap();
    assert_eq!(eco.offspring(&1), Some(Counter { value: 9 }));
    assert_eq!(eco.organisms(), &vec![Counter { value: 8 }, Counter { value: 8 }]);
}

#[test]
fn advancing_the_same_population_twice_may_differ() {
    let start = fixed(&[1, 2, 3, 4, 5, 6, 7, 8, 9, 10]);
    let mut differed = false;
    for _ in 0..20 {
        let mut a = Ecosystem::new(start.clone()).unwrap();
        let mut b = Ecosystem::new(start.clone()).unwrap();
        assert_eq!(a.breed_next_generation(&0.0), Ok(()));
        assert_eq!(b.breed_next_generation(&0.0), Ok(()));
        if a.organisms() != b.organisms() {
            differed = true;
            break;
        }
    }
    assert!(differed);
}

#[test]
fn first_accepted_draw_wins() {
    let eco = Ecosystem::new(fixed(&[4, 0, 7])).unwrap();
    assert_eq!(eco.first_accepted(&vec![(1, 0), (0, 5), (2, 6), (0, 1)]), Some(2));
    assert_eq!(eco.first_accepted(&vec![(0, 3), (2, 0)]), Some(0));
    assert_eq!(eco.first_accepted(&vec![(5, 0), (1, 0), (2, 9)]), None);
    assert_eq!(eco.first_accepted(&vec![]), None);
}

#[test]
fn copies_without_mutation_never_raise_the_best() {
    let mut eco = Ecosystem::new(fixed(&[4, 3, 2, 1])).unwrap();
    for _ in 0..10 {
        let before = eco.fittest().score;
        assert_eq!(eco.breed_next_generation(&0.0), Ok(()));
        assert!(eco.fittest().score <= before);
        for o in eco.organisms() {
            assert!((1..=4).contains(&o.score));
        }
    }
}
