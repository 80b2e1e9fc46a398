//! A population of organisms, evolved one generation at a time.
use crate::organism::{is_fittest_at, lemma_fittest_is_max, lemma_max_fitness, max_fitness, Organism};
use crate::random::random_below;
use rayon::iter::{IntoParallelIterator, ParallelIterator};
use vstd::prelude::*;

verus! {

/// Rounds of stochastic acceptance, each of one draw per organism of the
/// population, that a selection makes before it takes the fittest organism.
/// Each draw is accepted with probability at least one over the population
/// size, so this fallback is taken with probability below `e^-64`.
pub const SELECTION_ROUNDS: u64 = 64;

/// Why an ecosystem could not be built or advanced.
#[derive(Debug, Clone, Copy, PartialEq, Eq, Structural)]
pub enum EcosystemError {
    /// An ecosystem needs at least one organism.
    Empty,
    /// Every organism has fitness 0, so no draw can ever be accepted.
    NoFitness,
    /// The generation number has reached `u32::MAX` and cannot advance.
    GenerationLimit,
}

/// Whether a drawn organism of the given fitness is accepted against the
/// given drawn threshold.
pub open spec fn accepts(fitness: u64, threshold: u64) -> bool {
    fitness > threshold
}

/// Whether a draw of an index and a threshold picks an organism of `s` and
/// that organism is accepted against the threshold.
pub open spec fn draw_accepted<O: Organism>(s: Seq<O>, d: (usize, u64)) -> bool {
    d.0 < s.len() && accepts(s[d.0 as int].spec_fitness(), d.1)
}

/// Whether the organism at `i` of `s` is accepted against some threshold
/// below the best fitness of `s`.
pub open spec fn acceptable<O: Organism>(s: Seq<O>, i: int) -> bool {
    exists|t: u64| t < max_fitness(s) && #[trigger] accepts(s[i].spec_fitness(), t)
}

/// Whether `c` is a child of two acceptable organisms of `s`, mother and
/// father (possibly the same), bred and then mutated at `rate`.
pub open spec fn is_offspring<O: Organism>(s: Seq<O>, c: O, rate: O::Rate) -> bool {
    exists|m: int, f: int|
        0 <= m < s.len() && 0 <= f < s.len() && acceptable(s, m) && acceptable(s, f)
            && #[trigger] c.spec_mutated(s[m].spec_breed(&s[f]), rate)
}

/// A lone organism is replaced by its child of breeding with itself,
/// mutated.
pub proof fn lemma_lone_offspring<O: Organism>(s: Seq<O>, c: O, rate: O::Rate)
    requires
        s.len() == 1,
        is_offspring(s, c, rate),
    ensures
        c.spec_mutated(s[0].spec_breed(&s[0]), rate),
{
}

/// Where breeding copies the mother and mutation changes nothing, every
/// child is an organism of the parents' population, and the best fitness
/// does not rise.
pub proof fn lemma_no_variation<O: Organism>(s: Seq<O>, next: Seq<O>, rate: O::Rate)
    requires
        forall|a: O, b: O| #[trigger] a.spec_breed(&b) == a,
        forall|c: O, from: O| #[trigger] c.spec_mutated(from, rate) ==> c == from,
        forall|k: int| 0 <= k < next.len() ==> is_offspring(s, #[trigger] next[k], rate),
    ensures
        forall|k: int| 0 <= k < next.len() ==> s.contains(#[trigger] next[k]),
        max_fitness(next) <= max_fitness(s),
{
    assert forall|k: int| 0 <= k < next.len() implies s.contains(#[trigger] next[k]) by {
        assert(is_offspring(s, next[k], rate));
        let (m, f) = choose|m: int, f: int|
            0 <= m < s.len() && 0 <= f < s.len() && acceptable(s, m) && acceptable(s, f)
                && #[trigger] next[k].spec_mutated(s[m].spec_breed(&s[f]), rate);
        assert(s[m].spec_breed(&s[f]) == s[m]);
        assert(next[k] == s[m]);
    }
    lemma_max_fitness(s);
    lemma_max_fitness(next);
    if next.len() > 0 {
        let j = choose|j: int| 0 <= j < next.len() && #[trigger] next[j].spec_fitness() == max_fitness(next);
        assert(s.contains(next[j]));
        let i = choose|i: int| 0 <= i < s.len() && s[i] == next[j];
        assert(s[i].spec_fitness() <= max_fitness(s));
    }
}

/// A collection of organisms.
pub struct Ecosystem<O: Organism> {
    organisms: Vec<O>,
    generation: u32,
}

impl<O: Organism> Ecosystem<O> {
    #[verifier::type_invariant]
    spec fn nonempty(&self) -> bool {
        self.organisms@.len() > 0
    }

    /// The organisms, in order.
    pub closed spec fn population(&self) -> Seq<O> {
        self.organisms@
    }

    /// The current generation number.
    pub closed spec fn spec_generation(&self) -> u32 {
        self.generation
    }

    /// Creates a new ecosystem with the given organisms, at generation 0.
    pub fn new(organisms: Vec<O>) -> (r: Result<Self, EcosystemError>)
        ensures
            organisms@.len() == 0 <==> r == Err::<Self, EcosystemError>(EcosystemError::Empty),
            organisms@.len() > 0 <==> r is Ok,
            r matches Ok(e) ==> e.population() == organisms@ && e.spec_generation() == 0,
    {
        if organisms.len() == 0 {
            Err(EcosystemError::Empty)
        } else {
            Ok(Ecosystem { organisms, generation: 0 })
        }
    }

    /// The organisms, in order; there is always at least one.
    pub fn organisms(&self) -> (r: &Vec<O>)
        ensures
            r@ == self.population(),
            r@.len() > 0,
    {
        proof {
            use_type_invariant(self);
        }
        &self.organisms
    }

    /// The current generation number.
    pub fn generation(&self) -> (r: u32)
        ensures
            r == self.spec_generation(),
    {
        self.generation
    }

    /// The index of the first organism whose fitness no other exceeds.
    pub fn fittest_index(&self) -> (r: usize)
        ensures
            is_fittest_at(self.population(), r as int),
    {
        proof {
            use_type_invariant(self);
        }
        let n = self.organisms.len();
        let mut best: usize = 0;
        let mut best_fitness: u64 = self.organisms[0].fitness();
        let mut k: usize = 1;
        while k < n
            invariant
                n == self.organisms@.len(),
                1 <= k <= n,
                best < k,
                best_fitness == self.organisms@[best as int].spec_fitness(),
                forall|j: int| 0 <= j < k ==> #[trigger] self.organisms@[j].spec_fitness() <= best_fitness,
                forall|j: int| 0 <= j < best ==> #[trigger] self.organisms@[j].spec_fitness() < best_fitness,
            decreases n - k,
        {
            let f = self.organisms[k].fitness();
            if f > best_fitness {
                best = k;
                best_fitness = f;
            }
            k += 1;
        }
        best
    }

    /// Returns the organism in the ecosystem with the highest fitness; of
    /// equally fit ones, the first.
    pub fn fittest(&self) -> (r: &O)
        ensures
            exists|i: int| is_fittest_at(self.population(), i) && *r == self.population()[i],
            r.spec_fitness() == max_fitness(self.population()),
    {
        let i = self.fittest_index();
        proof {
            lemma_fittest_is_max(self.population(), i as int);
        }
        &self.organisms[i]
    }

    /// One round of stochastic acceptance on given draws: whether the
    /// organism at `index` is accepted against `threshold`.
    pub fn is_accepted(&self, index: usize, threshold: u64) -> (r: bool)
        requires
            index < self.population().len(),
        ensures
            r == accepts(self.population()[index as int].spec_fitness(), threshold),
    {
        self.organisms[index].fitness() > threshold
    }

    /// The organism that a sequence of draws selects: the index of the first
    /// draw whose organism is accepted against its threshold, or `None` when
    /// no draw is accepted. A draw whose index is out of range is not
    /// accepted.
    pub fn first_accepted(&self, draws: &Vec<(usize, u64)>) -> (r: Option<usize>)
        ensures
            r is None <==> forall|j: int| 0 <= j < draws@.len() ==> !draw_accepted(self.population(), #[trigger] draws@[j]),
            r matches Some(i) ==> exists|j: int|
                0 <= j < draws@.len() && #[trigger] draws@[j].0 == i && draw_accepted(self.population(), draws@[j])
                    && forall|k: int| 0 <= k < j ==> !draw_accepted(self.population(), #[trigger] draws@[k]),
    {
        let mut j: usize = 0;
        while j < draws.len()
            invariant
                j <= draws@.len(),
                forall|k: int| 0 <= k < j ==> !draw_accepted(self.population(), #[trigger] draws@[k]),
            decreases draws@.len() - j,
        {
            let (i, t) = draws[j];
            if i < self.organisms.len() && self.is_accepted(i, t) {
                assert(draws@[j as int].0 == i && draw_accepted(self.population(), draws@[j as int]));
                return Some(i);
            }
            j += 1;
        }
        None
    }

    /// Selects the index of an organism that is suitable for breeding, by
    /// stochastic acceptance: an organism drawn uniformly is accepted when
    /// its fitness exceeds a threshold drawn uniformly below the best
    /// fitness. After `SELECTION_ROUNDS` rounds of one draw per organism
    /// without an acceptance, the fittest organism is taken.
    pub fn select_suitable_organism(&self) -> (r: Result<usize, EcosystemError>)
        ensures
            r matches Ok(i) ==> i < self.population().len() && acceptable(self.population(), i as int),
            max_fitness(self.population()) == 0 <==> r == Err::<usize, EcosystemError>(EcosystemError::NoFitness),
            max_fitness(self.population()) > 0 <==> r is Ok,
    {
        proof {
            use_type_invariant(self);
        }
        let best = self.fittest().fitness();
        if best == 0 {
            return Err(EcosystemError::NoFitness);
        }
        let n = self.organisms.len();
        let mut round: u64 = 0;
        while round < SELECTION_ROUNDS
            invariant
                n == self.organisms@.len(),
                n > 0,
                best == max_fitness(self.population()),
                best > 0,
            decreases SELECTION_ROUNDS - round,
        {
            let mut draws: Vec<(usize, u64)> = Vec::new();
            let mut k: usize = 0;
            while k < n
                invariant
                    n == self.organisms@.len(),
                    best > 0,
                    k <= n,
                    draws@.len() == k,
                    forall|j: int| 0 <= j < k ==> (#[trigger] draws@[j]).1 < best,
                decreases n - k,
            {
                let i = random_below(n as u64) as usize;
                let t = random_below(best);
                draws.push((i, t));
                k += 1;
            }
            if let Some(i) = self.first_accepted(&draws) {
                proof {
                    let j = choose|j: int|
                        0 <= j < draws@.len() && #[trigger] draws@[j].0 == i && draw_accepted(self.population(), draws@[j])
                            && forall|k: int| 0 <= k < j ==> !draw_accepted(self.population(), #[trigger] draws@[k]);
                    assert(accepts(self.population()[i as int].spec_fitness(), draws@[j].1));
                }
                return Ok(i);
            }
            round += 1;
        }
        let i = self.fittest_index();
        proof {
            lemma_fittest_is_max(self.population(), i as int);
            assert(accepts(self.population()[i as int].spec_fitness(), 0));
        }
        Ok(i)
    }

    /// Breeds one child of two selected parents, mother and father, which
    /// may be the same organism, and mutates it at `rate`. The parents are
    /// left as they are. `None` when every organism has fitness 0.
    pub fn offspring(&self, rate: &O::Rate) -> (r: Option<O>)
        ensures
            max_fitness(self.population()) == 0 <==> r is None,
            r matches Some(c) ==> is_offspring(self.population(), c, *rate),
    {
        let mother = match self.select_suitable_organism() {
            Ok(i) => i,
            Err(_) => {
                return None;
            },
        };
        let father = match self.select_suitable_organism() {
            Ok(i) => i,
            Err(_) => {
                return None;
            },
        };
        let mut child = self.organisms[mother].breed(&self.organisms[father]);
        let ghost bred = child;
        child.mutate(rate);
        proof {
            let s = self.population();
            assert(bred == s[mother as int].spec_breed(&s[father as int]));
            assert(child.spec_mutated(s[mother as int].spec_breed(&s[father as int]), *rate));
        }
        Some(child)
    }
}

impl<O: Organism + Send + Sync> Ecosystem<O> where O::Rate: Sync {
    /// Creates the next generation of organisms through the breeding of
    /// suitable organisms, one child per organism, and moves on to the next
    /// generation number. Fails, changing nothing, when the generation
    /// number is at its limit or every organism has fitness 0.
    pub fn breed_next_generation(&mut self, mutation_rate: &O::Rate) -> (r: Result<(), EcosystemError>)
        ensures
            final(self).population().len() == old(self).population().len(),
            old(self).spec_generation() == u32::MAX <==> r == Err::<(), EcosystemError>(
                EcosystemError::GenerationLimit,
            ),
            old(self).spec_generation() < u32::MAX && max_fitness(old(self).population()) == 0 <==> r
                == Err::<(), EcosystemError>(EcosystemError::NoFitness),
            old(self).spec_generation() < u32::MAX && max_fitness(old(self).population()) > 0 <==> r is Ok,
            r is Err ==> *final(self) == *old(self),
            r is Ok ==> final(self).population().len() == old(self).population().len()
                && final(self).spec_generation() == old(self).spec_generation() + 1,
            r is Ok ==> forall|k: int|
                0 <= k < final(self).population().len() ==> is_offspring(
                    old(self).population(),
                    #[trigger] final(self).population()[k],
                    *mutation_rate,
                ),
    {
        proof {
            use_type_invariant(&*self);
        }
        if self.generation == u32::MAX {
            return Err(EcosystemError::GenerationLimit);
        }
        if self.fittest().fitness() == 0 {
            return Err(EcosystemError::NoFitness);
        }
        match breed_all(self, mutation_rate) {
            None => Err(EcosystemError::NoFitness),
            Some(next) => {
                let generation = self.generation + 1;
                *self = Ecosystem { organisms: next, generation };
                Ok(())
            },
        }
    }
}

/// Relies on rayon: `into_par_iter` over `0..n`, `map`, and `collect` into an
/// `Option<Vec<_>>`, which is `None` when some item is `None` and otherwise
/// holds the `n` items in order. Each item is one call of
/// `Ecosystem::offspring`.
#[verifier::external_body]
fn breed_all<O: Organism + Send + Sync>(eco: &Ecosystem<O>, rate: &O::Rate) -> (r: Option<Vec<O>>)
    where
        O::Rate: Sync,
    ensures
        r matches Some(v) ==> v@.len() == eco.population().len(),
        r matches Some(v) ==> forall|k: int|
            0 <= k < v@.len() ==> is_offspring(eco.population(), #[trigger] v@[k], *rate),
        max_fitness(eco.population()) > 0 ==> r is Some,
{
    (0..eco.organisms.len()).into_par_iter().map(|_| eco.offspring(rate)).collect()
}

} // verus!
