//! The capability that a candidate solution offers to the engine.
use vstd::prelude::*;

verus! {

/// An interface for breeding, mutation, and fitness evaluation functionality.
///
/// Fitness is a non-negative integer score; higher is better. A problem whose
/// natural score is negative or fractional scales and shifts it into this
/// range (say `1/diff` as the rounded value of `1_000_000 / diff`).
pub trait Organism: Sized {
    /// The type of the rate handed to `mutate`.
    type Rate;

    /// The fitness score of the organism, as a mathematical value. Outside
    /// verified code this and the other `spec_` methods are ordinary methods
    /// that are never called; they may state the same as their executable
    /// counterparts.
    spec fn spec_fitness(&self) -> u64;

    /// Evaluates the organism's fitness.
    fn fitness(&self) -> (r: u64)
        ensures
            r == self.spec_fitness(),
    ;

    /// The child that breeding the organism with `other` gives.
    spec fn spec_breed(&self, other: &Self) -> Self;

    /// Whether the organism is a possible outcome of mutating `from` at
    /// `rate`.
    spec fn spec_mutated(&self, from: Self, rate: Self::Rate) -> bool;

    /// Creates a new child by breeding the organism with another.
    fn breed(&self, other: &Self) -> (r: Self)
        ensures
            r == self.spec_breed(other),
    ;

    /// Modifies (or *mutates*) the organism, based on the given rate.
    fn mutate(&mut self, rate: &Self::Rate)
        ensures
            final(self).spec_mutated(*old(self), *rate),
    ;
}

/// The greatest fitness in `s`, or 0 for an empty sequence.
pub open spec fn max_fitness<O: Organism>(s: Seq<O>) -> u64
    decreases s.len(),
{
    if s.len() == 0 {
        0
    } else {
        let rest = max_fitness(s.drop_last());
        let last = s.last().spec_fitness();
        if rest < last {
            last
        } else {
            rest
        }
    }
}

/// Whether `i` indexes the first organism of `s` whose fitness no other
/// organism of `s` exceeds.
pub open spec fn is_fittest_at<O: Organism>(s: Seq<O>, i: int) -> bool {
    &&& 0 <= i < s.len()
    &&& forall|j: int| 0 <= j < s.len() ==> #[trigger] s[j].spec_fitness() <= s[i].spec_fitness()
    &&& forall|j: int| 0 <= j < i ==> #[trigger] s[j].spec_fitness() < s[i].spec_fitness()
}

/// No organism of `s` is fitter than `max_fitness(s)`, and a non-empty `s`
/// holds one as fit.
pub proof fn lemma_max_fitness<O: Organism>(s: Seq<O>)
    ensures
        forall|j: int| 0 <= j < s.len() ==> #[trigger] s[j].spec_fitness() <= max_fitness(s),
        s.len() > 0 ==> exists|j: int| 0 <= j < s.len() && #[trigger] s[j].spec_fitness() == max_fitness(s),
    decreases s.len(),
{
    if s.len() > 0 {
        let p = s.drop_last();
        lemma_max_fitness(p);
        assert forall|j: int| 0 <= j < s.len() implies #[trigger] s[j].spec_fitness() <= max_fitness(s) by {
            if j < p.len() {
                assert(s[j] == p[j]);
            }
        }
        if p.len() > 0 && max_fitness(p) >= s.last().spec_fitness() {
            let k = choose|k: int| 0 <= k < p.len() && #[trigger] p[k].spec_fitness() == max_fitness(p);
            assert(s[k] == p[k]);
        } else {
            assert(s[s.len() - 1].spec_fitness() == max_fitness(s));
        }
    }
}

/// The fittest organism, first of its fitness, has the greatest fitness.
pub proof fn lemma_fittest_is_max<O: Organism>(s: Seq<O>, i: int)
    requires
        is_fittest_at(s, i),
    ensures
        s[i].spec_fitness() == max_fitness(s),
{
    lemma_max_fitness(s);
    let k = choose|k: int| 0 <= k < s.len() && #[trigger] s[k].spec_fitness() == max_fitness(s);
    assert(s[k].spec_fitness() <= s[i].spec_fitness());
}

} // verus!
