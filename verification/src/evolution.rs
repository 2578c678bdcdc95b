use vstd::prelude::*;

use crate::fitness::Pareto;

verus! {

/// Something that can turn the crank of the evolutionary process once.
pub trait Epochal: Sized {
    /// One full epoch: consume the current state, return the next.
    fn evolve(self) -> Self;
}

/// Executors that develop a genotype into a phenotype.
pub trait Hatchery {
    type Genome;

    type Phenome;

    fn hatch(&self, genotype: &Self::Genome) -> Self::Phenome;
}

/// Things that can be scored against a set of parameters.
pub trait Score {
    type Params;

    type Fitness;

    fn score(&self, params: &Self::Params) -> Self::Fitness;
}

/// A fitness value: partially ordered, so that Pareto domination and
/// incomparability are both expressible.
pub trait Fitness: PartialOrd {

}

impl Fitness for Pareto {

}

/// An evolvable entity: it can recombine with a mate and mutate in
/// place.
pub trait Genotype: Sized {
    fn crossover(&self, mate: &Self) -> Vec<Self>;

    fn mutate(&mut self);
}

} // verus!
