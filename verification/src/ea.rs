//! The abstractions of the evolutionary search: genotypes, phenotypes,
//! the operations that make, change and judge them, and a cheap shared
//! reference for carrying them across generations.

use vstd::prelude::*;
use std::rc::Rc;

verus! {

/// A genotype encodes a candidate solution.
pub trait Genotype: Clone {

}

/// A phenotype is an expressed candidate solution; many genotypes may
/// express to the same phenotype.
pub trait Phenotype {

}

/// Decodes genotypes into phenotypes.
pub trait Expressor<G: Genotype, P: Phenotype> {
    /// Whether this expressor can decode the given genotype.
    spec fn fits(&self, genotype: &G) -> bool;

    fn express(&mut self, genotype: &G) -> P
        requires
            old(self).fits(genotype),
    ;
}

/// Creates fresh genotypes.
pub trait GenotypeFactory<G: Genotype> {
    /// Whether this factory's parameters are usable.
    spec fn can_create(&self) -> bool;

    fn create(&self) -> G
        requires
            self.can_create(),
    ;
}

/// Mutates and recombines genotypes.
pub trait GenotypeManipulation<G: Genotype> {
    /// Whether this configuration's parameters are usable.
    spec fn valid(&self) -> bool;

    /// Whether two parents can be recombined.
    spec fn compatible(parent1: &G, parent2: &G) -> bool;

    fn mutate(&self, target: &mut G)
        requires
            self.valid(),
    ;

    fn recombine(&self, parent1: &G, parent2: &G) -> G
        requires
            self.valid(),
            Self::compatible(parent1, parent2),
    ;
}

/// A full genotype configuration: creation, mutation and recombination.
pub trait GenotypeConfig<G: Genotype>: GenotypeFactory<G> + GenotypeManipulation<G> {

}

/// A cheap shared reference: clones share the referent.
#[derive(Debug)]
pub struct MyRef<T>(pub Rc<T>);

/// Relies on Rc::clone: the clone points to the same value.
#[verifier::external_body]
fn rc_dup<T>(rc: &Rc<T>) -> (r: Rc<T>)
    ensures
        r == *rc,
{
    Rc::clone(rc)
}

/// Relies on Rc::as_ref: a borrow of the pointed-to value.
#[verifier::external_body]
fn rc_as_ref<T>(rc: &Rc<T>) -> (r: &T)
    ensures
        *r == *rc,
{
    rc.as_ref()
}

impl<T> MyRef<T> {
    pub fn new(wrapped: T) -> (r: MyRef<T>)
        ensures
            r.0 == wrapped,
    {
        MyRef(Rc::new(wrapped))
    }

    pub fn clone(&self) -> (r: MyRef<T>)
        ensures
            r.0 == self.0,
    {
        MyRef(rc_dup(&self.0))
    }

    /// A borrow of the shared value.
    pub fn borrow(&self) -> (r: &T)
        ensures
            *r == self.0,
    {
        rc_as_ref(&self.0)
    }
}

/// Totals of one optimization run.
#[derive(Clone, Copy, Debug)]
pub struct OptimizationStats {
    pub num_generations: u32,
    pub num_evaluations: u32,
}

} // verus!
