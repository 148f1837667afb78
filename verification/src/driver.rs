//! The generational loop: a genotype configuration, the driver that
//! populates, breeds, expresses and judges, and the user-facing settings
//! and wrapper.

use vstd::prelude::*;
use crate::rng::random_ratio;
use crate::chromosome::{BinaryChromosome, BinaryBitMutation, BinaryUniformRecombination};
use crate::ea::{GenotypeFactory, GenotypeManipulation, GenotypeConfig, OptimizationStats};
use crate::express::{ExpressorKind, MyPhenotype};
use crate::evaluator::{MyEvaluator, CountingEvaluator, evaluator_outcome};
use crate::population::{Population, PopulationStats, Individual, cache_valid};
use crate::selection::SelectionStrategy;

verus! {

/// Probabilities are given in parts per million.
pub const PROB_SCALE: u32 = 1000000;

/// A genotype configuration: fresh random chromosomes of a fixed length,
/// per-bit mutation at rate one over the length, unbiased uniform
/// recombination.
#[derive(Debug)]
pub struct MyConfig {
    pub genotype_length: usize,
    pub mutation: BinaryBitMutation,
    pub recombination: BinaryUniformRecombination,
}

impl MyConfig {
    pub open spec fn wf(&self) -> bool {
        &&& self.mutation.wf()
        &&& self.recombination.wf()
        &&& 1 <= self.genotype_length <= 0xFFFFFFFE
    }

    pub fn new(genotype_length: usize) -> (r: MyConfig)
        requires
            1 <= genotype_length <= 0xFFFFFFFE,
        ensures
            r.wf(),
            r.genotype_length == genotype_length,
    {
        MyConfig {
            genotype_length,
            mutation: BinaryBitMutation::new(1, genotype_length as u32),
            recombination: BinaryUniformRecombination::new(50),
        }
    }
}

impl GenotypeFactory<BinaryChromosome> for MyConfig {
    open spec fn can_create(&self) -> bool {
        self.wf()
    }

    fn create(&self) -> (r: BinaryChromosome)
        ensures
            r@.len() == self.genotype_length,
    {
        BinaryChromosome::new(self.genotype_length)
    }
}

impl GenotypeManipulation<BinaryChromosome> for MyConfig {
    open spec fn valid(&self) -> bool {
        self.wf()
    }

    open spec fn compatible(parent1: &BinaryChromosome, parent2: &BinaryChromosome) -> bool {
        parent1@.len() == parent2@.len()
    }

    fn mutate(&self, target: &mut BinaryChromosome)
        ensures
            final(target)@.len() == old(target)@.len(),
    {
        self.mutation.mutate_bits(target)
    }

    fn recombine(&self, parent1: &BinaryChromosome, parent2: &BinaryChromosome) -> (r:
        BinaryChromosome)
        ensures
            r@.len() == parent1@.len(),
    {
        self.recombination.recombine_bits(parent1, parent2)
    }
}

impl GenotypeConfig<BinaryChromosome> for MyConfig {

}

/// The generational evolutionary search over seed patterns.
pub struct EvolutionaryAlgorithm {
    pub pop_size: usize,
    pub recombination_prob_ppm: u32,
    pub mutation_prob_ppm: u32,
    pub expressor: ExpressorKind,
    pub evaluator: CountingEvaluator,
    pub selection: SelectionStrategy,
    pub config: MyConfig,
    pub population: Population,
}

impl EvolutionaryAlgorithm {
    /// Everything but the population being exactly empty or full.
    pub open spec fn base_wf(&self) -> bool {
        &&& self.config.wf()
        &&& self.evaluator.wf()
        &&& self.recombination_prob_ppm <= PROB_SCALE
        &&& self.mutation_prob_ppm <= PROB_SCALE
        &&& self.expressor.kind_fits(self.config.genotype_length as int)
        &&& self.selection.spec_elite_size() <= self.pop_size
        &&& self.pop_size <= 0xFFFFFFFF
        &&& forall|i: int|
            0 <= i < self.population.individuals@.len() ==> (
            #[trigger] self.population.individuals@[i]).geno().len()
                == self.config.genotype_length
        &&& self.population.phenos_wf()
        &&& cache_valid(self.population.fitness_cache, self.evaluator.evaluator)
        &&& forall|i: int|
            0 <= i < self.population.individuals@.len() ==> ((
            #[trigger] self.population.individuals@[i]).fitness is Some
                ==> self.population.individuals@[i].phenotype is Some)
        &&& forall|i: int|
            0 <= i < self.population.individuals@.len() ==> ((
            #[trigger] self.population.individuals@[i]).fitness matches Some(f)
                ==> (self.population.individuals@[i].phenotype matches Some(p)
                ==> evaluator_outcome(self.evaluator.evaluator, *p.0, f)))
        &&& (match self.selection {
            SelectionStrategy::Elitism(e) => e.ranking@.len() == self.pop_size
                ==> e.ranked_below(self.pop_size as int) && e.ranking_distinct(),
            SelectionStrategy::Tournament(_) => true,
        })
    }

    pub open spec fn wf(&self) -> bool {
        &&& self.base_wf()
        &&& (self.population.individuals@.len() == 0 || self.population.individuals@.len()
            == self.pop_size)
    }

    pub fn new(
        pop_size: usize,
        config: MyConfig,
        expressor: ExpressorKind,
        evaluator: MyEvaluator,
        selection: SelectionStrategy,
    ) -> (r: EvolutionaryAlgorithm)
        requires
            config.wf(),
            evaluator.wf(),
            expressor.kind_fits(config.genotype_length as int),
            selection.spec_elite_size() <= pop_size,
            pop_size <= 0xFFFFFFFF,
            selection matches SelectionStrategy::Elitism(e) ==> e.ranking@.len() == 0,
        ensures
            r.wf(),
            r.pop_size == pop_size,
            r.config == config,
            r.expressor == expressor,
            r.selection == selection,
            r.evaluator.evaluator == evaluator,
            r.evaluator.num_evaluations == 0,
            r.recombination_prob_ppm == 500000,
            r.mutation_prob_ppm == 800000,
            r.population.individuals@.len() == 0,
            r.population.generation == 1,
            r.population.fitness_cache is None,
    {
        EvolutionaryAlgorithm {
            pop_size,
            config,
            recombination_prob_ppm: 500000,
            mutation_prob_ppm: 800000,
            expressor,
            evaluator: CountingEvaluator::new(evaluator),
            selection,
            population: Population::with_capacity(pop_size),
        }
    }

    pub fn set_recombination_prob(self, prob_ppm: u32) -> (r: EvolutionaryAlgorithm)
        requires
            prob_ppm <= 1000000,
        ensures
            r == (EvolutionaryAlgorithm { recombination_prob_ppm: prob_ppm, ..self }),
    {
        EvolutionaryAlgorithm { recombination_prob_ppm: prob_ppm, ..self }
    }

    pub fn set_mutation_prob(self, prob_ppm: u32) -> (r: EvolutionaryAlgorithm)
        requires
            prob_ppm <= 1000000,
        ensures
            r == (EvolutionaryAlgorithm { mutation_prob_ppm: prob_ppm, ..self }),
    {
        EvolutionaryAlgorithm { mutation_prob_ppm: prob_ppm, ..self }
    }

    /// Enable the fitness cache: expressed seeds found equal to an
    /// already judged seed reuse its fitness.
    pub fn enable_fitness_cache(self) -> (r: EvolutionaryAlgorithm)
        ensures
            r.population.fitness_cache is Some,
            r.population.fitness_cache matches Some(c) ==> c@.len() == 0,
            r.pop_size == self.pop_size,
            r.config == self.config,
            r.expressor == self.expressor,
            r.evaluator == self.evaluator,
            r.selection == self.selection,
            r.population.individuals == self.population.individuals,
            r.population.generation == self.population.generation,
            r.recombination_prob_ppm == self.recombination_prob_ppm,
            r.mutation_prob_ppm == self.mutation_prob_ppm,
    {
        let mut ea = self;
        ea.population.fitness_cache = Some(Vec::new());
        ea
    }

    pub fn evaluator(&self) -> (r: &MyEvaluator)
        ensures
            *r == self.evaluator.evaluator,
    {
        &self.evaluator.evaluator
    }

    pub fn num_generations(&self) -> (r: u32)
        ensures
            r == self.population.generation,
    {
        self.population.generation
    }

    pub fn num_evaluations(&self) -> (r: u32)
        ensures
            r == self.evaluator.num_evaluations,
    {
        self.evaluator.num_evaluations
    }

    /// Fill the population with fresh random individuals.
    #[verifier::loop_isolation(false)]
    pub fn populate(&mut self)
        requires
            old(self).wf(),
        ensures
            final(self).wf(),
            final(self).pop_size == old(self).pop_size,
            final(self).population.generation == old(self).population.generation,
            final(self).population.individuals@.len() == (if old(
                self,
            ).population.individuals@.len() == 0 {
                old(self).pop_size as int
            } else {
                old(self).population.individuals@.len() as int
            }),
    {
        while self.population.size() < self.pop_size
            invariant
                self.base_wf(),
                self.pop_size == old(self).pop_size,
                self.config == old(self).config,
                self.expressor == old(self).expressor,
                self.evaluator == old(self).evaluator,
                self.selection == old(self).selection,
                self.population.generation == old(self).population.generation,
                self.population.fitness_cache == old(self).population.fitness_cache,
                self.population.phenos_wf(),
                old(self).population.individuals@.len() <= self.population.individuals@.len(),
                self.population.individuals@.len() <= self.pop_size || self.population.individuals@.len()
                    == old(self).population.individuals@.len(),
            decreases self.pop_size - self.population.individuals@.len(),
        {
            let genotype = self.config.create();
            self.population.add_individual(Individual::new(genotype));
        }
    }

    /// Express every genotype that has no phenotype yet.
    pub fn grow(&mut self)
        requires
            old(self).wf(),
        ensures
            final(self).wf(),
            final(self).pop_size == old(self).pop_size,
            final(self).population.individuals@.len() == old(self).population.individuals@.len(),
            final(self).population.generation == old(self).population.generation,
            forall|i: int|
                0 <= i < final(self).population.individuals@.len() ==> (
                #[trigger] final(self).population.individuals@[i]).phenotype is Some,
    {
        let population = &mut self.population;
        let expressor = &mut self.expressor;
        population.grow(expressor);
    }

    /// Judge every expressed individual that has no fitness yet.
    pub fn evaluate(&mut self)
        requires
            old(self).wf(),
        ensures
            final(self).wf(),
            final(self).pop_size == old(self).pop_size,
            final(self).population.individuals@.len() == old(self).population.individuals@.len(),
            final(self).population.generation == old(self).population.generation,
            forall|i: int|
                0 <= i < final(self).population.individuals@.len() ==> ((
                #[trigger] final(self).population.individuals@[i]).phenotype is Some ==> final(self).population.individuals@[i].fitness is Some),
            forall|i: int|
                0 <= i < final(self).population.individuals@.len() ==> ((
                #[trigger] final(self).population.individuals@[i]).phenotype is Some == old(
                    self,
                ).population.individuals@[i].phenotype is Some),
    {
        let population = &mut self.population;
        let evaluator = &mut self.evaluator;
        population.evaluate(evaluator);
        proof {
            let oldev = old(self).evaluator.evaluator;
            let newev = self.evaluator.evaluator;
            assert(newev.gol.units_per_row == oldev.gol.units_per_row && newev.gol.width
                == oldev.gol.width && newev.gol.height == oldev.gol.height && newev.gol.border
                == oldev.gol.border && newev.gol_runner == oldev.gol_runner
                && newev.fitness_calculator == oldev.fitness_calculator);
            assert forall|ph: MyPhenotype, f: u64| #[trigger] evaluator_outcome(newev, ph, f)
                == evaluator_outcome(oldev, ph, f) by {}
        }
    }

    /// One bred genotype: recombine two tournament parents or clone one,
    /// then possibly mutate.
    fn new_genotype(&mut self) -> (r: BinaryChromosome)
        requires
            old(self).wf(),
            old(self).population.individuals@.len() == old(self).pop_size > 0,
            old(self).selection.can_select(old(self).pop_size as int),
        ensures
            final(self).wf(),
            *final(self) == (EvolutionaryAlgorithm { selection: final(self).selection, ..*old(self) }),
            final(self).selection.spec_elite_size() == old(self).selection.spec_elite_size(),
            final(self).selection.can_select(old(self).pop_size as int),
            r@.len() == old(self).config.genotype_length,
    {
        let mut genotype = if random_ratio(self.recombination_prob_ppm, PROB_SCALE) {
            let parent1 = self.selection.select_from(&self.population).genotype().clone();
            let parent2 = self.selection.select_from(&self.population).genotype().clone();
            self.config.recombination.recombine_bits(&parent1, &parent2)
        } else {
            self.selection.select_from(&self.population).genotype().clone()
        };
        if random_ratio(self.mutation_prob_ppm, PROB_SCALE) {
            self.config.mutation.mutate_bits(&mut genotype);
        }
        genotype
    }

    /// One bred slot: a preserved individual, or a fresh one.
    fn next_individual(&mut self) -> (r: Individual)
        requires
            old(self).wf(),
            old(self).population.individuals@.len() == old(self).pop_size > 0,
            old(self).selection.can_select(old(self).pop_size as int),
        ensures
            final(self).wf(),
            *final(self) == (EvolutionaryAlgorithm { selection: final(self).selection, ..*old(self) }),
            final(self).selection.spec_elite_size() == old(self).selection.spec_elite_size(),
            final(self).selection.can_select(old(self).pop_size as int),
            r.geno().len() == old(self).config.genotype_length,
            r.phenotype matches Some(p) ==> p.0.wf(),
            r.fitness is Some ==> r.phenotype is Some,
            r.fitness matches Some(f) ==> (r.phenotype matches Some(p) ==> evaluator_outcome(
                old(self).evaluator.evaluator,
                *p.0,
                f,
            )),
    {
        if self.selection.preserve_next() {
            let chosen = self.selection.select_from(&self.population);
            let r = chosen.clone();
            proof {
                let i = choose|i: int|
                    0 <= i < self.population.individuals@.len() && *chosen
                        == self.population.individuals@[i];
                assert(self.population.individuals@[i].geno().len()
                    == self.config.genotype_length);
            }
            r
        } else {
            Individual::new(self.new_genotype())
        }
    }

    /// Breed a full new generation: preserved slots first where the
    /// selection asks for them, fresh genotypes otherwise.
    #[verifier::loop_isolation(false)]
    pub fn breed(&mut self)
        requires
            old(self).wf(),
            old(self).population.individuals@.len() == old(self).pop_size > 0,
            old(self).population.generation < 0xFFFFFFFFu32,
        ensures
            final(self).wf(),
            final(self).pop_size == old(self).pop_size,
            final(self).population.individuals@.len() == old(self).pop_size,
            final(self).population.generation == old(self).population.generation + 1,
    {
        let mut new_indivs: Vec<Individual> = Vec::new();
        self.selection.start_selection(&self.population);
        while new_indivs.len() < self.pop_size
            invariant
                self.wf(),
                self.pop_size == old(self).pop_size,
                self.population.individuals@.len() == self.pop_size,
                self.population.generation == old(self).population.generation,
                self.population.fitness_cache == old(self).population.fitness_cache,
                self.config == old(self).config,
                self.selection.can_select(self.pop_size as int),
                self.evaluator == old(self).evaluator,
                self.expressor == old(self).expressor,
                new_indivs@.len() <= self.pop_size,
                forall|i: int|
                    0 <= i < new_indivs@.len() ==> (#[trigger] new_indivs@[i]).geno().len()
                        == self.config.genotype_length,
                forall|i: int|
                    0 <= i < new_indivs@.len() ==> ((#[trigger] new_indivs@[i]).phenotype matches
                        Some(p) ==> p.0.wf()),
                forall|i: int|
                    0 <= i < new_indivs@.len() ==> ((#[trigger] new_indivs@[i]).fitness is Some
                        ==> new_indivs@[i].phenotype is Some),
                forall|i: int|
                    0 <= i < new_indivs@.len() ==> ((#[trigger] new_indivs@[i]).fitness matches
                        Some(f) ==> (new_indivs@[i].phenotype matches Some(p)
                        ==> evaluator_outcome(self.evaluator.evaluator, *p.0, f))),
            decreases self.pop_size - new_indivs@.len(),
        {
            let indiv = self.next_individual();
            new_indivs.push(indiv);
        }
        let population = &mut self.population;
        population.new_generation(new_indivs);
    }

    /// One generation: populate an empty population, breed a full one,
    /// then express, then judge.
    pub fn step(&mut self)
        requires
            old(self).wf(),
            old(self).population.generation < 0xFFFFFFFFu32,
            old(self).pop_size > 0,
        ensures
            final(self).wf(),
            final(self).pop_size == old(self).pop_size,
            final(self).population.individuals@.len() == old(self).pop_size,
            old(self).population.individuals@.len() == 0 ==> final(self).population.generation
                == old(self).population.generation,
            old(self).population.individuals@.len() > 0 ==> final(self).population.generation
                == old(self).population.generation + 1,
            forall|i: int|
                0 <= i < final(self).population.individuals@.len() ==> (
                #[trigger] final(self).population.individuals@[i]).phenotype is Some && final(self).population.individuals@[i].fitness is Some,
    {
        if self.population.size() == 0 {
            self.populate();
        } else {
            self.breed();
        }
        self.grow();
        self.evaluate();
    }

    pub fn get_population_stats(&self) -> (r: Option<PopulationStats>)
        ensures
            r is Some <==> exists|i: int|
                0 <= i < self.population.individuals@.len() && (
                #[trigger] self.population.individuals@[i].fitness) is Some,
    {
        self.population.get_stats()
    }

    pub fn get_stats(&self) -> (r: OptimizationStats)
        ensures
            r.num_generations == self.population.generation,
            r.num_evaluations == self.evaluator.num_evaluations,
    {
        OptimizationStats {
            num_generations: self.population.generation,
            num_evaluations: self.evaluator.num_evaluations,
        }
    }

    pub fn population(&self) -> (r: &Population)
        ensures
            *r == self.population,
    {
        &self.population
    }
}

} // verus!
