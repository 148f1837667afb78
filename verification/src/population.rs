//! Individuals and populations: lazily expressed and judged candidates,
//! an optional fitness cache keyed by seed-pattern identity, and the
//! per-generation bookkeeping.

use vstd::prelude::*;
use crate::ea::MyRef;
use crate::chromosome::BinaryChromosome;
use crate::express::{MyPhenotype, ExpressorKind};
use crate::evaluator::{CountingEvaluator, MyEvaluator, evaluator_outcome, lemma_outcome_same_pattern};

verus! {

/// One candidate: a genotype, and its lazily computed phenotype and
/// fitness.
pub struct Individual {
    pub genotype: MyRef<BinaryChromosome>,
    pub phenotype: Option<MyRef<MyPhenotype>>,
    pub fitness: Option<u64>,
}

impl Individual {
    /// The genotype's bit sequence.
    pub open spec fn geno(&self) -> Seq<bool> {
        self.genotype.0@
    }

    pub fn new(genotype: BinaryChromosome) -> (r: Individual)
        ensures
            r.geno() == genotype@,
            r.phenotype is None,
            r.fitness is None,
    {
        Individual { genotype: MyRef::new(genotype), phenotype: None, fitness: None }
    }

    pub fn genotype(&self) -> (r: &BinaryChromosome)
        ensures
            r@ == self.geno(),
    {
        self.genotype.borrow()
    }

    pub fn phenotype(&self) -> (r: Option<&MyPhenotype>)
        ensures
            r is Some <==> self.phenotype is Some,
            r matches Some(p) ==> *p == (self.phenotype->0).0,
    {
        match &self.phenotype {
            Some(phenotype) => Some(phenotype.borrow()),
            None => None,
        }
    }

    pub fn clone(&self) -> (r: Individual)
        ensures
            r.genotype.0 == self.genotype.0,
            r.fitness == self.fitness,
            r.phenotype is Some <==> self.phenotype is Some,
            self.phenotype matches Some(p) ==> (r.phenotype->0).0 == p.0,
    {
        Individual {
            genotype: self.genotype.clone(),
            phenotype: match &self.phenotype {
                None => None,
                Some(phenotype) => Some(phenotype.clone()),
            },
            fitness: self.fitness,
        }
    }
}

/// An ordered set of individuals with a generation counter and an
/// optional fitness cache keyed by seed-pattern value.
pub struct Population {
    pub individuals: Vec<Individual>,
    pub fitness_cache: Option<Vec<(MyRef<MyPhenotype>, u64)>>,
    pub generation: u32,
}

/// Best, total and count of the assigned fitness values, with one best
/// individual.
pub struct PopulationStats {
    pub max_fitness: u64,
    pub sum_fitness: u64,
    pub num_with_fitness: usize,
    pub best_indiv: Individual,
}

/// Every cache entry is a well-formed seed whose value is the fitness
/// the evaluator's contract owes that seed.
pub open spec fn cache_valid(cache: Option<Vec<(MyRef<MyPhenotype>, u64)>>, ev: MyEvaluator) -> bool {
    match cache {
        Some(c) => forall|j: int|
            0 <= j < c@.len() ==> (((#[trigger] c@[j]).0).0.wf() && evaluator_outcome(
                ev,
                *((c@[j]).0).0,
                (c@[j]).1,
            )),
        None => true,
    }
}

impl Population {
    /// Every expressed phenotype is a well-formed seed patch.
    pub open spec fn phenos_wf(&self) -> bool {
        forall|i: int|
            0 <= i < self.individuals@.len() ==> ((#[trigger] self.individuals@[i].phenotype)
                matches Some(p) ==> p.0.wf())
    }

    pub fn with_capacity(capacity: usize) -> (r: Population)
        ensures
            r.individuals@.len() == 0,
            r.fitness_cache is None,
            r.generation == 1,
    {
        Population {
            individuals: Vec::with_capacity(capacity),
            fitness_cache: None,
            generation: 1,
        }
    }

    pub fn get_individual(&self, index: usize) -> (r: &Individual)
        requires
            index < self.individuals@.len(),
        ensures
            *r == self.individuals@[index as int],
    {
        &self.individuals[index]
    }

    pub fn add_individual(&mut self, individual: Individual)
        ensures
            final(self).individuals@ == old(self).individuals@.push(individual),
            final(self).fitness_cache == old(self).fitness_cache,
            final(self).generation == old(self).generation,
    {
        self.individuals.push(individual);
    }

    pub fn size(&self) -> (r: usize)
        ensures
            r == self.individuals@.len(),
    {
        self.individuals.len()
    }

    /// Express every genotype that does not yet have a phenotype.
    #[verifier::loop_isolation(false)]
    pub fn grow(&mut self, expressor: &mut ExpressorKind)
        requires
            forall|i: int|
                0 <= i < old(self).individuals@.len() ==> old(expressor).kind_fits(
                    (#[trigger] old(self).individuals@[i]).geno().len() as int,
                ),
        ensures
            final(self).individuals@.len() == old(self).individuals@.len(),
            final(self).generation == old(self).generation,
            final(self).fitness_cache == old(self).fitness_cache,
            final(expressor).same_config(*old(expressor)),
            forall|i: int|
                0 <= i < final(self).individuals@.len() ==> {
                    let a = old(self).individuals@[i];
                    let b = #[trigger] final(self).individuals@[i];
                    &&& b.genotype.0 == a.genotype.0
                    &&& b.fitness == a.fitness
                    &&& b.phenotype is Some
                    &&& (a.phenotype is Some ==> b.phenotype == a.phenotype)
                    &&& (a.phenotype is None ==> (b.phenotype->0).0.wf())
                    &&& (a.phenotype is None ==> forall|x: int, y: int|
                        0 <= x < 8 && 0 <= y < 8 ==> #[trigger] (b.phenotype->0).0.bit_grid.spec_bit(
                            x,
                            y,
                        ) == old(expressor).decodes(a.geno(), x, y))
                },
    {
        let n = self.individuals.len();
        let mut i: usize = 0;
        while i < n
            invariant
                i <= n,
                n == self.individuals@.len(),
                self.generation == old(self).generation,
                self.fitness_cache == old(self).fitness_cache,
                expressor.same_config(*old(expressor)),
                forall|j: int|
                    i <= j < n ==> #[trigger] self.individuals@[j] == old(self).individuals@[j],
                forall|j: int|
                    0 <= j < i ==> {
                        let a = old(self).individuals@[j];
                        let b = #[trigger] self.individuals@[j];
                        &&& b.genotype.0 == a.genotype.0
                        &&& b.fitness == a.fitness
                        &&& b.phenotype is Some
                        &&& (a.phenotype is Some ==> b.phenotype == a.phenotype)
                        &&& (a.phenotype is None ==> (b.phenotype->0).0.wf())
                        &&& (a.phenotype is None ==> forall|x: int, y: int|
                            0 <= x < 8 && 0 <= y < 8
                                ==> #[trigger] (b.phenotype->0).0.bit_grid.spec_bit(x, y) == old(
                                expressor,
                            ).decodes(a.geno(), x, y))
                    },
            decreases n - i,
        {
            let has_pheno = self.individuals[i].phenotype.is_some();
            if !has_pheno {
                let phenotype = expressor.express_genotype(self.individuals[i].genotype());
                let indiv = &mut self.individuals[i];
                indiv.phenotype = Some(MyRef::new(phenotype));
            }
            i += 1;
        }
    }

    /// Judge every expressed individual that does not yet have a
    /// fitness, through the cache when one is enabled: equal seed
    /// patterns found in the cache reuse the cached fitness.
    #[verifier::loop_isolation(false)]
    pub fn evaluate(&mut self, evaluator: &mut CountingEvaluator)
        requires
            old(evaluator).wf(),
            old(self).phenos_wf(),
            cache_valid(old(self).fitness_cache, old(evaluator).evaluator),
        ensures
            final(evaluator).wf(),
            final(evaluator).evaluator.gol.same_shape(old(evaluator).evaluator.gol),
            final(evaluator).evaluator.gol_runner == old(evaluator).evaluator.gol_runner,
            final(evaluator).evaluator.fitness_calculator == old(
                evaluator,
            ).evaluator.fitness_calculator,
            final(self).individuals@.len() == old(self).individuals@.len(),
            final(self).generation == old(self).generation,
            final(self).phenos_wf(),
            final(self).fitness_cache is Some <==> old(self).fitness_cache is Some,
            cache_valid(final(self).fitness_cache, old(evaluator).evaluator),
            forall|i: int|
                0 <= i < final(self).individuals@.len() ==> {
                    let a = old(self).individuals@[i];
                    let b = #[trigger] final(self).individuals@[i];
                    &&& b.genotype.0 == a.genotype.0
                    &&& b.phenotype == a.phenotype
                    &&& (a.fitness is Some ==> b.fitness == a.fitness)
                    &&& (a.phenotype is Some ==> b.fitness is Some)
                    &&& (a.fitness is None && a.phenotype is None ==> b.fitness is None)
                    &&& (a.fitness is None ==> (a.phenotype matches Some(p)
                        ==> evaluator_outcome(old(evaluator).evaluator, *p.0, b.fitness->0)))
                },
    {
        let n = self.individuals.len();
        let mut i: usize = 0;
        while i < n
            invariant
                i <= n,
                n == self.individuals@.len(),
                evaluator.wf(),
                evaluator.evaluator.gol.same_shape(old(evaluator).evaluator.gol),
                evaluator.evaluator.gol_runner == old(evaluator).evaluator.gol_runner,
                evaluator.evaluator.fitness_calculator == old(
                    evaluator,
                ).evaluator.fitness_calculator,
                self.generation == old(self).generation,
                self.phenos_wf(),
                self.fitness_cache is Some <==> old(self).fitness_cache is Some,
                cache_valid(self.fitness_cache, old(evaluator).evaluator),
                forall|j: int|
                    i <= j < n ==> #[trigger] self.individuals@[j] == old(self).individuals@[j],
                forall|j: int|
                    0 <= j < i ==> {
                        let a = old(self).individuals@[j];
                        let b = #[trigger] self.individuals@[j];
                        &&& b.genotype.0 == a.genotype.0
                        &&& b.phenotype == a.phenotype
                        &&& (a.fitness is Some ==> b.fitness == a.fitness)
                        &&& (a.phenotype is Some ==> b.fitness is Some)
                        &&& (a.fitness is None && a.phenotype is None ==> b.fitness is None)
                        &&& (a.fitness is None ==> (a.phenotype matches Some(p)
                            ==> evaluator_outcome(old(evaluator).evaluator, *p.0, b.fitness->0)))
                    },
            decreases n - i,
        {
            let has_pheno = self.individuals[i].phenotype.is_some();
            let has_fitness = self.individuals[i].fitness.is_some();
            if has_pheno && !has_fitness {
                let phenotype = match &self.individuals[i].phenotype {
                    Some(p) => p.clone(),
                    None => vstd::pervasive::unreached(),
                };
                let use_cache = self.fitness_cache.is_some();
                let mut fitness: u64 = 0;
                let mut found = false;
                if use_cache {
                    let cache = match &self.fitness_cache {
                        Some(c) => c,
                        None => vstd::pervasive::unreached(),
                    };
                    let m = cache.len();
                    let mut j: usize = 0;
                    while j < m && !found
                        invariant
                            j <= m,
                            self.fitness_cache is Some,
                            m == (self.fitness_cache->0)@.len(),
                            phenotype.0.wf(),
                            cache_valid(self.fitness_cache, old(evaluator).evaluator),
                            found ==> evaluator_outcome(
                                old(evaluator).evaluator,
                                *phenotype.0,
                                fitness,
                            ),
                        decreases m - j,
                    {
                        let cache2 = match &self.fitness_cache {
                            Some(c) => c,
                            None => vstd::pervasive::unreached(),
                        };
                        if cache2[j].0.borrow().same_pattern(phenotype.borrow()) {
                            fitness = cache2[j].1;
                            found = true;
                            proof {
                                let ev = old(evaluator).evaluator;
                                lemma_outcome_same_pattern(
                                    ev.gol.units_per_row as int,
                                    ev.gol.width as int,
                                    ev.gol.height as int,
                                    ev.gol.border,
                                    ev.gol_runner.min_absolute_dormancy as nat,
                                    ev.gol_runner.min_relative_dormancy_hundredths as nat,
                                    ev.fitness_calculator.fitness_weights,
                                    &(((self.fitness_cache->0)@[j as int]).0).0,
                                    &phenotype.0,
                                    fitness,
                                );
                            }
                        }
                        j += 1;
                    }
                }
                if !found {
                    fitness = evaluator.evaluate(phenotype.borrow());
                    proof {
                        assert(evaluator_outcome(old(evaluator).evaluator, *phenotype.0, fitness));
                    }
                    if use_cache {
                        let entry = (phenotype.clone(), fitness);
                        match &mut self.fitness_cache {
                            Some(c) => c.push(entry),
                            None => vstd::pervasive::unreached(),
                        }
                    }
                }
                let indiv = &mut self.individuals[i];
                indiv.fitness = Some(fitness);
            }
            i += 1;
        }
    }

    /// Replace the individuals with a freshly bred set of the same size.
    pub fn new_generation(&mut self, new_indivs: Vec<Individual>)
        requires
            new_indivs@.len() == old(self).individuals@.len(),
            old(self).generation < u32::MAX,
        ensures
            final(self).individuals@ == new_indivs@,
            final(self).generation == old(self).generation + 1,
            final(self).fitness_cache == old(self).fitness_cache,
    {
        self.individuals = new_indivs;
        self.generation = self.generation + 1;
    }

    /// Best, total and count of the assigned fitness values, or nothing
    /// when no individual has been judged yet.
    #[verifier::loop_isolation(false)]
    pub fn get_stats(&self) -> (r: Option<PopulationStats>)
        ensures
            r matches Some(stats) ==> stats.sum_fitness == sum_fitness_of(
                self.individuals@,
                self.individuals@.len() as int,
            ) && stats.num_with_fitness == num_judged_of(
                self.individuals@,
                self.individuals@.len() as int,
            ),
            r is Some <==> exists|i: int|
                0 <= i < self.individuals@.len() && (#[trigger] self.individuals@[i].fitness)
                    is Some,
            r matches Some(stats) ==> {
                &&& forall|i: int|
                    0 <= i < self.individuals@.len() ==> ((#[trigger] self.individuals@[i].fitness)
                        matches Some(f) ==> f <= stats.max_fitness)
                &&& stats.best_indiv.fitness == Some(stats.max_fitness)
                &&& exists|b: int|
                    {
                        let src = #[trigger] self.individuals@[b];
                        &&& 0 <= b < self.individuals@.len()
                        &&& src.fitness == Some(stats.max_fitness)
                        &&& forall|j: int|
                            0 <= j < b ==> ((#[trigger] self.individuals@[j].fitness) matches Some(
                                f,
                            ) ==> f < stats.max_fitness)
                        &&& stats.best_indiv.genotype.0 == src.genotype.0
                        &&& stats.best_indiv.fitness == src.fitness
                        &&& (stats.best_indiv.phenotype is Some <==> src.phenotype is Some)
                        &&& (src.phenotype matches Some(p) ==> (stats.best_indiv.phenotype->0).0
                            == p.0)
                    }
            },
    {
        let n = self.individuals.len();
        let mut max: Option<u64> = None;
        let mut sum: u64 = 0;
        let mut num: usize = 0;
        let mut best: Option<usize> = None;
        let mut i: usize = 0;
        while i < n
            invariant
                i <= n,
                n == self.individuals@.len(),
                sum == sum_fitness_of(self.individuals@, i as int),
                num == num_judged_of(self.individuals@, i as int),
                max is Some <==> best is Some,
                max is Some <==> exists|j: int|
                    0 <= j < i && (#[trigger] self.individuals@[j].fitness) is Some,
                max matches Some(mx) ==> {
                    &&& exists|j: int|
                        0 <= j < i && (#[trigger] self.individuals@[j].fitness) == Some(mx)
                    &&& forall|j: int|
                        0 <= j < i ==> ((#[trigger] self.individuals@[j].fitness) matches Some(f)
                            ==> f <= mx)
                },
                best matches Some(b) ==> b < i && self.individuals@[b as int].fitness == max && (
                forall|j: int|
                    0 <= j < b ==> ((#[trigger] self.individuals@[j].fitness) matches Some(f) ==> (
                    max matches Some(mx) && f < mx))),
                num <= i,
            decreases n - i,
        {
            match self.individuals[i].fitness {
                Some(fitness) => {
                    if sum > u64::MAX - fitness {
                        sum = u64::MAX;
                    } else {
                        sum = sum + fitness;
                    }
                    num += 1;
                    let better = match max {
                        None => true,
                        Some(current_max) => fitness > current_max,
                    };
                    if better {
                        max = Some(fitness);
                        best = Some(i);
                    }
                },
                None => {},
            }
            i += 1;
        }
        match (max, best) {
            (Some(max_fitness), Some(b)) => Some(
                PopulationStats {
                    max_fitness,
                    sum_fitness: sum,
                    num_with_fitness: num,
                    best_indiv: self.individuals[b].clone(),
                },
            ),
            _ => None,
        }
    }
}

/// The total of the assigned fitness values over the first `n`
/// individuals, saturating at the fitness range.
pub open spec fn sum_fitness_of(inds: Seq<Individual>, n: int) -> u64
    decreases n,
{
    if n <= 0 {
        0u64
    } else {
        let rest = sum_fitness_of(inds, n - 1);
        match inds[n - 1].fitness {
            Some(f) => if rest + f > u64::MAX {
                u64::MAX
            } else {
                (rest + f) as u64
            },
            None => rest,
        }
    }
}

/// How many of the first `n` individuals carry a fitness.
pub open spec fn num_judged_of(inds: Seq<Individual>, n: int) -> nat
    decreases n,
{
    if n <= 0 {
        0
    } else {
        num_judged_of(inds, n - 1) + (if inds[n - 1].fitness is Some {
            1nat
        } else {
            0nat
        })
    }
}

} // verus!
