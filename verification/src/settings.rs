//! The user-tunable settings, the assembled search they configure, and a
//! wrapper that tracks per-step deltas and gene and cell statistics.

use vstd::prelude::*;
use crate::evaluator::{FitnessWeights, WeightedFitness, MyEvaluator};
use crate::express::{ExpressorKind, MyNeutralExpressor};
use crate::driver::{EvolutionaryAlgorithm, MyConfig};
use crate::selection::{SelectionStrategy, TournamentSelection, ElitismSelection};
use crate::population::PopulationStats;

verus! {

/// Everything the user may tune: the board, the fitness weights, and
/// the operator rates in parts per million.
#[derive(Clone, Copy, Debug)]
pub struct MyEaSettings {
    pub garden_size: usize,
    pub wrap_border: bool,
    pub fitness_weights: FitnessWeights,
    pub mutation_rate_ppm: u32,
    pub recombination_rate_ppm: u32,
    pub population_size: usize,
    pub tournament_size: usize,
    pub elitism: bool,
}

impl MyEaSettings {
    /// Settings a search can be built from.
    pub open spec fn wf(&self) -> bool {
        &&& 8 <= self.garden_size <= 255
        &&& self.mutation_rate_ppm <= 1000000
        &&& self.recombination_rate_ppm <= 1000000
        &&& 1 <= self.population_size <= 0xFFFFFFFF
    }

    pub fn new() -> (r: MyEaSettings)
        ensures
            r.wf(),
            r.garden_size == 64,
            r.wrap_border == false,
            r.mutation_rate_ppm == 900000,
            r.recombination_rate_ppm == 400000,
            r.population_size == 100,
            r.tournament_size == 2,
            r.elitism == true,
    {
        MyEaSettings {
            garden_size: 64,
            wrap_border: false,
            fitness_weights: FitnessWeights::new(),
            mutation_rate_ppm: 900000,
            recombination_rate_ppm: 400000,
            population_size: 100,
            tournament_size: 2,
            elitism: true,
        }
    }

    pub fn set_garden_size(self, garden_size: usize) -> (r: MyEaSettings)
        ensures
            r == (MyEaSettings { garden_size, ..self }),
    {
        MyEaSettings { garden_size, ..self }
    }

    pub fn garden_size(&self) -> (r: usize)
        ensures
            r == self.garden_size,
    {
        self.garden_size
    }

    pub fn set_border(self, wrap_border: bool) -> (r: MyEaSettings)
        ensures
            r == (MyEaSettings { wrap_border, ..self }),
    {
        MyEaSettings { wrap_border, ..self }
    }

    pub fn border_wraps(&self) -> (r: bool)
        ensures
            r == self.wrap_border,
    {
        self.wrap_border
    }

    pub fn set_fw_num_toggled_cells(self, value: u32) -> (r: MyEaSettings)
        ensures
            r.fitness_weights.num_toggled_cells == value,
            r == (MyEaSettings {
                fitness_weights: FitnessWeights { num_toggled_cells: value, ..self.fitness_weights },
                ..self
            }),
    {
        MyEaSettings {
            fitness_weights: FitnessWeights { num_toggled_cells: value, ..self.fitness_weights },
            ..self
        }
    }

    pub fn set_fw_num_toggled_steps(self, value: u32) -> (r: MyEaSettings)
        ensures
            r == (MyEaSettings {
                fitness_weights: FitnessWeights { num_toggled_steps: value, ..self.fitness_weights },
                ..self
            }),
    {
        MyEaSettings {
            fitness_weights: FitnessWeights { num_toggled_steps: value, ..self.fitness_weights },
            ..self
        }
    }

    pub fn set_fw_max_alive_cells(self, value: u32) -> (r: MyEaSettings)
        ensures
            r == (MyEaSettings {
                fitness_weights: FitnessWeights { max_alive_cells: value, ..self.fitness_weights },
                ..self
            }),
    {
        MyEaSettings {
            fitness_weights: FitnessWeights { max_alive_cells: value, ..self.fitness_weights },
            ..self
        }
    }

    pub fn set_fw_max_alive_steps(self, value: u32) -> (r: MyEaSettings)
        ensures
            r == (MyEaSettings {
                fitness_weights: FitnessWeights { max_alive_steps: value, ..self.fitness_weights },
                ..self
            }),
    {
        MyEaSettings {
            fitness_weights: FitnessWeights { max_alive_steps: value, ..self.fitness_weights },
            ..self
        }
    }

    pub fn set_fw_num_start_cells(self, value: u32) -> (r: MyEaSettings)
        ensures
            r == (MyEaSettings {
                fitness_weights: FitnessWeights { num_start_cells: value, ..self.fitness_weights },
                ..self
            }),
    {
        MyEaSettings {
            fitness_weights: FitnessWeights { num_start_cells: value, ..self.fitness_weights },
            ..self
        }
    }

    pub fn set_mutation_rate(self, mutation_rate_ppm: u32) -> (r: MyEaSettings)
        ensures
            r == (MyEaSettings { mutation_rate_ppm, ..self }),
    {
        MyEaSettings { mutation_rate_ppm, ..self }
    }

    pub fn mutation_rate(&self) -> (r: u32)
        ensures
            r == self.mutation_rate_ppm,
    {
        self.mutation_rate_ppm
    }

    pub fn set_recombination_rate(self, recombination_rate_ppm: u32) -> (r: MyEaSettings)
        ensures
            r == (MyEaSettings { recombination_rate_ppm, ..self }),
    {
        MyEaSettings { recombination_rate_ppm, ..self }
    }

    pub fn recombination_rate(&self) -> (r: u32)
        ensures
            r == self.recombination_rate_ppm,
    {
        self.recombination_rate_ppm
    }

    pub fn set_population_size(self, size: usize) -> (r: MyEaSettings)
        ensures
            r == (MyEaSettings { population_size: size, ..self }),
    {
        MyEaSettings { population_size: size, ..self }
    }

    pub fn population_size(&self) -> (r: usize)
        ensures
            r == self.population_size,
    {
        self.population_size
    }

    pub fn set_tournament_size(self, size: usize) -> (r: MyEaSettings)
        ensures
            r == (MyEaSettings { tournament_size: size, ..self }),
    {
        MyEaSettings { tournament_size: size, ..self }
    }

    pub fn tournament_size(&self) -> (r: usize)
        ensures
            r == self.tournament_size,
    {
        self.tournament_size
    }

    pub fn set_elitism(self, elitism: bool) -> (r: MyEaSettings)
        ensures
            r == (MyEaSettings { elitism, ..self }),
    {
        MyEaSettings { elitism, ..self }
    }

    pub fn elitism(&self) -> (r: bool)
        ensures
            r == self.elitism,
    {
        self.elitism
    }
}

/// Assemble the search the settings describe: the neutral encoding with
/// four bits per cell, a tournament (optionally behind one-elite
/// elitism), the weighted evaluator, and the fitness cache.
pub fn setup_ga(settings: &MyEaSettings) -> (r: EvolutionaryAlgorithm)
    requires
        settings.wf(),
    ensures
        r.wf(),
        r.pop_size == settings.population_size,
        r.pop_size > 0,
        r.population.individuals@.len() == 0,
        r.population.generation == 1,
        r.population.fitness_cache matches Some(c) && c@.len() == 0,
        r.evaluator.num_evaluations == 0,
        r.evaluator.evaluator.num_ca_steps == 0,
        r.evaluator.evaluator.gol.width == settings.garden_size,
        r.evaluator.evaluator.gol.height == settings.garden_size,
        r.evaluator.evaluator.gol.border == (if settings.wrap_border {
            crate::life::GridBorder::Wrapped
        } else {
            crate::life::GridBorder::Zeroes
        }),
        r.evaluator.evaluator.gol_runner.min_absolute_dormancy == 100,
        r.evaluator.evaluator.gol_runner.min_relative_dormancy_hundredths == 200,
        r.evaluator.evaluator.fitness_calculator.fitness_weights == settings.fitness_weights,
        r.mutation_prob_ppm == settings.mutation_rate_ppm,
        r.recombination_prob_ppm == settings.recombination_rate_ppm,
        r.expressor matches ExpressorKind::Neutral(e) && e.bits_per_cell == 4,
        r.config.genotype_length == 64 * 4 + 2 * 8,
        settings.elitism ==> (r.selection matches SelectionStrategy::Elitism(e) && e.elite_size
            == 1 && e.wrapped_selection.tournament_size == settings.tournament_size
            && e.num_selected_elites == 0),
        !settings.elitism ==> r.selection == SelectionStrategy::Tournament(
            TournamentSelection { tournament_size: settings.tournament_size },
        ),
{
    let expressor = MyNeutralExpressor::new(4);
    let genotype_length = expressor.genotype_length();
    proof {
        vstd::arithmetic::power2::lemma2_to64();
        assert(expressor.num_groups == 8);
        assert(genotype_length == 64 * 4 + 2 * 8);
    }
    let main_selector = TournamentSelection::new(settings.tournament_size);
    let selection = if settings.elitism {
        SelectionStrategy::Elitism(ElitismSelection::new(1, main_selector))
    } else {
        SelectionStrategy::Tournament(main_selector)
    };
    EvolutionaryAlgorithm::new(
        settings.population_size,
        MyConfig::new(genotype_length),
        ExpressorKind::Neutral(expressor),
        MyEvaluator::new(
            settings.garden_size,
            settings.wrap_border,
            WeightedFitness::new(settings.fitness_weights),
        ),
        selection,
    ).set_mutation_prob(settings.mutation_rate_ppm).set_recombination_prob(
        settings.recombination_rate_ppm,
    ).enable_fitness_cache()
}

/// The number of individuals whose gene at position `k` is set, over
/// the first `n` individuals.
pub open spec fn genes_set_count(
    inds: Seq<crate::population::Individual>,
    k: int,
    n: int,
) -> nat
    decreases n,
{
    if n <= 0 {
        0
    } else {
        genes_set_count(inds, k, n - 1) + (if inds[n - 1].geno()[k] {
            1nat
        } else {
            0nat
        })
    }
}

/// The number of expressed individuals whose seed cell `(x, y)` is
/// alive, over the first `n` individuals.
pub open spec fn cells_set_count(
    inds: Seq<crate::population::Individual>,
    x: int,
    y: int,
    n: int,
) -> nat
    decreases n,
{
    if n <= 0 {
        0
    } else {
        cells_set_count(inds, x, y, n - 1) + (match inds[n - 1].phenotype {
            Some(p) => if p.0.bit_grid.spec_bit(x, y) {
                1nat
            } else {
                0nat
            },
            None => 0nat,
        })
    }
}

/// The search with per-step deltas and gene and cell statistics on top.
pub struct MyEvolutionaryAlgorithm {
    pub ea: EvolutionaryAlgorithm,
    pub population_stats: Option<PopulationStats>,
    pub prev_num_evaluations: u32,
    pub prev_num_ca_steps: u64,
    pub gene_counts: Vec<u32>,
    pub cell_counts: Vec<u32>,
}

impl MyEvolutionaryAlgorithm {
    pub open spec fn wf(&self) -> bool {
        &&& self.ea.wf()
        &&& self.ea.pop_size > 0
    }

    pub fn new(settings: &MyEaSettings) -> (r: MyEvolutionaryAlgorithm)
        requires
            settings.wf(),
        ensures
            r.wf(),
            r.ea.population.generation == 1,
    {
        MyEvolutionaryAlgorithm {
            ea: setup_ga(settings),
            population_stats: None,
            prev_num_evaluations: 0,
            prev_num_ca_steps: 0,
            gene_counts: Vec::new(),
            cell_counts: Vec::new(),
        }
    }

    pub fn ea(&self) -> (r: &EvolutionaryAlgorithm)
        ensures
            *r == self.ea,
    {
        &self.ea
    }

    pub fn reset(&mut self, settings: &MyEaSettings)
        requires
            settings.wf(),
        ensures
            final(self).wf(),
            final(self).ea.population.generation == 1,
            final(self).population_stats is None,
            final(self).prev_num_evaluations == 0,
            final(self).prev_num_ca_steps == 0,
    {
        self.population_stats = None;
        self.prev_num_evaluations = 0;
        self.prev_num_ca_steps = 0;
        self.ea = setup_ga(settings);
    }

    /// One search generation, remembering the previous totals so the
    /// deltas can be read afterwards.
    pub fn step(&mut self)
        requires
            old(self).wf(),
            old(self).ea.population.generation < 0xFFFFFFFFu32,
        ensures
            final(self).wf(),
            final(self).prev_num_evaluations == old(self).ea.evaluator.num_evaluations,
            final(self).prev_num_ca_steps == old(self).ea.evaluator.evaluator.num_ca_steps,
            final(self).ea.population.individuals@.len() == old(self).ea.pop_size,
            forall|i: int|
                0 <= i < final(self).ea.population.individuals@.len() ==> (
                #[trigger] final(self).ea.population.individuals@[i]).phenotype is Some && final(self).ea.population.individuals@[i].fitness is Some,
    {
        self.prev_num_evaluations = self.ea.num_evaluations();
        self.prev_num_ca_steps = self.ea.evaluator.evaluator.num_ca_steps();

        let ea = &mut self.ea;
        ea.step();

        self.population_stats = self.ea.get_population_stats();
    }

    pub fn num_generations(&self) -> (r: u32)
        ensures
            r == self.ea.population.generation,
    {
        self.ea.num_generations()
    }

    pub fn num_evaluations(&self) -> (r: u32)
        ensures
            r == self.ea.evaluator.num_evaluations,
    {
        self.ea.num_evaluations()
    }

    pub fn evaluation_delta(&self) -> (r: u32)
        ensures
            r == (if self.ea.evaluator.num_evaluations >= self.prev_num_evaluations {
                self.ea.evaluator.num_evaluations - self.prev_num_evaluations
            } else {
                0int
            }),
    {
        let cur = self.ea.num_evaluations();
        if cur >= self.prev_num_evaluations {
            cur - self.prev_num_evaluations
        } else {
            0
        }
    }

    pub fn num_ca_steps(&self) -> (r: u64)
        ensures
            r == self.ea.evaluator.evaluator.num_ca_steps,
    {
        self.ea.evaluator.evaluator.num_ca_steps()
    }

    pub fn ca_steps_delta(&self) -> (r: u64)
        ensures
            r == (if self.ea.evaluator.evaluator.num_ca_steps >= self.prev_num_ca_steps {
                self.ea.evaluator.evaluator.num_ca_steps - self.prev_num_ca_steps
            } else {
                0int
            }),
    {
        let cur = self.num_ca_steps();
        if cur >= self.prev_num_ca_steps {
            cur - self.prev_num_ca_steps
        } else {
            0
        }
    }

    pub fn max_fitness(&self) -> (r: u64)
        ensures
            r == (match self.population_stats {
                Some(stats) => stats.max_fitness,
                None => 0u64,
            }),
    {
        match &self.population_stats {
            Some(stats) => stats.max_fitness,
            None => 0,
        }
    }

    /// Recompute, per gene position, how many individuals carry a set
    /// bit there, and hand the counts out.
    #[verifier::loop_isolation(false)]
    pub fn gene_counts(&mut self) -> (r: &Vec<u32>)
        requires
            old(self).wf(),
            old(self).ea.population.individuals@.len() > 0,
        ensures
            *final(self) == (MyEvolutionaryAlgorithm { gene_counts: final(self).gene_counts, ..*old(self) }),
            r == final(self).gene_counts,
            r@.len() == old(self).ea.config.genotype_length,
            forall|k: int|
                0 <= k < r@.len() ==> #[trigger] r@[k] as nat == genes_set_count(
                    old(self).ea.population.individuals@,
                    k,
                    old(self).ea.population.individuals@.len() as int,
                ),
    {
        let genotype_length = self.ea.config.genotype_length;
        let n = self.ea.population.size();
        let ghost inds = self.ea.population.individuals@;
        self.gene_counts = Vec::new();
        let mut counts: Vec<u32> = Vec::new();
        let mut k: usize = 0;
        while k < genotype_length
            invariant
                k <= genotype_length,
                counts@.len() == k,
                forall|kk: int|
                    0 <= kk < k ==> #[trigger] counts@[kk] as nat == genes_set_count(
                        inds,
                        kk,
                        n as int,
                    ),
                self.ea == old(self).ea,
            decreases genotype_length - k,
        {
            let mut count: u32 = 0;
            let mut i: usize = 0;
            while i < n
                invariant
                    i <= n,
                    k < genotype_length,
                    count as nat == genes_set_count(inds, k as int, i as int),
                    count <= i,
                    self.ea == old(self).ea,
                decreases n - i,
            {
                if self.ea.population.get_individual(i).genotype().get_bit(k) {
                    count = count + 1;
                }
                i += 1;
            }
            counts.push(count);
            k += 1;
        }
        self.gene_counts = counts;
        &self.gene_counts
    }

    pub fn genotype_len(&self) -> (r: u32)
        ensures
            r == (if self.gene_counts@.len() > 0xFFFFFFFF {
                0xFFFFFFFFint
            } else {
                self.gene_counts@.len() as int
            }),
    {
        if self.gene_counts.len() > 0xFFFFFFFFusize {
            0xFFFFFFFFu32
        } else {
            self.gene_counts.len() as u32
        }
    }

    /// Recompute, per seed cell, how many expressed individuals have
    /// that cell alive, and hand the counts out.
    #[verifier::loop_isolation(false)]
    pub fn cell_counts(&mut self) -> (r: &Vec<u32>)
        requires
            old(self).wf(),
        ensures
            *final(self) == (MyEvolutionaryAlgorithm { cell_counts: final(self).cell_counts, ..*old(self) }),
            r == final(self).cell_counts,
            r@.len() == 64,
            forall|ci: int|
                0 <= ci < 64 ==> #[trigger] r@[ci] as nat == cells_set_count(
                    old(self).ea.population.individuals@,
                    ci % 8,
                    ci / 8,
                    old(self).ea.population.individuals@.len() as int,
                ),
    {
        let n = self.ea.population.size();
        let ghost inds = self.ea.population.individuals@;
        let mut counts: Vec<u32> = Vec::new();
        let mut ci: usize = 0;
        while ci < 64
            invariant
                ci <= 64,
                counts@.len() == ci,
                n == inds.len(),
                n <= 0xFFFFFFFF,
                forall|cc: int|
                    0 <= cc < ci ==> #[trigger] counts@[cc] as nat == cells_set_count(
                        inds,
                        cc % 8,
                        cc / 8,
                        n as int,
                    ),
                self.ea == old(self).ea,
            decreases 64 - ci,
        {
            let x = ci % 8;
            let y = ci / 8;
            let mut count: u32 = 0;
            let mut i: usize = 0;
            while i < n
                invariant
                    i <= n,
                    x == ci % 8 < 8,
                    y == ci / 8 < 8,
                    ci < 64,
                    count as nat == cells_set_count(inds, x as int, y as int, i as int),
                    count <= i,
                    self.ea == old(self).ea,
                decreases n - i,
            {
                match self.ea.population.get_individual(i).phenotype() {
                    Some(phenotype) => {
                        if phenotype.bit_grid.get(x, y) {
                            count = count + 1;
                        }
                    },
                    None => {},
                }
                i += 1;
            }
            counts.push(count);
            ci += 1;
        }
        self.cell_counts = counts;
        &self.cell_counts
    }

    pub fn phenotype_len(&self) -> (r: u32)
        ensures
            r == (if self.cell_counts@.len() > 0xFFFFFFFF {
                0xFFFFFFFFint
            } else {
                self.cell_counts@.len() as int
            }),
    {
        if self.cell_counts.len() > 0xFFFFFFFFusize {
            0xFFFFFFFFu32
        } else {
            self.cell_counts.len() as u32
        }
    }
}

} // verus!
