use ga_of_life::chromosome::{
    BinaryChromosome, BinaryBitMutation, BinaryNPointBitCrossover, BinaryUniformRecombination,
};
use ga_of_life::express::{MySimpleExpressor, MyNeutralExpressor};
use ga_of_life::evaluator::{FitnessWeights, WeightedFitness, MyEvaluator};
use ga_of_life::runner::RunStats;
use ga_of_life::settings::{MyEaSettings, MyEvolutionaryAlgorithm, setup_ga};

#[test]
fn chromosome_constructors() {
    let z = BinaryChromosome::zeroes(10);
    let o = BinaryChromosome::ones(10);
    let r = BinaryChromosome::new(10);
    assert_eq!(z.len(), 10);
    assert_eq!(o.len(), 10);
    assert_eq!(r.len(), 10);
    for i in 0..10 {
        assert!(!z.get_bit(i));
        assert!(o.get_bit(i));
    }
}

#[test]
fn chromosome_set_bit_changes_one_bit() {
    let mut c = BinaryChromosome::zeroes(16);
    c.set_bit(7, true);
    for i in 0..16 {
        assert_eq!(c.get_bit(i), i == 7);
    }
    let d = c.clone();
    assert!(d.get_bit(7));
    assert_eq!(d.len(), 16);
}

#[test]
fn mutation_keeps_length() {
    let mutation = BinaryBitMutation::new(1, 2);
    let mut c = BinaryChromosome::zeroes(32);
    mutation.mutate_bits(&mut c);
    assert_eq!(c.len(), 32);
}

#[test]
fn mutation_with_certain_rate_flips_everything() {
    let mutation = BinaryBitMutation::new(1, 1);
    let mut c = BinaryChromosome::zeroes(20);
    mutation.mutate_bits(&mut c);
    for i in 0..20 {
        assert!(c.get_bit(i));
    }
}

#[test]
fn uniform_recombination_takes_bits_from_parents() {
    let rec = BinaryUniformRecombination::new(0);
    let p1 = BinaryChromosome::zeroes(40);
    let p2 = BinaryChromosome::zeroes(40);
    let child = rec.recombine_bits(&p1, &p2);
    assert_eq!(child.len(), 40);
    for i in 0..40 {
        assert!(!child.get_bit(i));
    }
}

#[test]
fn npoint_crossover_takes_bits_from_parents() {
    let rec = BinaryNPointBitCrossover::new(2);
    let p1 = BinaryChromosome::zeroes(40);
    let p2 = BinaryChromosome::ones(40);
    let child = rec.recombine_bits(&p1, &p2);
    assert_eq!(child.len(), 40);
    // Every bit comes from one of the parents; with these parents any
    // bit pattern is made of full segments, and the ends belong to the
    // first parent.
    assert!(!child.get_bit(0));
}

#[test]
fn simple_expressor_maps_bits_to_cells() {
    let expressor = MySimpleExpressor {};
    let mut genotype = BinaryChromosome::zeroes(64);
    genotype.set_bit(0, true); // cell (0, 0)
    genotype.set_bit(8 + 3, true); // cell (1, 3)
    let phenotype = expressor.express_seed(&genotype);
    for x in 0..8 {
        for y in 0..8 {
            let expected = (x == 0 && y == 0) || (x == 1 && y == 3);
            assert_eq!(phenotype.bit_grid.get(x, y), expected);
        }
    }
}

#[test]
fn neutral_expressor_all_zeroes_is_dead() {
    let mut expressor = MyNeutralExpressor::new(4);
    let genotype = BinaryChromosome::zeroes(expressor.genotype_length());
    let phenotype = expressor.express_seed(&genotype);
    for x in 0..8 {
        for y in 0..8 {
            assert!(!phenotype.bit_grid.get(x, y));
        }
    }
}

#[test]
fn neutral_expressor_all_ones_is_alive() {
    let mut expressor = MyNeutralExpressor::new(4);
    let genotype = BinaryChromosome::ones(expressor.genotype_length());
    let phenotype = expressor.express_seed(&genotype);
    // Selector bit one, three votes of three: majority everywhere.
    for x in 0..8 {
        for y in 0..8 {
            assert!(phenotype.bit_grid.get(x, y));
        }
    }
}

#[test]
fn neutral_expressor_group_lookup() {
    let mut expressor = MyNeutralExpressor::new(4);
    // Eight group-value bits all one, no swaps, every cell with
    // selector zero and group index zero: every cell reads group zero,
    // whose value is one.
    let len = expressor.genotype_length();
    let mut genotype = BinaryChromosome::zeroes(len);
    for i in 0..8 {
        genotype.set_bit(i, true);
    }
    let phenotype = expressor.express_seed(&genotype);
    for x in 0..8 {
        for y in 0..8 {
            assert!(phenotype.bit_grid.get(x, y));
        }
    }
}

#[test]
fn neutral_genotype_length_formula() {
    let expressor = MyNeutralExpressor::new(4);
    assert_eq!(expressor.genotype_length(), 64 * 4 + 2 * 8);
    let expressor3 = MyNeutralExpressor::new(3);
    assert_eq!(expressor3.genotype_length(), 64 * 3 + 2 * 4);
}

#[test]
fn weighted_fitness_formula() {
    let mut weights = FitnessWeights::new();
    weights.num_toggled_cells = 2;
    weights.max_alive_cells = 3;
    let calc = WeightedFitness::new(weights);
    let stats = RunStats {
        ini_cells: 5,
        max_cells: 7,
        max_cells_steps: 1,
        num_toggled: 11,
        num_toggled_steps: 2,
        min_cells_after_max: 4,
        min_cells_after_max_steps: 3,
        num_steps: 9,
    };
    assert_eq!(calc.calculate_fitness(&stats), 2 * 11 + 3 * 7);
}

#[test]
fn evaluator_scores_empty_seed_as_zero() {
    let mut evaluator = MyEvaluator::new(16, true, WeightedFitness::new(FitnessWeights::new()));
    let expressor = MySimpleExpressor {};
    let phenotype = expressor.express_seed(&BinaryChromosome::zeroes(64));
    let fitness = evaluator.evaluate(&phenotype);
    assert_eq!(fitness, 0);
    assert!(evaluator.num_ca_steps() > 0);
}

#[test]
fn evaluator_scores_block_seed() {
    // A block is a still life: num_toggled stays at four.
    let mut evaluator = MyEvaluator::new(16, true, WeightedFitness::new(FitnessWeights::new()));
    let expressor = MySimpleExpressor {};
    let mut genotype = BinaryChromosome::zeroes(64);
    genotype.set_bit(3 * 8 + 3, true); // cell (3, 3)
    genotype.set_bit(3 * 8 + 4, true); // cell (3, 4)
    genotype.set_bit(4 * 8 + 3, true); // cell (4, 3)
    genotype.set_bit(4 * 8 + 4, true); // cell (4, 4)
    let phenotype = expressor.express_seed(&genotype);
    let fitness = evaluator.evaluate(&phenotype);
    assert_eq!(fitness, 4);
}

#[test]
fn settings_builders() {
    let s = MyEaSettings::new()
        .set_garden_size(16)
        .set_border(true)
        .set_population_size(6)
        .set_tournament_size(3)
        .set_elitism(false)
        .set_mutation_rate(500000)
        .set_recombination_rate(250000);
    assert_eq!(s.garden_size(), 16);
    assert!(s.border_wraps());
    assert_eq!(s.population_size(), 6);
    assert_eq!(s.tournament_size(), 3);
    assert!(!s.elitism());
    assert_eq!(s.mutation_rate(), 500000);
    assert_eq!(s.recombination_rate(), 250000);
}

#[test]
fn setup_builds_empty_population() {
    let settings = MyEaSettings::new().set_population_size(5).set_garden_size(12);
    let ea = setup_ga(&settings);
    assert_eq!(ea.num_generations(), 1);
    assert_eq!(ea.num_evaluations(), 0);
    assert_eq!(ea.population().size(), 0);
}

#[test]
fn search_steps_generations() {
    let settings = MyEaSettings::new().set_garden_size(12).set_population_size(4);
    let mut search = MyEvolutionaryAlgorithm::new(&settings);
    assert_eq!(search.num_generations(), 1);

    search.step();
    let ea = search.ea();
    assert_eq!(ea.population().size(), 4);
    for i in 0..4 {
        let indiv = ea.population().get_individual(i);
        assert!(indiv.phenotype().is_some());
        assert!(indiv.fitness.is_some());
    }
    assert!(search.num_evaluations() >= 1);
    assert!(search.num_ca_steps() > 0);

    search.step();
    assert_eq!(search.num_generations(), 2);
    assert!(search.evaluation_delta() <= search.num_evaluations());
}

#[test]
fn gene_and_cell_counts_cover_population() {
    let settings = MyEaSettings::new().set_garden_size(12).set_population_size(3);
    let mut search = MyEvolutionaryAlgorithm::new(&settings);
    search.step();

    let genotype_length = search.ea().config.genotype_length;
    let gene_counts = search.gene_counts().clone();
    assert_eq!(gene_counts.len(), genotype_length);
    for count in &gene_counts {
        assert!(*count <= 3);
    }
    assert_eq!(search.genotype_len() as usize, genotype_length);

    let cell_counts = search.cell_counts().clone();
    assert_eq!(cell_counts.len(), 64);
    for count in &cell_counts {
        assert!(*count <= 3);
    }
    assert_eq!(search.phenotype_len(), 64);
}

#[test]
fn search_reset_restarts() {
    let settings = MyEaSettings::new().set_garden_size(12).set_population_size(3);
    let mut search = MyEvolutionaryAlgorithm::new(&settings);
    search.step();
    assert!(search.num_evaluations() > 0);
    search.reset(&settings);
    assert_eq!(search.num_generations(), 1);
    assert_eq!(search.num_evaluations(), 0);
    assert_eq!(search.max_fitness(), 0);
}
