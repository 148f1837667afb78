//! Judging phenotypes: paint the seed at the centre of a reusable board,
//! run it to dormancy, and fold the run aggregates into a weighted
//! fitness.

use vstd::prelude::*;
use crate::life::{GameOfLife, gol_col};
use crate::runner::{GameOfLifeRunner, RunStats, run_model, run_stats_of};
use crate::counter::live_count;
use crate::express::MyPhenotype;

verus! {

/// The weight of each run aggregate in the fitness sum.
#[derive(Clone, Copy, Debug)]
pub struct FitnessWeights {
    pub num_toggled_cells: u32,
    pub num_toggled_steps: u32,
    pub max_alive_cells: u32,
    pub max_alive_steps: u32,
    pub num_start_cells: u32,
}

impl FitnessWeights {
    /// The default objective: the toggled-cell count alone.
    pub fn new() -> (r: FitnessWeights)
        ensures
            r.num_toggled_cells == 1,
            r.num_toggled_steps == 0,
            r.max_alive_cells == 0,
            r.max_alive_steps == 0,
            r.num_start_cells == 0,
    {
        FitnessWeights {
            num_toggled_cells: 1,
            num_toggled_steps: 0,
            max_alive_cells: 0,
            max_alive_steps: 0,
            num_start_cells: 0,
        }
    }
}

/// The weighted sum of the run aggregates, capped at the fitness range.
pub open spec fn spec_weighted_fitness(w: FitnessWeights, stats: RunStats) -> u64 {
    let t = w.num_toggled_cells * stats.num_toggled + w.num_toggled_steps * stats.num_toggled_steps
        + w.max_alive_cells * stats.max_cells + w.max_alive_steps * stats.max_cells_steps
        + w.num_start_cells * stats.ini_cells;
    if t > u64::MAX {
        u64::MAX
    } else {
        t as u64
    }
}

/// Folds run aggregates into a single fitness by a weighted sum.
pub struct WeightedFitness {
    pub fitness_weights: FitnessWeights,
}

impl WeightedFitness {
    pub fn new(fitness_weights: FitnessWeights) -> (r: WeightedFitness)
        ensures
            r.fitness_weights == fitness_weights,
    {
        WeightedFitness { fitness_weights }
    }

    pub fn calculate_fitness(&self, stats: &RunStats) -> (r: u64)
        ensures
            r == spec_weighted_fitness(self.fitness_weights, *stats),
    {
        let w = self.fitness_weights;
        proof {
            assert((w.num_toggled_cells as u128) * (stats.num_toggled as u128) <= 0xFFFFFFFFu128
                * 0xFFFFFFFFu128 && (w.num_toggled_steps as u128) * (stats.num_toggled_steps
                as u128) <= 0xFFFFFFFFu128 * 0xFFFFFFFFu128 && (w.max_alive_cells as u128)
                * (stats.max_cells as u128) <= 0xFFFFFFFFu128 * 0xFFFFFFFFu128 && (
            w.max_alive_steps as u128) * (stats.max_cells_steps as u128) <= 0xFFFFFFFFu128
                * 0xFFFFFFFFu128 && (w.num_start_cells as u128) * (stats.ini_cells as u128)
                <= 0xFFFFFFFFu128 * 0xFFFFFFFFu128) by (nonlinear_arith)
                requires
                    w.num_toggled_cells <= 0xFFFFFFFFu128,
                    stats.num_toggled <= 0xFFFFFFFFu128,
                    w.num_toggled_steps <= 0xFFFFFFFFu128,
                    stats.num_toggled_steps <= 0xFFFFFFFFu128,
                    w.max_alive_cells <= 0xFFFFFFFFu128,
                    stats.max_cells <= 0xFFFFFFFFu128,
                    w.max_alive_steps <= 0xFFFFFFFFu128,
                    stats.max_cells_steps <= 0xFFFFFFFFu128,
                    w.num_start_cells <= 0xFFFFFFFFu128,
                    stats.ini_cells <= 0xFFFFFFFFu128,
            ;
        }
        let t: u128 = (w.num_toggled_cells as u128) * (stats.num_toggled as u128) + (
        w.num_toggled_steps as u128) * (stats.num_toggled_steps as u128) + (
        w.max_alive_cells as u128) * (stats.max_cells as u128) + (w.max_alive_steps as u128) * (
        stats.max_cells_steps as u128) + (w.num_start_cells as u128) * (stats.ini_cells as u128);
        if t > u64::MAX as u128 {
            u64::MAX
        } else {
            t as u64
        }
    }
}

/// A storage bit of a raw word sequence, addressed as a grid.
pub open spec fn seq_bit(u: Seq<u64>, upr: int, x: int, y: int) -> bool {
    (u[y * upr + x / 64] >> ((x % 64) as u64)) & 1 == 1
}

/// The board storage that holds exactly the seed `phen` painted with its
/// top-left cell at `(x0, y0)`: every other storage bit, halo and border
/// included, is clear.
pub open spec fn is_seeded(
    u: Seq<u64>,
    upr: int,
    w: int,
    h: int,
    x0: int,
    y0: int,
    phen: MyPhenotype,
) -> bool {
    &&& u.len() == (h + 2) * upr
    &&& forall|sx: int, sy: int|
        0 <= sx < upr * 64 && 0 <= sy < h + 2 ==> (#[trigger] seq_bit(u, upr, sx, sy)
            == seed_prefix_bit(phen, upr, w, h, x0, y0, 8, 0, sx, sy))
}

/// The one fitness the evaluator owes a seed: there is a seeded board
/// for the phenotype whose run, stopped at the first crossing of the
/// dormancy deadline, folds to aggregates whose weighted sum is `f`.
/// The seeded board and that crossing are unique, so this relation
/// holds for exactly one `f` per seed pattern and configuration.
pub open spec fn fitness_outcome(
    upr: int,
    w: int,
    h: int,
    border: crate::life::GridBorder,
    abs: nat,
    rel: nat,
    weights: FitnessWeights,
    phen: MyPhenotype,
    f: u64,
) -> bool {
    exists|u0: Seq<u64>, k: nat|
        {
            &&& is_seeded(u0, upr, w, h, (w - 8) / 2, (h - 8) / 2, phen)
            &&& k >= 1
            &&& k >= (#[trigger] run_model(u0, upr, w, h, border, abs, rel, 0, k)).deadline
            &&& forall|i: nat|
                1 <= i < k ==> i < run_model(u0, upr, w, h, border, abs, rel, 0, i).deadline
            &&& f == spec_weighted_fitness(
                weights,
                run_stats_of(u0, upr, w, h, border, abs, rel, 0, k),
            )
        }
}

/// `fitness_outcome` for the board shape, dormancy parameters and
/// weights an evaluator holds.
pub open spec fn evaluator_outcome(ev: MyEvaluator, phen: MyPhenotype, f: u64) -> bool {
    fitness_outcome(
        ev.gol.units_per_row as int,
        ev.gol.width as int,
        ev.gol.height as int,
        ev.gol.border,
        ev.gol_runner.min_absolute_dormancy as nat,
        ev.gol_runner.min_relative_dormancy_hundredths as nat,
        ev.fitness_calculator.fitness_weights,
        phen,
        f,
    )
}

/// Two phenotypes with the same seed pattern owe the same fitness: the
/// seeded-board description reads only the pattern's bits.
pub proof fn lemma_outcome_same_pattern(
    upr: int,
    w: int,
    h: int,
    border: crate::life::GridBorder,
    abs: nat,
    rel: nat,
    weights: FitnessWeights,
    p1ref: &MyPhenotype,
    p2ref: &MyPhenotype,
    f: u64,
)
    requires
        p1ref.wf(),
        p2ref.wf(),
        p1ref.pattern() == p2ref.pattern(),
        fitness_outcome(upr, w, h, border, abs, rel, weights, *p1ref, f),
    ensures
        fitness_outcome(upr, w, h, border, abs, rel, weights, *p2ref, f),
{
    let p1 = *p1ref;
    let p2 = *p2ref;
    let x0 = (w - 8) / 2;
    let y0 = (h - 8) / 2;
    assert forall|x: int, y: int| 0 <= x < 64 && 0 <= y < 8 implies #[trigger] p1.bit_grid.spec_bit(
        x,
        y,
    ) == p2.bit_grid.spec_bit(x, y) by {
        assert(p1.bit_grid.units_per_row == 1 && p2.bit_grid.units_per_row == 1);
        assert(p1.bit_grid.units@ == p2.bit_grid.units@);
    }
    let (u0, k) = choose|u0: Seq<u64>, k: nat|
        {
            &&& is_seeded(u0, upr, w, h, x0, y0, p1)
            &&& k >= 1
            &&& k >= (#[trigger] run_model(u0, upr, w, h, border, abs, rel, 0, k)).deadline
            &&& forall|i: nat|
                1 <= i < k ==> i < run_model(u0, upr, w, h, border, abs, rel, 0, i).deadline
            &&& f == spec_weighted_fitness(
                weights,
                run_stats_of(u0, upr, w, h, border, abs, rel, 0, k),
            )
        };
    assert forall|sx: int, sy: int| 0 <= sx < upr * 64 && 0 <= sy < h + 2 implies (#[trigger]
    seq_bit(u0, upr, sx, sy) == seed_prefix_bit(p2, upr, w, h, x0, y0, 8, 0, sx, sy)) by {
        assert(seq_bit(u0, upr, sx, sy) == seed_prefix_bit(p1, upr, w, h, x0, y0, 8, 0, sx, sy));
        if seed_prefix_bit(p1, upr, w, h, x0, y0, 8, 0, sx, sy) {
            let (cx, cy) = choose|cx: int, cy: int|
                #[trigger] seed_prefix_witness(p1, upr, w, h, x0, y0, 8, 0, sx, sy, cx, cy);
            assert(seed_prefix_witness(p2, upr, w, h, x0, y0, 8, 0, sx, sy, cx, cy));
        }
        if seed_prefix_bit(p2, upr, w, h, x0, y0, 8, 0, sx, sy) {
            let (cx, cy) = choose|cx: int, cy: int|
                #[trigger] seed_prefix_witness(p2, upr, w, h, x0, y0, 8, 0, sx, sy, cx, cy);
            assert(seed_prefix_witness(p1, upr, w, h, x0, y0, 8, 0, sx, sy, cx, cy));
        }
    }
    assert(is_seeded(u0, upr, w, h, x0, y0, p2));
}

/// Owns a reusable board and a runner; judges seed phenotypes by
/// painting them at the board's centre and running to dormancy.
pub struct MyEvaluator {
    pub gol: GameOfLife,
    pub gol_runner: GameOfLifeRunner,
    pub num_ca_steps: u64,
    pub fitness_calculator: WeightedFitness,
}

impl MyEvaluator {
    pub open spec fn wf(&self) -> bool {
        &&& self.gol.wf()
        &&& self.gol_runner.wf()
        &&& 8 <= self.gol.width <= 255
        &&& 8 <= self.gol.height <= 255
    }

    pub fn new(garden_size: usize, wrap_border: bool, fitness_calculator: WeightedFitness) -> (r:
        MyEvaluator)
        requires
            8 <= garden_size <= 255,
        ensures
            r.wf(),
            r.num_ca_steps == 0,
            r.gol.width == garden_size,
            r.gol.height == garden_size,
            r.gol.num_steps == 0,
            r.gol.border == (if wrap_border {
                crate::life::GridBorder::Wrapped
            } else {
                crate::life::GridBorder::Zeroes
            }),
            r.gol_runner.min_absolute_dormancy == 100,
            r.gol_runner.min_relative_dormancy_hundredths == 200,
            r.fitness_calculator == fitness_calculator,
    {
        MyEvaluator {
            gol: GameOfLife::new(garden_size, garden_size, wrap_border),
            gol_runner: GameOfLifeRunner::new(100, 200),
            num_ca_steps: 0,
            fitness_calculator,
        }
    }

    pub fn num_ca_steps(&self) -> (r: u64)
        ensures
            r == self.num_ca_steps,
    {
        self.num_ca_steps
    }

    /// Reset the board, paint the seed at its centre, run to dormancy,
    /// and return the weighted fitness of the run's aggregates; those
    /// aggregates are exactly the trajectory fold from the seeded board.
    #[verifier::loop_isolation(false)]
    pub fn evaluate(&mut self, phenotype: &MyPhenotype) -> (r: u64)
        requires
            old(self).wf(),
            phenotype.wf(),
        ensures
            final(self).wf(),
            final(self).gol.same_shape(old(self).gol),
            final(self).gol_runner == old(self).gol_runner,
            final(self).fitness_calculator == old(self).fitness_calculator,
            ({
                let upr = old(self).gol.units_per_row as int;
                let w = old(self).gol.width as int;
                let h = old(self).gol.height as int;
                let x0 = (w - 8) / 2;
                let y0 = (h - 8) / 2;
                let abs = old(self).gol_runner.min_absolute_dormancy as nat;
                let rel = old(self).gol_runner.min_relative_dormancy_hundredths as nat;
                let k = final(self).gol.num_steps as nat;
                exists|u0: Seq<u64>|
                    {
                        &&& #[trigger] is_seeded(u0, upr, w, h, x0, y0, *phenotype)
                        &&& k >= 1
                        &&& final(self).gol.bit_grid.units@ == run_model(
                            u0,
                            upr,
                            w,
                            h,
                            old(self).gol.border,
                            abs,
                            rel,
                            0,
                            k,
                        ).units
                        &&& r == spec_weighted_fitness(
                            old(self).fitness_calculator.fitness_weights,
                            run_stats_of(
                                u0,
                                upr,
                                w,
                                h,
                                old(self).gol.border,
                                abs,
                                rel,
                                0,
                                k,
                            ),
                        )
                    }
            }),
            final(self).num_ca_steps == (if old(self).num_ca_steps + final(self).gol.num_steps
                > u64::MAX {
                u64::MAX as int
            } else {
                old(self).num_ca_steps + final(self).gol.num_steps
            }),
            evaluator_outcome(*old(self), *phenotype, r),
    {
        self.gol.reset();
        let x0 = (self.gol.width() - SEED_SIDE) / 2;
        let y0 = (self.gol.height() - SEED_SIDE) / 2;
        let ghost upr = self.gol.units_per_row as int;
        let ghost w = self.gol.width as int;
        let ghost h = self.gol.height as int;
        proof {
            assert(x0 + 8 <= w && y0 + 8 <= h);
            lemma_zero_board_bits(&self.gol);
            assert forall|sx: int, sy: int| 0 <= sx < upr * 64 && 0 <= sy < h + 2 implies !(
            #[trigger] seed_prefix_bit(
                *phenotype,
                upr,
                w,
                h,
                x0 as int,
                y0 as int,
                0,
                0,
                sx,
                sy,
            )) by {
                if seed_prefix_bit(*phenotype, upr, w, h, x0 as int, y0 as int, 0, 0, sx, sy) {
                    let (cx, cy) = choose|cx: int, cy: int|
                        #[trigger] seed_prefix_witness(
                            *phenotype,
                            upr,
                            w,
                            h,
                            x0 as int,
                            y0 as int,
                            0,
                            0,
                            sx,
                            sy,
                            cx,
                            cy,
                        );
                    assert(false);
                }
            }
        }
        let mut x: usize = 0;
        while x < SEED_SIDE
            invariant
                x <= 8,
                self.gol.wf(),
                self.gol.same_shape(old(self).gol),
                self.gol.num_steps == 0,
                self.gol_runner == old(self).gol_runner,
                self.fitness_calculator == old(self).fitness_calculator,
                self.num_ca_steps == old(self).num_ca_steps,
                forall|sx: int, sy: int|
                    0 <= sx < upr * 64 && 0 <= sy < h + 2 ==> (#[trigger] seq_bit(
                        self.gol.bit_grid.units@,
                        upr,
                        sx,
                        sy,
                    ) == seed_prefix_bit(
                        *phenotype,
                        upr,
                        w,
                        h,
                        x0 as int,
                        y0 as int,
                        x as int,
                        0,
                        sx,
                        sy,
                    )),
            decreases 8 - x,
        {
            let mut y: usize = 0;
            while y < SEED_SIDE
                invariant
                    x < 8,
                    y <= 8,
                    self.gol.wf(),
                    self.gol.same_shape(old(self).gol),
                    self.gol.num_steps == 0,
                    self.gol_runner == old(self).gol_runner,
                    self.fitness_calculator == old(self).fitness_calculator,
                    self.num_ca_steps == old(self).num_ca_steps,
                    forall|sx: int, sy: int|
                        0 <= sx < upr * 64 && 0 <= sy < h + 2 ==> (#[trigger] seq_bit(
                            self.gol.bit_grid.units@,
                            upr,
                            sx,
                            sy,
                        ) == seed_prefix_bit(
                            *phenotype,
                            upr,
                            w,
                            h,
                            x0 as int,
                            y0 as int,
                            x as int,
                            y as int,
                            sx,
                            sy,
                        )),
                decreases 8 - y,
            {
                let ghost pre = self.gol.bit_grid.units@;
                let alive = phenotype.bit_grid.get(x, y);
                if alive {
                    self.gol.set(x0 + x, y0 + y);
                }
                proof {
                    let xi = x as int;
                    let yi = y as int;
                    let x0i = x0 as int;
                    let y0i = y0 as int;
                    assert forall|sx: int, sy: int|
                        0 <= sx < upr * 64 && 0 <= sy < h + 2 implies (#[trigger] seq_bit(
                        self.gol.bit_grid.units@,
                        upr,
                        sx,
                        sy,
                    ) == seed_prefix_bit(
                        *phenotype,
                        upr,
                        w,
                        h,
                        x0i,
                        y0i,
                        xi,
                        yi + 1,
                        sx,
                        sy,
                    )) by {
                        assert(seq_bit(self.gol.bit_grid.units@, upr, sx, sy)
                            == self.gol.bit_grid.spec_bit(sx, sy));
                        assert(seq_bit(pre, upr, sx, sy) == seed_prefix_bit(
                            *phenotype,
                            upr,
                            w,
                            h,
                            x0i,
                            y0i,
                            xi,
                            yi,
                            sx,
                            sy,
                        ));
                        if alive && sx == gol_col(x0i + xi) && sy == y0i + yi + 1 {
                            assert(seed_prefix_witness(
                                *phenotype,
                                upr,
                                w,
                                h,
                                x0i,
                                y0i,
                                xi,
                                yi + 1,
                                sx,
                                sy,
                                x0i + xi,
                                y0i + yi,
                            ));
                        } else {
                            assert(self.gol.bit_grid.spec_bit(sx, sy) == seq_bit(
                                pre,
                                upr,
                                sx,
                                sy,
                            ));
                            if seed_prefix_bit(*phenotype, upr, w, h, x0i, y0i, xi, yi, sx, sy) {
                                let (cx, cy) = choose|cx: int, cy: int|
                                    #[trigger] seed_prefix_witness(
                                        *phenotype,
                                        upr,
                                        w,
                                        h,
                                        x0i,
                                        y0i,
                                        xi,
                                        yi,
                                        sx,
                                        sy,
                                        cx,
                                        cy,
                                    );
                                assert(seed_prefix_witness(
                                    *phenotype,
                                    upr,
                                    w,
                                    h,
                                    x0i,
                                    y0i,
                                    xi,
                                    yi + 1,
                                    sx,
                                    sy,
                                    cx,
                                    cy,
                                ));
                            }
                            if seed_prefix_bit(
                                *phenotype,
                                upr,
                                w,
                                h,
                                x0i,
                                y0i,
                                xi,
                                yi + 1,
                                sx,
                                sy,
                            ) {
                                let (cx, cy) = choose|cx: int, cy: int|
                                    #[trigger] seed_prefix_witness(
                                        *phenotype,
                                        upr,
                                        w,
                                        h,
                                        x0i,
                                        y0i,
                                        xi,
                                        yi + 1,
                                        sx,
                                        sy,
                                        cx,
                                        cy,
                                    );
                                if cx - x0i == xi && cy - y0i == yi {
                                    assert(phenotype.bit_grid.spec_bit(xi, yi));
                                    assert(alive);
                                    assert(sx == gol_col(x0i + xi) && sy == y0i + yi + 1);
                                    assert(false);
                                } else {
                                    assert(seed_prefix_witness(
                                        *phenotype,
                                        upr,
                                        w,
                                        h,
                                        x0i,
                                        y0i,
                                        xi,
                                        yi,
                                        sx,
                                        sy,
                                        cx,
                                        cy,
                                    ));
                                }
                            }
                        }
                    }
                }
                y += 1;
            }
            proof {
                let xi = x as int;
                let x0i = x0 as int;
                let y0i = y0 as int;
                assert forall|sx: int, sy: int|
                    0 <= sx < upr * 64 && 0 <= sy < h + 2 implies (#[trigger] seed_prefix_bit(
                    *phenotype,
                    upr,
                    w,
                    h,
                    x0i,
                    y0i,
                    xi,
                    8,
                    sx,
                    sy,
                ) == seed_prefix_bit(*phenotype, upr, w, h, x0i, y0i, xi + 1, 0, sx, sy)) by {
                    if seed_prefix_bit(*phenotype, upr, w, h, x0i, y0i, xi, 8, sx, sy) {
                        let (cx, cy) = choose|cx: int, cy: int|
                            #[trigger] seed_prefix_witness(
                                *phenotype,
                                upr,
                                w,
                                h,
                                x0i,
                                y0i,
                                xi,
                                8,
                                sx,
                                sy,
                                cx,
                                cy,
                            );
                        assert(seed_prefix_witness(
                            *phenotype,
                            upr,
                            w,
                            h,
                            x0i,
                            y0i,
                            xi + 1,
                            0,
                            sx,
                            sy,
                            cx,
                            cy,
                        ));
                    }
                    if seed_prefix_bit(*phenotype, upr, w, h, x0i, y0i, xi + 1, 0, sx, sy) {
                        let (cx, cy) = choose|cx: int, cy: int|
                            #[trigger] seed_prefix_witness(
                                *phenotype,
                                upr,
                                w,
                                h,
                                x0i,
                                y0i,
                                xi + 1,
                                0,
                                sx,
                                sy,
                                cx,
                                cy,
                            );
                        assert(seed_prefix_witness(
                            *phenotype,
                            upr,
                            w,
                            h,
                            x0i,
                            y0i,
                            xi,
                            8,
                            sx,
                            sy,
                            cx,
                            cy,
                        ));
                    }
                }
            }
            x += 1;
        }
        let ghost u0 = self.gol.bit_grid.units@;
        proof {
            assert(is_seeded(u0, upr, w, h, x0 as int, y0 as int, *phenotype));
            assert(w * h <= 255 * 255) by (nonlinear_arith)
                requires
                    0 <= w <= 255,
                    0 <= h <= 255,
            ;
        }
        let stats = self.gol_runner.run(&mut self.gol);
        let steps64 = stats.num_steps as u64;
        if self.num_ca_steps > u64::MAX - steps64 {
            self.num_ca_steps = u64::MAX;
        } else {
            self.num_ca_steps = self.num_ca_steps + steps64;
        }
        let result = self.fitness_calculator.calculate_fitness(&stats);
        proof {
            let k = self.gol.num_steps as nat;
            let border = old(self).gol.border;
            let abs = old(self).gol_runner.min_absolute_dormancy as nat;
            let rel = old(self).gol_runner.min_relative_dormancy_hundredths as nat;
            let weights = old(self).fitness_calculator.fitness_weights;
            assert(is_seeded(u0, upr, w, h, x0 as int, y0 as int, *phenotype));
            assert(stats == run_stats_of(u0, upr, w, h, border, abs, rel, 0, k));
            assert(k >= 1 && k >= run_model(u0, upr, w, h, border, abs, rel, 0, k).deadline);
            assert(forall|i: nat|
                1 <= i < k ==> i < run_model(u0, upr, w, h, border, abs, rel, 0, i).deadline);
            assert(result == spec_weighted_fitness(
                weights,
                run_stats_of(u0, upr, w, h, border, abs, rel, 0, k),
            ));
            assert(fitness_outcome(upr, w, h, border, abs, rel, weights, *phenotype, result));
        }
        result
    }
}

pub const SEED_SIDE: usize = 8;

/// Counts how often the wrapped evaluator actually runs.
pub struct CountingEvaluator {
    pub evaluator: MyEvaluator,
    pub num_evaluations: u32,
}

impl CountingEvaluator {
    pub open spec fn wf(&self) -> bool {
        self.evaluator.wf()
    }

    pub fn new(evaluator: MyEvaluator) -> (r: CountingEvaluator)
        ensures
            r.evaluator == evaluator,
            r.num_evaluations == 0,
    {
        CountingEvaluator { evaluator, num_evaluations: 0 }
    }

    pub fn num_evaluations(&self) -> (r: u32)
        ensures
            r == self.num_evaluations,
    {
        self.num_evaluations
    }

    /// Judge through the wrapped evaluator, counting the call; the
    /// result is the wrapped evaluator's contracted fitness for the
    /// seed pattern.
    pub fn evaluate(&mut self, phenotype: &MyPhenotype) -> (r: u64)
        requires
            old(self).wf(),
            phenotype.wf(),
        ensures
            final(self).wf(),
            final(self).evaluator.gol.same_shape(old(self).evaluator.gol),
            final(self).evaluator.gol_runner == old(self).evaluator.gol_runner,
            final(self).evaluator.fitness_calculator == old(self).evaluator.fitness_calculator,
            evaluator_outcome(old(self).evaluator, *phenotype, r),
            final(self).num_evaluations == (if old(self).num_evaluations < 0xFFFFFFFFu32 {
                old(self).num_evaluations + 1
            } else {
                old(self).num_evaluations as int
            }),
    {
        if self.num_evaluations < 0xFFFFFFFFu32 {
            self.num_evaluations = self.num_evaluations + 1;
        }
        self.evaluator.evaluate(phenotype)
    }
}

/// A reset board has every storage bit clear.
proof fn lemma_zero_board_bits(gol: &GameOfLife)
    requires
        gol.wf(),
        forall|i: int| 0 <= i < gol.bit_grid.units@.len() ==> gol.bit_grid.units@[i] == 0,
    ensures
        forall|sx: int, sy: int|
            0 <= sx < gol.units_per_row * 64 && 0 <= sy < gol.height + 2 ==> !(#[trigger] seq_bit(
                gol.bit_grid.units@,
                gol.units_per_row as int,
                sx,
                sy,
            )),
{
    let upr = gol.units_per_row as int;
    let h = gol.height as int;
    assert forall|sx: int, sy: int|
        0 <= sx < upr * 64 && 0 <= sy < h + 2 implies !(#[trigger] seq_bit(
        gol.bit_grid.units@,
        upr,
        sx,
        sy,
    )) by {
        assert(0 <= sx / 64 < upr) by (nonlinear_arith)
            requires
                0 <= sx < upr * 64,
        ;
        assert(0 <= sy * upr + sx / 64 < (h + 2) * upr) by (nonlinear_arith)
            requires
                0 <= sy < h + 2,
                0 <= sx / 64 < upr,
        ;
        assert(gol.bit_grid.units@.len() == (h + 2) * upr) by (nonlinear_arith)
            requires
                gol.bit_grid.units@.len() == gol.bit_grid.height * gol.bit_grid.units_per_row,
                gol.bit_grid.height == h + 2,
                gol.bit_grid.units_per_row == upr,
        ;
        let b = (sx % 64) as u64;
        assert((0u64 >> b) & 1 == 0) by (bit_vector);
    }
}

/// The painted-so-far description: cells in columns before `x`, or in
/// column `x` before row `y`, of the seed patch.
pub open spec fn seed_prefix_witness(
    phen: MyPhenotype,
    upr: int,
    w: int,
    h: int,
    x0: int,
    y0: int,
    x: int,
    y: int,
    sx: int,
    sy: int,
    cx: int,
    cy: int,
) -> bool {
    &&& (0 <= cx - x0 < x || (cx - x0 == x && 0 <= cy - y0 < y))
    &&& 0 <= cy - y0 < 8
    &&& 0 <= cx < w
    &&& 0 <= cy < h
    &&& sx == gol_col(cx)
    &&& sy == cy + 1
    &&& phen.bit_grid.spec_bit(cx - x0, cy - y0)
}

pub open spec fn seed_prefix_bit(
    phen: MyPhenotype,
    upr: int,
    w: int,
    h: int,
    x0: int,
    y0: int,
    x: int,
    y: int,
    sx: int,
    sy: int,
) -> bool {
    exists|cx: int, cy: int| seed_prefix_witness(phen, upr, w, h, x0, y0, x, y, sx, sy, cx, cy)
}

} // verus!
