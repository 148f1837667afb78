//! Driving a board until dormancy: aggregate statistics over a trajectory,
//! and the runner that keeps stepping while any tracked aggregate improves.

use vstd::prelude::*;
use crate::grid::BitGrid;
use crate::life::{GameOfLife, GridBorder, gol_step};
use crate::counter::{BitCounter, live_count, lemma_live_count_le_area, lemma_live_count_subset};

verus! {

/// Aggregates over one run.
#[derive(Clone, Copy, Debug)]
pub struct RunStats {
    /// Live cells at the start of the run.
    pub ini_cells: u16,
    /// Running maximum of the live-cell count.
    pub max_cells: u16,
    /// Generation at which that maximum was first reached.
    pub max_cells_steps: u32,
    /// Cells that were alive at least once.
    pub num_toggled: u16,
    /// Generation at which that union last grew.
    pub num_toggled_steps: u32,
    /// Running minimum of the live-cell count since the maximum.
    pub min_cells_after_max: u16,
    /// Generation at which that minimum was reached.
    pub min_cells_after_max_steps: u32,
    /// Total generations executed.
    pub num_steps: u32,
}

impl RunStats {
    pub fn new(ini_cells: u16) -> (r: RunStats)
        ensures
            r.ini_cells == ini_cells,
            r.max_cells == ini_cells,
            r.max_cells_steps == 0,
            r.num_toggled == ini_cells,
            r.num_toggled_steps == 0,
            r.min_cells_after_max == ini_cells,
            r.min_cells_after_max_steps == 0,
            r.num_steps == 0,
    {
        RunStats {
            ini_cells,
            max_cells: ini_cells,
            max_cells_steps: 0,
            num_toggled: ini_cells,
            num_toggled_steps: 0,
            min_cells_after_max: ini_cells,
            min_cells_after_max_steps: 0,
            num_steps: 0,
        }
    }
}

/// Pointwise union of two equally long word sequences.
pub open spec fn or_units(a: Seq<u64>, b: Seq<u64>) -> Seq<u64> {
    Seq::new(a.len(), |i: int| a[i] | b[i])
}

/// The patience window after an improvement at generation `steps`:
/// at least `abs` more generations, and at least a fraction `rel` (in
/// hundredths) of the generations seen so far, capped at the counter's
/// range.
pub open spec fn spec_max_steps(abs: nat, rel: nat, steps: nat) -> nat {
    let a = steps + abs;
    let b = (steps * (100 + rel)) / 100;
    let m = if a >= b {
        a
    } else {
        b
    };
    if m > 0xFFFFFFFF {
        0xFFFFFFFF as nat
    } else {
        m
    }
}

/// The tracked state of a run: the board, the union of everything that
/// has lived, the aggregates, and the current dormancy deadline.
pub struct RunModel {
    pub units: Seq<u64>,
    pub toggled: Seq<u64>,
    pub max_cells: nat,
    pub max_cells_steps: nat,
    pub num_toggled: nat,
    pub num_toggled_steps: nat,
    pub min_cells: nat,
    pub min_cells_steps: nat,
    pub deadline: nat,
}

pub open spec fn run_model_init(
    u0: Seq<u64>,
    upr: int,
    w: int,
    h: int,
    abs: nat,
    rel: nat,
) -> RunModel {
    let ini = live_count(u0, upr, w, h);
    RunModel {
        units: u0,
        toggled: u0,
        max_cells: ini,
        max_cells_steps: 0,
        num_toggled: ini,
        num_toggled_steps: 0,
        min_cells: ini,
        min_cells_steps: 0,
        deadline: spec_max_steps(abs, rel, 0),
    }
}

/// One generation of the run: step the board, recount, fold the counts
/// into the aggregates, and push the deadline out if anything improved.
pub open spec fn run_model_step(
    prev: RunModel,
    upr: int,
    w: int,
    h: int,
    border: GridBorder,
    abs: nat,
    rel: nat,
    gen: nat,
) -> RunModel {
    let u = gol_step(prev.units, upr, w, h, border);
    let cells = live_count(u, upr, w, h);
    let tog = or_units(prev.toggled, u);
    let togc = live_count(tog, upr, w, h);
    let improved_max = cells > prev.max_cells;
    let improved_min = !improved_max && cells < prev.min_cells;
    let improved_tog = togc > prev.num_toggled;
    let dormant = !improved_max && !improved_min && !improved_tog;
    RunModel {
        units: u,
        toggled: tog,
        max_cells: if improved_max {
            cells
        } else {
            prev.max_cells
        },
        max_cells_steps: if improved_max {
            gen
        } else {
            prev.max_cells_steps
        },
        num_toggled: if improved_tog {
            togc
        } else {
            prev.num_toggled
        },
        num_toggled_steps: if improved_tog {
            gen
        } else {
            prev.num_toggled_steps
        },
        min_cells: if improved_max {
            cells
        } else if improved_min {
            cells
        } else {
            prev.min_cells
        },
        min_cells_steps: if improved_max {
            gen
        } else if improved_min {
            gen
        } else {
            prev.min_cells_steps
        },
        deadline: if dormant {
            prev.deadline
        } else {
            spec_max_steps(abs, rel, gen)
        },
    }
}

/// The run state after `n` generations, the first of which happened at
/// absolute generation `g0 + 1`.
pub open spec fn run_model(
    u0: Seq<u64>,
    upr: int,
    w: int,
    h: int,
    border: GridBorder,
    abs: nat,
    rel: nat,
    g0: nat,
    n: nat,
) -> RunModel
    decreases n,
{
    if n == 0 {
        run_model_init(u0, upr, w, h, abs, rel)
    } else {
        run_model_step(
            run_model(u0, upr, w, h, border, abs, rel, g0, (n - 1) as nat),
            upr,
            w,
            h,
            border,
            abs,
            rel,
            g0 + n,
        )
    }
}

/// The aggregate record of a run of `k` generations from `u0`, as the
/// fold over the trajectory gives it.
pub open spec fn run_stats_of(
    u0: Seq<u64>,
    upr: int,
    w: int,
    h: int,
    border: GridBorder,
    abs: nat,
    rel: nat,
    g0: nat,
    k: nat,
) -> RunStats {
    let m = run_model(u0, upr, w, h, border, abs, rel, g0, k);
    RunStats {
        ini_cells: live_count(u0, upr, w, h) as u16,
        max_cells: m.max_cells as u16,
        max_cells_steps: m.max_cells_steps as u32,
        num_toggled: m.num_toggled as u16,
        num_toggled_steps: m.num_toggled_steps as u32,
        min_cells_after_max: m.min_cells as u16,
        min_cells_after_max_steps: m.min_cells_steps as u32,
        num_steps: (g0 + k) as u32,
    }
}

/// Runs a board until no tracked aggregate has improved for long enough.
pub struct GameOfLifeRunner {
    /// Generations the run is allowed to stay dormant, absolutely.
    pub min_absolute_dormancy: u32,
    /// Generations the run is allowed to stay dormant, relative to the
    /// generations seen so far, in hundredths.
    pub min_relative_dormancy_hundredths: u32,
    pub bit_counter: BitCounter,
}

impl GameOfLifeRunner {
    pub open spec fn wf(&self) -> bool {
        self.bit_counter.wf()
    }

    pub fn new(min_absolute_dormancy: u32, min_relative_dormancy_hundredths: u32) -> (r:
        GameOfLifeRunner)
        ensures
            r.wf(),
            r.min_absolute_dormancy == min_absolute_dormancy,
            r.min_relative_dormancy_hundredths == min_relative_dormancy_hundredths,
    {
        GameOfLifeRunner {
            min_absolute_dormancy,
            min_relative_dormancy_hundredths,
            bit_counter: BitCounter::new(),
        }
    }

    fn max_steps(&self, steps: u32) -> (r: u32)
        ensures
            r as nat == spec_max_steps(
                self.min_absolute_dormancy as nat,
                self.min_relative_dormancy_hundredths as nat,
                steps as nat,
            ),
    {
        let abs = self.min_absolute_dormancy;
        let rel = self.min_relative_dormancy_hundredths;
        let a: u64 = steps as u64 + abs as u64;
        proof {
            assert((steps as u128) * (100u128 + rel as u128) <= 0xFFFFFFFFu128 * (100u128
                + 0xFFFFFFFFu128)) by (nonlinear_arith)
                requires
                    steps <= 0xFFFFFFFFu128,
                    rel <= 0xFFFFFFFFu128,
            ;
        }
        let prod: u128 = (steps as u128) * (100u128 + rel as u128);
        let b128: u128 = prod / 100;
        let b: u64 = b128 as u64;
        proof {
            assert(b128 <= 0xFFFFFFFFu128 * (100u128 + 0xFFFFFFFFu128) / 100);
            assert(b == b128);
        }
        let m = if a >= b {
            a
        } else {
            b
        };
        if m > 0xFFFFFFFFu64 {
            0xFFFFFFFFu32
        } else {
            m as u32
        }
    }

    /// Step the board until the generation counter reaches the dormancy
    /// deadline, which every improvement pushes out; the returned
    /// aggregates, the final board, and the number of generations are
    /// exactly those of the fold over the trajectory.
    #[verifier::loop_isolation(false)]
    pub fn run(&self, gol: &mut GameOfLife) -> (r: RunStats)
        requires
            self.wf(),
            old(gol).wf(),
            old(gol).width * old(gol).height <= 65535,
            old(gol).num_steps < 0xFFFFFFFFu32,
        ensures
            final(gol).wf(),
            final(gol).same_shape(*old(gol)),
            final(gol).num_steps == r.num_steps,
            old(gol).num_steps < r.num_steps,
            ({
                let upr = old(gol).units_per_row as int;
                let w = old(gol).width as int;
                let h = old(gol).height as int;
                let abs = self.min_absolute_dormancy as nat;
                let rel = self.min_relative_dormancy_hundredths as nat;
                let g0 = old(gol).num_steps as nat;
                let u0 = old(gol).bit_grid.units@;
                let k = (r.num_steps - old(gol).num_steps) as nat;
                let m = run_model(u0, upr, w, h, old(gol).border, abs, rel, g0, k);
                &&& final(gol).bit_grid.units@ == m.units
                &&& r.ini_cells as nat == live_count(u0, upr, w, h)
                &&& r.max_cells as nat == m.max_cells
                &&& r.max_cells_steps as nat == m.max_cells_steps
                &&& r.num_toggled as nat == m.num_toggled
                &&& r.num_toggled_steps as nat == m.num_toggled_steps
                &&& r.min_cells_after_max as nat == m.min_cells
                &&& r.min_cells_after_max_steps as nat == m.min_cells_steps
                &&& g0 + k >= m.deadline
                &&& forall|i: nat|
                    1 <= i < k ==> g0 + i < run_model(
                        u0,
                        upr,
                        w,
                        h,
                        old(gol).border,
                        abs,
                        rel,
                        g0,
                        i,
                    ).deadline
            }),
    {
        let ghost upr = gol.units_per_row as int;
        let ghost w = gol.width as int;
        let ghost h = gol.height as int;
        let ghost border = gol.border;
        let ghost abs_g = self.min_absolute_dormancy as nat;
        let ghost rel_g = self.min_relative_dormancy_hundredths as nat;
        let ghost g0 = gol.num_steps as nat;
        let ghost u0 = gol.bit_grid.units@;

        proof {
            lemma_live_count_le_area(u0, upr, w, h);
        }
        let ini = self.bit_counter.count_live_cells(gol);
        let mut stats = RunStats::new(ini as u16);
        let mut max_steps = self.max_steps(0);
        let mut toggled = gol.bit_grid.clone();
        let ghost mut k: nat = 0;
        let ghost mut first: int = 1;

        loop
            invariant
                self.wf(),
                gol.wf(),
                gol.same_shape(*old(gol)),
                toggled.wf(),
                toggled.width == gol.bit_grid.width,
                toggled.height == gol.bit_grid.height,
                toggled.units_per_row == gol.bit_grid.units_per_row,
                toggled.units@.len() == gol.bit_grid.units@.len(),
                gol.num_steps == g0 + k,
                g0 + k <= 0xFFFFFFFF,
                first == 1 || first == 0,
                first == 1 <==> k == 0,
                first == 0 ==> g0 + k < max_steps,
                stats.ini_cells as nat == live_count(u0, upr, w, h),
                stats.num_steps == 0,
                ({
                    let m = run_model(u0, upr, w, h, border, abs_g, rel_g, g0, k);
                    &&& gol.bit_grid.units@ == m.units
                    &&& toggled.units@ == m.toggled
                    &&& stats.max_cells as nat == m.max_cells
                    &&& stats.max_cells_steps as nat == m.max_cells_steps
                    &&& stats.num_toggled as nat == m.num_toggled
                    &&& stats.num_toggled_steps as nat == m.num_toggled_steps
                    &&& stats.min_cells_after_max as nat == m.min_cells
                    &&& stats.min_cells_after_max_steps as nat == m.min_cells_steps
                    &&& max_steps as nat == m.deadline
                }),
                forall|i: nat|
                    1 <= i <= k ==> g0 + i < run_model(
                        u0,
                        upr,
                        w,
                        h,
                        border,
                        abs_g,
                        rel_g,
                        g0,
                        i,
                    ).deadline,
            decreases
                    65535 - stats.max_cells,
                    stats.min_cells_after_max,
                    65535 - stats.num_toggled,
                    first,
                    max_steps - gol.num_steps,
        {
            let ghost prev = run_model(u0, upr, w, h, border, abs_g, rel_g, g0, k);
            gol.step();
            proof {
                k = k + 1;
                assert(gol.bit_grid.units@ == gol_step(prev.units, upr, w, h, border));
            }
            let ghost m = run_model(u0, upr, w, h, border, abs_g, rel_g, g0, k);
            let ghost gen = g0 + k;

            let mut dormant = true;
            proof {
                lemma_live_count_le_area(gol.bit_grid.units@, upr, w, h);
            }
            let num_cells_raw = self.bit_counter.count_live_cells(gol);
            let num_cells = num_cells_raw as u16;

            if num_cells > stats.max_cells {
                stats.max_cells = num_cells;
                stats.max_cells_steps = gol.num_steps();
                stats.min_cells_after_max = num_cells;
                stats.min_cells_after_max_steps = stats.max_cells_steps;
                dormant = false;
            } else if num_cells < stats.min_cells_after_max {
                stats.min_cells_after_max = num_cells;
                stats.min_cells_after_max_steps = gol.num_steps();
                dormant = false;
            }

            toggled.or(&gol.bit_grid);
            proof {
                assert(toggled.units@ =~= or_units(prev.toggled, gol.bit_grid.units@));
                lemma_live_count_le_area(toggled.units@, upr, w, h);
            }
            let toggled_count_raw = self.bit_counter.count_live_cells_in_bitgrid(gol, &toggled);
            let toggled_count = toggled_count_raw as u16;
            if toggled_count > stats.num_toggled {
                stats.num_toggled = toggled_count;
                stats.num_toggled_steps = gol.num_steps();
                dormant = false;
            }

            if !dormant {
                max_steps = self.max_steps(gol.num_steps());
            }
            proof {
                assert(m == run_model_step(prev, upr, w, h, border, abs_g, rel_g, gen));
                assert(stats.max_cells as nat == m.max_cells);
                assert(max_steps as nat == m.deadline);
            }
            if gol.num_steps() >= max_steps {
                stats.num_steps = gol.num_steps();
                return stats;
            }
            proof {
                first = 0;
            }
        }
    }
}

} // verus!
