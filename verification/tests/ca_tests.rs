use ga_of_life::grid::{BitGrid, BITS_PER_UNIT};
use ga_of_life::counter::BitCounter;
use ga_of_life::life::GameOfLife;
use ga_of_life::runner::GameOfLifeRunner;

fn add_glider(gol: &mut GameOfLife, x: usize, y: usize) {
    // Glider pattern:
    //    *
    //      *
    //  * * *
    gol.set(1 + x, 0 + y);
    gol.set(2 + x, 1 + y);
    gol.set(0 + x, 2 + y);
    gol.set(1 + x, 2 + y);
    gol.set(2 + x, 2 + y);
}

fn add_leftwards_glider(gol: &mut GameOfLife, x: usize, y: usize) {
    // Glider pattern:
    //    *
    //  *
    //  * * *
    gol.set(1 + x, 0 + y);
    gol.set(0 + x, 1 + y);
    gol.set(0 + x, 2 + y);
    gol.set(1 + x, 2 + y);
    gol.set(2 + x, 2 + y);
}

fn add_blinker(gol: &mut GameOfLife, x: usize, y: usize) {
    // Blinker pattern:
    //   * * *
    gol.set(0 + x, y);
    gol.set(1 + x, y);
    gol.set(2 + x, y);
}

#[test]
fn basic_bit_count() {
    let mut g = BitGrid::new(BITS_PER_UNIT * 2, 2);
    let bc = BitCounter::new();

    g.set(0, 0);
    g.set(15, 0);
    g.set(34, 0);
    g.set(57, 1);

    assert_eq!(bc.count_set_bits(&g), 4);
}

#[test]
fn grid_invert() {
    let mut bit_grid = BitGrid::new(BITS_PER_UNIT, 3);
    let bc = BitCounter::new();

    bit_grid.toggle_all();
    assert_eq!(bc.count_set_bits(&bit_grid), BITS_PER_UNIT * 3);
}

#[test]
fn count_cells_all_ones() {
    let w = 58;
    let h = 3;
    let mut gol = GameOfLife::new(w, h, true);
    let bc = BitCounter::new();

    gol.bit_grid.toggle_all();

    assert_eq!(bc.count_live_cells(&gol), w * h);
}

#[test]
fn grid_init() {
    let mut gol = GameOfLife::new(5, 5, true);
    let bc = BitCounter::new();

    gol.set(1, 2);
    gol.set(2, 2);
    gol.set(3, 2);

    assert_eq!(bc.count_set_bits(&gol.bit_grid), 3);
    assert_eq!(bc.count_live_cells(&gol), 3);
}

#[test]
fn zeroes_border() {
    let w = 7;
    let h = 3;
    let mut gol = GameOfLife::new(w, h, false);
    let bc = BitCounter::new();

    gol.bit_grid.toggle_all();
    let num_bits = bc.count_set_bits(&gol.bit_grid);
    gol.set_border_bits();

    // All cells in actual grid should still be set
    assert_eq!(bc.count_live_cells(&gol), w * h);

    // At least all border cells should be cleared
    // Note: the implementation may clear more cells, outside the actual grid
    assert!(bc.count_set_bits(&gol.bit_grid) <= (num_bits - 2 * (w + h) - 4));
}

#[test]
fn wrapped_border() {
    let w = 7;
    let h = 7;
    let mut gol = GameOfLife::new(w, h, true);

    gol.set(0, 0); // Corner
    gol.set(3, 0); // Top row
    gol.set(4, h - 1); // Bottom row
    gol.set(0, 2); // Left column
    gol.set(w - 1, 5); // Right column
    gol.set_border_bits();

    let bc = BitCounter::new();
    assert_eq!(bc.count_set_bits(&gol.bit_grid), 5 + 4 + 3);

    // Corner
    assert!(gol.bit_grid.get(1, h + 1));
    assert!(gol.bit_grid.get(w + 1, 1));
    assert!(gol.bit_grid.get(w + 1, h + 1));

    // Other points
    assert!(gol.bit_grid.get(4, h + 1));
    assert!(gol.bit_grid.get(5, 0));
    assert!(gol.bit_grid.get(w + 1, 3));
    assert!(gol.bit_grid.get(0, 6));
}

#[test]
fn evolve_block() {
    let mut gol = GameOfLife::new(4, 4, true);
    let bc = BitCounter::new();

    // Pattern:
    //  * *
    //  * *
    gol.set(1, 1);
    gol.set(2, 1);
    gol.set(2, 1);
    gol.set(2, 2);

    gol.step();

    // Pattern should remain unchanged.
    assert_eq!(bc.count_live_cells(&gol), 4);
    assert!(gol.get(1, 1));
    assert!(gol.get(2, 1));
    assert!(gol.get(2, 1));
    assert!(gol.get(2, 2));
}

#[test]
fn evolve_small_oscillator() {
    let mut gol = GameOfLife::new(5, 5, true);
    let bc = BitCounter::new();

    add_blinker(&mut gol, 1, 2);

    gol.step();

    // Pattern should have flipped to vertical orientation
    assert_eq!(bc.count_live_cells(&gol), 3);
    assert!(gol.get(2, 1));
    assert!(gol.get(2, 2));
    assert!(gol.get(2, 3));
}

#[test]
fn evolve_glider() {
    let mut gol = GameOfLife::new(5, 5, true);
    let bc = BitCounter::new();

    add_glider(&mut gol, 1, 1);

    gol.step();
    gol.step();
    gol.step();
    gol.step();

    // Glider should have moved right and down one unit
    assert_eq!(bc.count_live_cells(&gol), 5);
    assert!(gol.get(3, 2));
    assert!(gol.get(4, 3));
    assert!(gol.get(2, 4));
    assert!(gol.get(3, 4));
    assert!(gol.get(4, 4));
}

#[test]
fn evolve_toad_across_boundary() {
    let mut gol = GameOfLife::new(BITS_PER_UNIT * 2, 6, true);
    let bc = BitCounter::new();

    // Toad pattern:
    //    * * *
    //  * * *
    gol.set(BITS_PER_UNIT - 2, 2);
    gol.set(BITS_PER_UNIT - 1, 2);
    gol.set(BITS_PER_UNIT, 2);
    gol.set(BITS_PER_UNIT - 3, 3);
    gol.set(BITS_PER_UNIT - 2, 3);
    gol.set(BITS_PER_UNIT - 1, 3);

    gol.step();
    gol.step();

    // Toad should have osillated back to starting position
    assert_eq!(bc.count_live_cells(&gol), 6);
    assert!(gol.get(BITS_PER_UNIT - 2, 2));
    assert!(gol.get(BITS_PER_UNIT - 1, 2));
    assert!(gol.get(BITS_PER_UNIT, 2));
    assert!(gol.get(BITS_PER_UNIT - 3, 3));
    assert!(gol.get(BITS_PER_UNIT - 2, 3));
    assert!(gol.get(BITS_PER_UNIT - 1, 3));
}

#[test]
fn evolve_glider_across_boundary() {
    let mut gol = GameOfLife::new(BITS_PER_UNIT * 2, 6, true);
    let bc = BitCounter::new();

    add_glider(&mut gol, BITS_PER_UNIT - 5, 0);

    for _ in 0..12 {
        gol.step();
        assert_eq!(bc.count_live_cells(&gol), 5);
    }

    // Glider should have moved across the boundary
    assert!(gol.get(BITS_PER_UNIT - 1, 3));
    assert!(gol.get(BITS_PER_UNIT, 4));
    assert!(gol.get(BITS_PER_UNIT - 2, 5));
    assert!(gol.get(BITS_PER_UNIT - 1, 5));
    assert!(gol.get(BITS_PER_UNIT, 5));
}

#[test]
fn evolve_leftwards_glider_across_boundary() {
    let mut gol = GameOfLife::new(BITS_PER_UNIT * 2, 6, true);
    let bc = BitCounter::new();

    add_leftwards_glider(&mut gol, BITS_PER_UNIT, 0);

    for _ in 0..12 {
        gol.step();
        assert_eq!(bc.count_live_cells(&gol), 5);
    }

    // Glider should have moved across the boundary
    assert!(gol.get(BITS_PER_UNIT - 2, 3));
    assert!(gol.get(BITS_PER_UNIT - 3, 4));
    assert!(gol.get(BITS_PER_UNIT - 3, 5));
    assert!(gol.get(BITS_PER_UNIT - 2, 5));
    assert!(gol.get(BITS_PER_UNIT - 1, 5));
}

fn count_across_boundary(offset: usize) {
    let mut gol = GameOfLife::new(BITS_PER_UNIT + 10, 5, true);
    let bc = BitCounter::new();

    add_blinker(&mut gol, BITS_PER_UNIT - offset, 1);

    gol.step();

    assert_eq!(bc.count_live_cells(&gol), 3);
}

#[test]
fn count_across_boundary_offset4() {
    count_across_boundary(4);
}

#[test]
fn count_across_boundary_offset3() {
    count_across_boundary(3);
}

#[test]
fn count_across_boundary_offset2() {
    count_across_boundary(2);
}

fn evolve_glider_across_wrapped_border(grid_size: usize) {
    let mut gol = GameOfLife::new(grid_size, grid_size, true);
    let bc = BitCounter::new();

    let x = 0;
    add_glider(&mut gol, x, 0);

    let num_steps = grid_size * 4;
    for _ in 0..num_steps {
        gol.step();
        assert_eq!(bc.count_live_cells(&gol), 5);
    }

    // Glider should have moved back to its starting position
    assert!(gol.get(x + 1, 0));
    assert!(gol.get(x + 2, 1));
    assert!(gol.get(x + 0, 2));
    assert!(gol.get(x + 1, 2));
    assert!(gol.get(x + 2, 2));
}

#[test]
fn evolve_glider_across_wrapped_border_5x5() {
    evolve_glider_across_wrapped_border(5);
}

#[test]
fn evolve_glider_across_wrapped_border_32x32() {
    evolve_glider_across_wrapped_border(32);
}

// Grid where a row of CA fits exactly in one grid unit
#[test]
fn evolve_glider_across_wrapped_border_62x62() {
    evolve_glider_across_wrapped_border(62);
}

// Grid where row just required two grid units
#[test]
fn evolve_glider_across_wrapped_border_63x63() {
    evolve_glider_across_wrapped_border(63);
}

#[test]
fn evolve_glider_across_wrapped_border_64x64() {
    evolve_glider_across_wrapped_border(64);
}

fn evolve_glider_against_zeroes_border(w: usize) {
    let mut gol = GameOfLife::new(w, 8, false);
    let bc = BitCounter::new();

    add_glider(&mut gol, w - 5, 1);

    for _ in 0..30 {
        gol.step();
    }

    // The glider should become a block when reaching the zeroes border
    assert_eq!(bc.count_live_cells(&gol), 4);

    assert!(gol.get(w - 2, 5));
    assert!(gol.get(w - 1, 5));
    assert!(gol.get(w - 2, 6));
    assert!(gol.get(w - 1, 6));
}

#[test]
fn evolve_glider_against_zeroes_border_w62() {
    evolve_glider_against_zeroes_border(62);
}

#[test]
fn evolve_glider_against_zeroes_border_w63() {
    evolve_glider_against_zeroes_border(63);
}

#[test]
fn evolve_glider_against_zeroes_border_w64() {
    evolve_glider_against_zeroes_border(64);
}

#[test]
fn glider_termination() {
    let mut gol = GameOfLife::new(5, 5, true);
    let runner = GameOfLifeRunner::new(20, 200);

    add_glider(&mut gol, 1, 1);

    let stats = runner.run(&mut gol);

    assert_eq!(stats.max_cells, 5);
    assert_eq!(stats.max_cells_steps, 0);
}

#[test]
fn penta_decathlon_termination() {
    let mut gol = GameOfLife::new(20, 15, true);
    let runner = GameOfLifeRunner::new(20, 200);

    for i in 5..15 {
        if i == 7 || i == 12 {
            gol.set(6, i);
            gol.set(8, i);
        } else {
            gol.set(7, i);
        }
    }

    let stats = runner.run(&mut gol);

    assert_eq!(stats.max_cells, 40);
    assert!(stats.max_cells_steps < 15);
}

#[test]
fn glider_toggled_count() {
    let size = 12;
    let mut gol = GameOfLife::new(size, size, true);
    let runner = GameOfLifeRunner::new(20, 200);

    add_glider(&mut gol, 1, 1);

    let stats = runner.run(&mut gol);

    assert!((stats.num_steps as usize) >= size * 4 * 2);
    assert!((stats.num_toggled as usize) == size * 4);
}

#[test]
fn toggle_all_twice_preserves_raw_count() {
    let mut g = BitGrid::new(70, 3);
    let bc = BitCounter::new();

    g.set(0, 0);
    g.set(65, 1);
    g.set(69, 2);
    let before = bc.count_set_bits(&g);

    g.toggle_all();
    g.toggle_all();

    assert_eq!(bc.count_set_bits(&g), before);
    assert!(g.get(0, 0) && g.get(65, 1) && g.get(69, 2));
}

#[test]
fn count_cells_all_ones_zeroed_border() {
    let w = 58;
    let h = 3;
    let mut gol = GameOfLife::new(w, h, false);
    let bc = BitCounter::new();

    gol.bit_grid.toggle_all();

    assert_eq!(bc.count_live_cells(&gol), w * h);
}

#[test]
fn set_is_idempotent() {
    let mut g = BitGrid::new(10, 10);
    g.set(3, 4);
    let mut g2 = g.clone();
    g2.set(3, 4);
    assert!(g.equals(&g2));
}

#[test]
fn set_then_clear_restores() {
    let g0 = BitGrid::new(10, 10);
    let mut g = g0.clone();
    g.set(7, 2);
    assert!(!g.equals(&g0));
    g.clear(7, 2);
    assert!(g.equals(&g0));
}

#[test]
fn reset_set_reset_is_zero() {
    let bc = BitCounter::new();
    let mut g = BitGrid::new(12, 12);
    g.reset();
    g.set(5, 5);
    g.reset();
    assert_eq!(bc.count_set_bits(&g), 0);
}

#[test]
fn union_into_other_grid() {
    let bc = BitCounter::new();
    let mut a = BitGrid::new(9, 2);
    let mut b = BitGrid::new(9, 2);
    a.set(1, 0);
    b.set(8, 1);
    b.set(1, 0);
    a.or(&b);
    assert_eq!(bc.count_set_bits(&a), 2);
    assert!(a.get(1, 0) && a.get(8, 1));
}

#[test]
fn run_stats_relations_hold() {
    // The standing relations of the aggregates over an arbitrary run.
    let mut gol = GameOfLife::new(16, 16, true);
    let runner = GameOfLifeRunner::new(10, 150);

    add_glider(&mut gol, 2, 3);
    gol.set(10, 10);
    gol.set(11, 10);

    let stats = runner.run(&mut gol);

    assert!(stats.min_cells_after_max <= stats.max_cells);
    assert!(stats.max_cells <= stats.num_toggled);
    assert!((stats.num_toggled as usize) <= 16 * 16);
    assert!(stats.max_cells_steps <= stats.min_cells_after_max_steps);
    assert!(stats.num_toggled_steps <= stats.num_steps);
}

#[test]
fn board_constructor_rejects_small_sizes() {
    assert!(ga_of_life::life::GameOfLife::new_result(2, 10, ga_of_life::life::GridBorder::Zeroes)
        .is_err());
    assert!(ga_of_life::life::GameOfLife::new_result(10, 2, ga_of_life::life::GridBorder::Wrapped)
        .is_err());
    assert!(ga_of_life::life::GameOfLife::new_result(3, 3, ga_of_life::life::GridBorder::Zeroes)
        .is_ok());
}

#[test]
fn num_cells_is_area() {
    let gol = GameOfLife::new(12, 9, false);
    assert_eq!(gol.num_cells(), 108);
    assert_eq!(gol.width(), 12);
    assert_eq!(gol.height(), 9);
}

#[test]
fn step_counts_generations() {
    let mut gol = GameOfLife::new(6, 6, true);
    assert_eq!(gol.num_steps(), 0);
    gol.step();
    gol.step();
    assert_eq!(gol.num_steps(), 2);
    gol.reset();
    assert_eq!(gol.num_steps(), 0);
}
