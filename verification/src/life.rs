//! The Game of Life board: a padded, bit-packed grid with one border row
//! above and below, one halo bit at each side of every row, and a spillover
//! bit per chunk, updated one generation at a time by word-parallel
//! bitwise arithmetic.

use vstd::prelude::*;
use crate::grid::BitGrid;

verus! {

/// Effective cells per storage chunk: one storage bit is reserved as the
/// spillover slot for the chunk to the right.
pub const BITS_PER_UNIT_GOL: usize = 63;

#[derive(PartialEq, Eq, Structural, Clone, Copy, Debug)]
pub enum GridBorder {
    Zeroes,
    Wrapped,
}

pub struct GameOfLife {
    pub bit_grid: BitGrid,
    pub width: usize,
    pub height: usize,
    pub border: GridBorder,
    pub units_per_row: usize,
    pub num_steps: u32,
    pub row_above: Vec<u64>,
    pub row_curr: Vec<u64>,
}

/// Storage column of the cell at board column `x`: chunk `(x+1)/63`,
/// bit `(x+1)%63` inside it.
pub open spec fn gol_col(x: int) -> int {
    ((x + 1) / 63) * 64 + (x + 1) % 63
}

impl GameOfLife {
    /// The dimension cap is a machine limit, not part of the design:
    /// with sides at most 63000 a row has at most 1001 chunks, so the
    /// padded grid is at most 64064 storage columns wide and 63002 rows
    /// tall, inside the underlying grid's own bound, and every address
    /// product stays far below the counting range.
    pub open spec fn wf(&self) -> bool {
        &&& self.bit_grid.wf()
        &&& self.units_per_row == (self.width + 63) / 63
        &&& self.bit_grid.width == self.units_per_row * 64
        &&& self.bit_grid.height == self.height + 2
        &&& self.bit_grid.units_per_row == self.units_per_row
        &&& 3 <= self.width <= 63000
        &&& 3 <= self.height <= 63000
        &&& self.row_above@.len() == self.units_per_row
        &&& self.row_curr@.len() == self.units_per_row
    }

    /// The cell at board coordinates `(x, y)`, stored one row down and one
    /// bit in from the top-left of the underlying grid.
    pub open spec fn spec_cell(&self, x: int, y: int) -> bool {
        self.bit_grid.spec_bit(gol_col(x), y + 1)
    }

    pub fn new_result(width: usize, height: usize, border: GridBorder) -> (r: Result<
        GameOfLife,
        String,
    >)
        requires
            width <= 63000,
            height <= 63000,
        ensures
            r is Err <==> (width < 3 || height < 3),
            r matches Ok(g) ==> {
                &&& g.wf()
                &&& g.width == width
                &&& g.height == height
                &&& g.border == border
                &&& g.num_steps == 0
                &&& forall|i: int| 0 <= i < g.bit_grid.units@.len() ==> g.bit_grid.units@[i] == 0
            },
    {
        let units_per_row = (width + 1 + (BITS_PER_UNIT_GOL - 1)) / BITS_PER_UNIT_GOL;
        if width < 3 || height < 3 {
            return Err("Size too small".to_string());
        }
        proof {
            assert(units_per_row * 64 <= 65535 && ((units_per_row * 64) + 63) / 64
                == units_per_row) by (nonlinear_arith)
                requires
                    units_per_row == (width + 63) / 63,
                    3 <= width <= 63000,
            ;
        }
        Ok(
            GameOfLife {
                bit_grid: BitGrid::new(units_per_row * 64, height + 2),
                width,
                height,
                border,
                units_per_row,
                num_steps: 0,
                row_above: vec![0u64; units_per_row],
                row_curr: vec![0u64; units_per_row],
            },
        )
    }

    pub fn new(width: usize, height: usize, wrap_border: bool) -> (r: GameOfLife)
        requires
            3 <= width <= 63000,
            3 <= height <= 63000,
        ensures
            r.wf(),
            r.width == width,
            r.height == height,
            r.border == (if wrap_border {
                GridBorder::Wrapped
            } else {
                GridBorder::Zeroes
            }),
            r.num_steps == 0,
            forall|i: int| 0 <= i < r.bit_grid.units@.len() ==> r.bit_grid.units@[i] == 0,
    {
        let border = if wrap_border {
            GridBorder::Wrapped
        } else {
            GridBorder::Zeroes
        };
        match GameOfLife::new_result(width, height, border) {
            Ok(g) => g,
            Err(_) => vstd::pervasive::unreached(),
        }
    }

    pub fn width(&self) -> (r: usize)
        ensures
            r == self.width,
    {
        self.width
    }

    pub fn height(&self) -> (r: usize)
        ensures
            r == self.height,
    {
        self.height
    }

    pub fn num_cells(&self) -> (r: usize)
        requires
            self.wf(),
        ensures
            r == self.width * self.height,
    {
        proof {
            assert(self.width * self.height <= 63000 * 63000) by (nonlinear_arith)
                requires
                    self.width <= 63000,
                    self.height <= 63000,
            ;
        }
        self.width * self.height
    }

    pub fn num_steps(&self) -> (r: u32)
        ensures
            r == self.num_steps,
    {
        self.num_steps
    }

    pub fn reset(&mut self)
        requires
            old(self).wf(),
        ensures
            final(self).wf(),
            final(self).same_shape(*old(self)),
            final(self).num_steps == 0,
            forall|i: int|
                0 <= i < final(self).bit_grid.units@.len() ==> final(self).bit_grid.units@[i] == 0,
    {
        self.bit_grid.reset();
        self.num_steps = 0;
    }

    /// Dimensions, border policy and scratch shape agree; only cell
    /// contents and the generation counter may differ.
    pub open spec fn same_shape(&self, other: GameOfLife) -> bool {
        &&& self.width == other.width
        &&& self.height == other.height
        &&& self.border == other.border
        &&& self.units_per_row == other.units_per_row
        &&& self.bit_grid.width == other.bit_grid.width
        &&& self.bit_grid.height == other.bit_grid.height
        &&& self.bit_grid.units_per_row == other.bit_grid.units_per_row
        &&& self.bit_grid.units@.len() == other.bit_grid.units@.len()
    }

    /// The storage column of an in-range cell: in range for the underlying
    /// grid, and never the spillover bit of a chunk.
    proof fn lemma_col_range(&self, x: int)
        requires
            self.wf(),
            0 <= x < self.width,
        ensures
            0 <= gol_col(x) < self.units_per_row * 64,
            gol_col(x) % 64 == (x + 1) % 63,
            gol_col(x) / 64 == (x + 1) / 63,
    {
        lemma_gol_col_parts(x);
        assert((x + 1) / 63 < self.units_per_row && 0 <= (x + 1) / 63) by (nonlinear_arith)
            requires
                0 <= x < self.width,
                self.units_per_row == (self.width + 63) / 63,
        ;
        assert(((x + 1) / 63) * 64 + (x + 1) % 63 < self.units_per_row * 64) by (nonlinear_arith)
            requires
                (x + 1) / 63 < self.units_per_row,
                0 <= (x + 1) % 63 < 63,
        ;
        assert(gol_col(x) >= 0) by (nonlinear_arith)
            requires
                0 <= (x + 1) / 63,
                0 <= (x + 1) % 63,
        ;
    }

    fn unit_index(&self, x: usize, y: usize) -> (r: usize)
        requires
            self.wf(),
            x < self.width,
            y < self.height,
        ensures
            r == (y + 1) * self.units_per_row + gol_col(x as int) / 64,
            r < self.bit_grid.units@.len(),
    {
        proof {
            self.lemma_col_range(x as int);
            assert((y + 1) * self.units_per_row + (x + 1) / 63 < (self.height + 2)
                * self.units_per_row && self.units_per_row * (y + 1) == (y + 1)
                * self.units_per_row && (self.height + 2) * self.units_per_row <= 63002 * 1001)
                by (nonlinear_arith)
                requires
                    y < self.height <= 63000,
                    0 <= (x + 1) / 63 < self.units_per_row <= 1001,
            ;
        }
        (x + 1) / BITS_PER_UNIT_GOL + self.units_per_row * (y + 1)
    }

    pub fn get(&self, x: usize, y: usize) -> (r: bool)
        requires
            self.wf(),
            x < self.width,
            y < self.height,
        ensures
            r == self.spec_cell(x as int, y as int),
    {
        proof {
            self.lemma_col_range(x as int);
        }
        let unit = self.bit_grid.units[self.unit_index(x, y)];
        let bitpos = ((x + 1) % BITS_PER_UNIT_GOL) as u64;
        ((unit >> bitpos) & 1) == 1
    }

    pub fn set(&mut self, x: usize, y: usize)
        requires
            old(self).wf(),
            x < old(self).width,
            y < old(self).height,
        ensures
            final(self).wf(),
            final(self).same_shape(*old(self)),
            final(self).num_steps == old(self).num_steps,
            forall|xx: int, yy: int|
                0 <= xx < final(self).units_per_row * 64 && 0 <= yy < final(self).height + 2
                    ==> #[trigger] final(self).bit_grid.spec_bit(xx, yy) == if xx == gol_col(
                    x as int,
                ) && yy == y + 1 {
                    true
                } else {
                    old(self).bit_grid.spec_bit(xx, yy)
                },
            forall|xx: int, yy: int|
                0 <= xx < final(self).width && 0 <= yy < final(self).height
                    ==> #[trigger] final(self).spec_cell(xx, yy) == if xx == x as int && yy
                    == y as int {
                    true
                } else {
                    old(self).spec_cell(xx, yy)
                },
    {
        proof {
            self.lemma_col_range(x as int);
        }
        let sx = (x + 1) / BITS_PER_UNIT_GOL * 64 + (x + 1) % BITS_PER_UNIT_GOL;
        self.bit_grid.set(sx, y + 1);
        proof {
            self.lemma_cells_of_bits(*old(self), x as int, y as int);
        }
    }

    pub fn clear(&mut self, x: usize, y: usize)
        requires
            old(self).wf(),
            x < old(self).width,
            y < old(self).height,
        ensures
            final(self).wf(),
            final(self).same_shape(*old(self)),
            final(self).num_steps == old(self).num_steps,
            forall|xx: int, yy: int|
                0 <= xx < final(self).units_per_row * 64 && 0 <= yy < final(self).height + 2
                    ==> #[trigger] final(self).bit_grid.spec_bit(xx, yy) == if xx == gol_col(
                    x as int,
                ) && yy == y + 1 {
                    false
                } else {
                    old(self).bit_grid.spec_bit(xx, yy)
                },
            forall|xx: int, yy: int|
                0 <= xx < final(self).width && 0 <= yy < final(self).height
                    ==> #[trigger] final(self).spec_cell(xx, yy) == if xx == x as int && yy
                    == y as int {
                    false
                } else {
                    old(self).spec_cell(xx, yy)
                },
    {
        proof {
            self.lemma_col_range(x as int);
        }
        let sx = (x + 1) / BITS_PER_UNIT_GOL * 64 + (x + 1) % BITS_PER_UNIT_GOL;
        self.bit_grid.clear(sx, y + 1);
        proof {
            self.lemma_cells_of_bits(*old(self), x as int, y as int);
        }
    }

    /// Carries a storage-bit update at cell `(x, y)`'s address over to the
    /// cell view: every other in-range cell keeps its value.
    proof fn lemma_cells_of_bits(&self, pre: GameOfLife, x: int, y: int)
        requires
            pre.wf(),
            self.wf(),
            self.same_shape(pre),
            0 <= x < pre.width,
            0 <= y < pre.height,
            forall|xx: int, yy: int|
                0 <= xx < self.units_per_row * 64 && 0 <= yy < self.height + 2
                    ==> #[trigger] self.bit_grid.spec_bit(xx, yy) == if xx == gol_col(x) && yy == y
                    + 1 {
                    self.bit_grid.spec_bit(xx, yy)
                } else {
                    pre.bit_grid.spec_bit(xx, yy)
                },
        ensures
            forall|xx: int, yy: int|
                0 <= xx < self.width && 0 <= yy < self.height && !(xx == x && yy == y)
                    ==> #[trigger] self.spec_cell(xx, yy) == pre.spec_cell(xx, yy),
    {
        assert forall|xx: int, yy: int|
            0 <= xx < self.width && 0 <= yy < self.height && !(xx == x && yy
                == y) implies #[trigger] self.spec_cell(xx, yy) == pre.spec_cell(xx, yy) by {
            self.lemma_col_range(xx);
            if gol_col(xx) == gol_col(x) && yy + 1 == y + 1 {
                lemma_gol_col_inj(xx, x);
                assert(false);
            }
        }
    }
}

/// Chunk and bit parts of a storage column.
pub proof fn lemma_gol_col_parts(x: int)
    requires
        x >= 0,
    ensures
        gol_col(x) % 64 == (x + 1) % 63,
        gol_col(x) / 64 == (x + 1) / 63,
{
    assert((((x + 1) / 63) * 64 + (x + 1) % 63) % 64 == (x + 1) % 63 && (((x + 1) / 63) * 64 + (x
        + 1) % 63) / 64 == (x + 1) / 63) by (nonlinear_arith)
        requires
            x >= 0,
    ;
}

/// Distinct cell columns occupy distinct storage columns.
pub proof fn lemma_gol_col_inj(x1: int, x2: int)
    requires
        x1 >= 0,
        x2 >= 0,
        gol_col(x1) == gol_col(x2),
    ensures
        x1 == x2,
{
    lemma_gol_col_parts(x1);
    lemma_gol_col_parts(x2);
    assert(x1 + 1 == 63 * ((x1 + 1) / 63) + (x1 + 1) % 63);
    assert(x2 + 1 == 63 * ((x2 + 1) / 63) + (x2 + 1) % 63);
}

/// Low and high bit of the two-cell vertical sum `above + below`.
pub open spec fn spec_ab_sum(a: u64, b: u64) -> u64 {
    a ^ b
}

pub open spec fn spec_ab_car(a: u64, b: u64) -> u64 {
    a & b
}

/// Low bit of the three-cell vertical sum `above + current + below`.
pub open spec fn spec_abc_sum(a: u64, c: u64, b: u64) -> u64 {
    c ^ spec_ab_sum(a, b)
}

/// High bit of the three-cell vertical sum.
pub open spec fn spec_abc_car(a: u64, c: u64, b: u64) -> u64 {
    (c & spec_ab_sum(a, b)) | spec_ab_car(a, b)
}

/// One updated chunk: the word-parallel evaluation of the birth/survival
/// rule from the three rows of this chunk and the vertical sums of the
/// chunk to its left.
pub open spec fn next_unit(above: u64, currn: u64, below: u64, sum_prev: u64, car_prev: u64) -> u64 {
    let ab_sum = spec_ab_sum(above, below);
    let ab_car = spec_ab_car(above, below);
    let s = spec_abc_sum(above, currn, below);
    let cr = spec_abc_car(above, currn, below);
    let l0 = (s << 1) | (sum_prev >> 62);
    let r0 = s >> 1;
    let lr0 = l0 ^ r0;
    let sum0 = lr0 ^ ab_sum;
    let car0 = (l0 & r0) | (lr0 & ab_sum);
    let l1 = (cr << 1) | (car_prev >> 62);
    let r1 = cr >> 1;
    let lr1 = l1 ^ r1;
    let sum1 = lr1 ^ ab_car;
    let car1 = (l1 & r1) | (lr1 & ab_car);
    (currn | sum0) & (car0 ^ sum1) & !car1
}

/// A chunk with its spillover bit overwritten by bit 0 of the chunk to
/// its right.
pub open spec fn restored_unit(u: Seq<u64>, i: int) -> u64 {
    (u[i] & !(1u64 << 63)) | ((u[i + 1] & 1) << 63)
}

/// Spillover restoration over rows 1 through `h`.
pub open spec fn restored_units(u: Seq<u64>, upr: int, h: int) -> Seq<u64> {
    Seq::new(u.len(), |i: int| if upr <= i < upr * (h + 1) { restored_unit(u, i) } else { u[i] })
}

/// One chunk under the zeroed border: border rows all zero, the left-halo
/// bit of each row's first chunk and the right-halo bit of its last chunk
/// forced to zero.
pub open spec fn zeroes_bordered_unit(u: Seq<u64>, upr: int, w: int, h: int, i: int) -> u64 {
    let r = i / upr;
    let c = i % upr;
    if r == 0 || r == h + 1 {
        0u64
    } else {
        let v = u[i];
        let v1 = if c == 0 { v & !1u64 } else { v };
        if c == upr - 1 { v1 & !(1u64 << (((w + 1) % 63) as u64)) } else { v1 }
    }
}

pub open spec fn zeroes_bordered(u: Seq<u64>, upr: int, w: int, h: int) -> Seq<u64> {
    Seq::new(u.len(), |i: int| zeroes_bordered_unit(u, upr, w, h, i))
}

/// One interior chunk after the toroidal left/right wrap: the left halo of
/// a row receives its right-edge cell, the right halo its left-edge cell.
pub open spec fn wrap_sides_unit(u: Seq<u64>, upr: int, w: int, i: int) -> u64 {
    let c = i % upr;
    let rpos = (w % 63 + 1) as u64;
    let spos = (w % 63) as u64;
    if upr == 1 {
        let v0 = u[i] & !1u64 & !(1u64 << rpos);
        let v1 = v0 | ((v0 >> spos) & 1);
        v1 | (((v1 >> 1) & 1) << rpos)
    } else if c == 0 {
        (u[i] & !1u64) | ((u[i + upr - 1] >> spos) & 1)
    } else if c == upr - 1 {
        (u[i] & !(1u64 << rpos)) | (((u[i - (upr - 1)] >> 1) & 1) << rpos)
    } else {
        u[i]
    }
}

pub open spec fn wrap_sides(u: Seq<u64>, upr: int, w: int, h: int) -> Seq<u64> {
    Seq::new(
        u.len(),
        |i: int| if upr <= i < upr * (h + 1) { wrap_sides_unit(u, upr, w, i) } else { u[i] },
    )
}

/// The toroidal top/bottom wrap: the top border row becomes a copy of the
/// last interior row, the bottom border row a copy of the first.
pub open spec fn wrap_rows(u: Seq<u64>, upr: int, h: int) -> Seq<u64> {
    Seq::new(
        u.len(),
        |i: int|
            {
                let r = i / upr;
                if r == 0 {
                    u[h * upr + i % upr]
                } else if r == h + 1 {
                    u[upr + i % upr]
                } else {
                    u[i]
                }
            },
    )
}

pub open spec fn wrapped_bordered(u: Seq<u64>, upr: int, w: int, h: int) -> Seq<u64> {
    wrap_rows(wrap_sides(u, upr, w, h), upr, h)
}

/// The halo and border synthesis dictated by the border policy.
pub open spec fn bordered(u: Seq<u64>, upr: int, w: int, h: int, border: GridBorder) -> Seq<u64> {
    match border {
        GridBorder::Zeroes => zeroes_bordered(u, upr, w, h),
        GridBorder::Wrapped => wrapped_bordered(u, upr, w, h),
    }
}

/// The chunk at row `r`, column `c` after one generation, as a function of
/// the prepared (restored and bordered) grid.
pub open spec fn stepped_unit(u: Seq<u64>, upr: int, r: int, c: int) -> u64 {
    let above = u[(r - 1) * upr + c];
    let currn = u[r * upr + c];
    let below = u[(r + 1) * upr + c];
    let sum_prev = if c == 0 {
        0u64
    } else {
        spec_abc_sum(u[(r - 1) * upr + c - 1], u[r * upr + c - 1], u[(r + 1) * upr + c - 1])
    };
    let car_prev = if c == 0 {
        0u64
    } else {
        spec_abc_car(u[(r - 1) * upr + c - 1], u[r * upr + c - 1], u[(r + 1) * upr + c - 1])
    };
    next_unit(above, currn, below, sum_prev, car_prev)
}

/// Row-by-row update of the interior rows of the prepared grid.
pub open spec fn stepped_units(u: Seq<u64>, upr: int, h: int) -> Seq<u64> {
    Seq::new(
        u.len(),
        |i: int|
            {
                let r = i / upr;
                if 1 <= r <= h {
                    stepped_unit(u, upr, r, i % upr)
                } else {
                    u[i]
                }
            },
    )
}

/// One full generation: spillover restoration, border synthesis per the
/// policy, then the word-parallel row update.
pub open spec fn gol_step(u: Seq<u64>, upr: int, w: int, h: int, border: GridBorder) -> Seq<u64> {
    stepped_units(bordered(restored_units(u, upr, h), upr, w, h, border), upr, h)
}

/// Row and column of a flat chunk index.
pub proof fn lemma_row_col(upr: int, r: int, c: int)
    requires
        upr >= 1,
        0 <= c < upr,
        r >= 0,
    ensures
        (r * upr + c) / upr == r,
        (r * upr + c) % upr == c,
        r * upr + c >= 0,
        r * upr + c >= r * upr,
{
    assert((r * upr + c) / upr == r && (r * upr + c) % upr == c && r * upr + c >= 0 && r * upr + c
        >= r * upr) by (nonlinear_arith)
        requires
            upr >= 1,
            0 <= c < upr,
            r >= 0,
    ;
}

impl GameOfLife {
    /// Shape bounds every stepping loop relies on.
    proof fn lemma_bounds(&self)
        requires
            self.wf(),
        ensures
            self.bit_grid.units@.len() == (self.height + 2) * self.units_per_row,
            1 <= self.units_per_row <= 1001,
            self.bit_grid.units@.len() <= 63002 * 1001,
            self.units_per_row * (self.height + 1) + self.units_per_row
                == self.bit_grid.units@.len(),
            self.units_per_row * (self.height + 1) == (self.height + 1) * self.units_per_row,
            self.units_per_row + self.units_per_row <= self.units_per_row * (self.height + 1),
            self.height * self.units_per_row + self.units_per_row == (self.height + 1)
                * self.units_per_row,
            self.units_per_row <= self.height * self.units_per_row,
    {
        assert(self.units_per_row >= 1 && self.units_per_row <= 1001) by (nonlinear_arith)
            requires
                self.units_per_row == (self.width + 63) / 63,
                3 <= self.width <= 63000,
        ;
        let upr = self.units_per_row as int;
        let h = self.height as int;
        assert((h + 2) * upr <= 63002 * 1001 && (h + 2) * upr == upr * (h + 1) + upr && upr * (h
            + 1) == (h + 1) * upr && upr + upr <= upr * (h + 1) && h * upr + upr == (h + 1) * upr
            && upr <= h * upr) by (nonlinear_arith)
            requires
                3 <= h <= 63000,
                1 <= upr <= 1001,
        ;
    }

    /// Overwrite the spillover bit of each chunk of rows 1 through `height`
    /// with bit 0 of the chunk to its right, whose value it mirrors.
    #[verifier::loop_isolation(false)]
    fn restore_right_bits(&mut self)
        requires
            old(self).wf(),
        ensures
            final(self).wf(),
            final(self).same_shape(*old(self)),
            final(self).num_steps == old(self).num_steps,
            final(self).bit_grid.units@ =~= restored_units(
                old(self).bit_grid.units@,
                old(self).units_per_row as int,
                old(self).height as int,
            ),
    {
        let upr = self.units_per_row;
        let h = self.height;
        proof {
            self.lemma_bounds();
        }
        let end = upr * (h + 1);
        let ghost len = self.bit_grid.units@.len() as int;
        assert(upr <= end && end + upr == len);
        let mut i: usize = upr;
        while i < end
            invariant
                self.wf(),
                self.same_shape(*old(self)),
                self.num_steps == old(self).num_steps,
                upr == self.units_per_row,
                h == self.height,
                end == upr * (h + 1),
                upr <= i <= end,
                len == self.bit_grid.units@.len(),
                len <= 63002 * 1001,
                end + upr == len,
                forall|j: int|
                    upr <= j < i ==> self.bit_grid.units@[j] == restored_unit(
                        old(self).bit_grid.units@,
                        j,
                    ),
                forall|j: int|
                    (0 <= j < upr || i <= j < len) ==> self.bit_grid.units@[j] == old(
                        self,
                    ).bit_grid.units@[j],
            decreases end - i,
        {
            let w = self.bit_grid.units[i];
            let nx = self.bit_grid.units[i + 1];
            self.bit_grid.units[i] = (w & !(0x1u64 << BITS_PER_UNIT_GOL)) | ((nx & 0x1)
                << BITS_PER_UNIT_GOL);
            i += 1;
        }
    }

    /// Force the border rows and the two halo bits of every interior row
    /// to zero.
    #[verifier::loop_isolation(false)]
    fn set_zeroes_border(&mut self)
        requires
            old(self).wf(),
        ensures
            final(self).wf(),
            final(self).same_shape(*old(self)),
            final(self).num_steps == old(self).num_steps,
            final(self).bit_grid.units@ =~= zeroes_bordered(
                old(self).bit_grid.units@,
                old(self).units_per_row as int,
                old(self).width as int,
                old(self).height as int,
            ),
    {
        let upr = self.units_per_row;
        let w = self.width;
        let h = self.height;
        proof {
            self.lemma_bounds();
        }
        let ghost u0 = self.bit_grid.units@;
        let ghost zb = zeroes_bordered(u0, upr as int, w as int, h as int);
        let ghost len = self.bit_grid.units@.len() as int;
        assert(upr <= len);

        let mut c: usize = 0;
        while c < upr
            invariant
                self.wf(),
                self.same_shape(*old(self)),
                self.num_steps == old(self).num_steps,
                upr == self.units_per_row,
                w == self.width,
                h == self.height,
                c <= upr,
                len == self.bit_grid.units@.len(),
                len == (h + 2) * upr,
                len <= 63002 * 1001,
                upr <= len,
                forall|j: int| 0 <= j < c ==> self.bit_grid.units@[j] == 0,
                forall|j: int| c <= j < len ==> self.bit_grid.units@[j] == u0[j],
            decreases upr - c,
        {
            self.bit_grid.units[c] = 0;
            c += 1;
        }

        let last_row_start = (h + 1) * upr;
        proof {
            assert(last_row_start + upr == len && last_row_start >= upr) by (nonlinear_arith)
                requires
                    last_row_start == (h + 1) * upr,
                    len == (h + 2) * upr,
                    h >= 3,
                    upr >= 1,
            ;
        }
        let mut c2: usize = 0;
        while c2 < upr
            invariant
                self.wf(),
                self.same_shape(*old(self)),
                self.num_steps == old(self).num_steps,
                upr == self.units_per_row,
                w == self.width,
                h == self.height,
                c2 <= upr,
                len == self.bit_grid.units@.len(),
                len == (h + 2) * upr,
                len <= 63002 * 1001,
                last_row_start == (h + 1) * upr,
                last_row_start + upr == len,
                last_row_start >= upr,
                forall|j: int| 0 <= j < upr ==> self.bit_grid.units@[j] == 0,
                forall|j: int|
                    last_row_start <= j < last_row_start + c2 ==> self.bit_grid.units@[j] == 0,
                forall|j: int| upr <= j < last_row_start ==> self.bit_grid.units@[j] == u0[j],
                forall|j: int|
                    last_row_start + c2 <= j < len ==> self.bit_grid.units@[j] == u0[j],
            decreases upr - c2,
        {
            self.bit_grid.units[last_row_start + c2] = 0;
            c2 += 1;
        }

        let bit_mask_l: u64 = !0x1u64;
        let bit_mask_r: u64 = !(0x1u64 << (((w + 1) % BITS_PER_UNIT_GOL) as u64));
        let mut r: usize = 1;
        while r <= h
            invariant
                self.wf(),
                self.same_shape(*old(self)),
                self.num_steps == old(self).num_steps,
                upr == self.units_per_row,
                w == self.width,
                h == self.height,
                1 <= r <= h + 1,
                len == self.bit_grid.units@.len(),
                len == (h + 2) * upr,
                len <= 63002 * 1001,
                last_row_start == (h + 1) * upr,
                last_row_start + upr == len,
                last_row_start >= upr,
                bit_mask_l == !0x1u64,
                bit_mask_r == !(0x1u64 << (((w + 1) % 63) as u64)),
                forall|j: int| 0 <= j < upr ==> self.bit_grid.units@[j] == 0,
                forall|j: int| last_row_start <= j < len ==> self.bit_grid.units@[j] == 0,
                forall|j: int| upr <= j < r * upr ==> self.bit_grid.units@[j] == zb[j],
                forall|j: int| r * upr <= j < last_row_start ==> self.bit_grid.units@[j] == u0[j],
            decreases h + 1 - r,
        {
            proof {
                assert(r * upr + upr <= last_row_start && (r + 1) * upr == r * upr + upr)
                    by (nonlinear_arith)
                    requires
                        r <= h,
                        upr >= 1,
                        last_row_start == (h + 1) * upr,
                ;
            }
            let il = r * upr;
            let ir = r * upr + upr - 1;
            let vl = self.bit_grid.units[il];
            self.bit_grid.units[il] = vl & bit_mask_l;
            let vr = self.bit_grid.units[ir];
            self.bit_grid.units[ir] = vr & bit_mask_r;
            proof {
                let rr = r as int;
                let upri = upr as int;
                assert((rr + 1) * upri == rr * upri + upri && upri <= rr * upri && (rr + 1) * upri
                    <= (h + 1) * upri) by (nonlinear_arith)
                    requires
                        1 <= rr <= h,
                        upri >= 1,
                ;
                assert forall|j: int| rr * upri <= j < (rr + 1) * upri implies self.bit_grid.units@[j]
                    == zb[j] by {
                    let cc = j - rr * upri;
                    lemma_row_col(upri, rr, cc);
                    assert(0 <= j < len);
                    assert(zb[j] == zeroes_bordered_unit(u0, upri, w as int, h as int, j));
                }
            }
            r += 1;
        }
        proof {
            assert forall|j: int| 0 <= j < len implies self.bit_grid.units@[j] == zb[j] by {
                let rr = j / (upr as int);
                let cc = j % (upr as int);
                vstd::arithmetic::div_mod::lemma_fundamental_div_mod(j, upr as int);
                assert(0 <= cc < upr) by (nonlinear_arith)
                    requires
                        upr >= 1,
                        cc == j % (upr as int),
                ;
                assert(0 <= rr < h + 2) by (nonlinear_arith)
                    requires
                        upr >= 1,
                        0 <= j < (h + 2) * upr,
                        rr == j / (upr as int),
                ;
                lemma_row_col(upr as int, rr, cc);
                if rr == 0 {
                    assert(j < upr) by (nonlinear_arith)
                        requires
                            j == 0 * upr + cc,
                            0 <= cc < upr,
                    ;
                } else if rr == h + 1 {
                    assert(j >= (h + 1) * upr) by (nonlinear_arith)
                        requires
                            j == (h + 1) * upr + cc,
                            cc >= 0,
                    ;
                    assert(zb[j] == 0);
                } else {
                    assert(upr <= j < (h + 1) * upr) by (nonlinear_arith)
                        requires
                            j == rr * upr + cc,
                            1 <= rr <= h,
                            0 <= cc < upr,
                    ;
                }
            }
        }
    }

    /// Wrap the board toroidally: each row's halo bits receive the
    /// opposite edge cell, and the border rows become copies of the
    /// opposite interior rows.
    #[verifier::loop_isolation(false)]
    fn set_wrapped_border(&mut self)
        requires
            old(self).wf(),
        ensures
            final(self).wf(),
            final(self).same_shape(*old(self)),
            final(self).num_steps == old(self).num_steps,
            final(self).bit_grid.units@ =~= wrapped_bordered(
                old(self).bit_grid.units@,
                old(self).units_per_row as int,
                old(self).width as int,
                old(self).height as int,
            ),
    {
        let upr = self.units_per_row;
        let w = self.width;
        let h = self.height;
        proof {
            self.lemma_bounds();
        }
        let ghost u0 = self.bit_grid.units@;
        let ghost ws = wrap_sides(u0, upr as int, w as int, h as int);
        let ghost len = self.bit_grid.units@.len() as int;

        let bit_pos_r_dst = (w % BITS_PER_UNIT_GOL + 1) as u64;
        let bit_pos_r_src = (w % BITS_PER_UNIT_GOL) as u64;

        let mut r: usize = 1;
        while r <= h
            invariant
                self.wf(),
                self.same_shape(*old(self)),
                self.num_steps == old(self).num_steps,
                upr == self.units_per_row,
                w == self.width,
                h == self.height,
                1 <= r <= h + 1,
                len == self.bit_grid.units@.len(),
                len == (h + 2) * upr,
                len <= 63002 * 1001,
                bit_pos_r_dst == (w % 63 + 1) as u64,
                bit_pos_r_src == (w % 63) as u64,
                forall|j: int| upr <= j < r * upr ==> self.bit_grid.units@[j] == ws[j],
                forall|j: int|
                    (0 <= j < upr || r * upr <= j < len) ==> self.bit_grid.units@[j] == u0[j],
            decreases h + 1 - r,
        {
            proof {
                assert(r * upr + upr <= (h + 1) * upr && (h + 1) * upr < len && (r + 1) * upr == r
                    * upr + upr && upr <= r * upr && upr * (h + 1) == (h + 1) * upr)
                    by (nonlinear_arith)
                    requires
                        1 <= r <= h,
                        upr >= 1,
                        len == (h + 2) * upr,
                ;
            }
            let il = r * upr;
            let ir = r * upr + upr - 1;
            let vl0 = self.bit_grid.units[il];
            self.bit_grid.units[il] = vl0 & !(0x1u64 << 0);
            let vr0 = self.bit_grid.units[ir];
            self.bit_grid.units[ir] = vr0 & !(0x1u64 << bit_pos_r_dst);
            let vr1 = self.bit_grid.units[ir];
            let vl1 = self.bit_grid.units[il];
            self.bit_grid.units[il] = vl1 | ((vr1 & (0x1u64 << bit_pos_r_src)) >> bit_pos_r_src);
            let vl2 = self.bit_grid.units[il];
            let vr2 = self.bit_grid.units[ir];
            self.bit_grid.units[ir] = vr2 | ((vl2 & (0x1u64 << 1)) << (bit_pos_r_dst - 1));
            proof {
                let rr = r as int;
                let p = bit_pos_r_src;
                let q = bit_pos_r_dst;
                if upr == 1 {
                    let v = u0[rr * upr as int];
                    let v0 = v & !1u64 & !(1u64 << q);
                    assert(vl0 & !(0x1u64 << 0) & !(0x1u64 << q) == v0 && (v0 & (0x1u64 << p)) >> p
                        == (v0 >> p) & 1) by (bit_vector)
                        requires
                            vl0 == v,
                            p < 64,
                            q < 64,
                            v0 == v & !1u64 & !(1u64 << q),
                    ;
                    let v1 = v0 | ((v0 >> p) & 1);
                    let qm = (q - 1) as u64;
                    assert((v1 & (0x1u64 << 1)) << qm == ((v1 >> 1) & 1) << q) by (bit_vector)
                        requires
                            1 <= q < 64,
                            q == qm + 1,
                    ;
                    assert(self.bit_grid.units@[rr * upr as int] == wrap_sides_unit(
                        u0,
                        upr as int,
                        w as int,
                        rr * upr as int,
                    ));
                } else {
                    let vl = u0[il as int];
                    let vr = u0[ir as int];
                    assert((vl & !(0x1u64 << 0)) | (((vr & !(0x1u64 << q)) & (0x1u64 << p)) >> p)
                        == (vl & !1u64) | ((vr >> p) & 1)) by (bit_vector)
                        requires
                            p < 63,
                            q == p + 1,
                    ;
                    let nl = (vl & !1u64) | ((vr >> p) & 1);
                    let qm = (q - 1) as u64;
                    assert((vr & !(0x1u64 << q)) | ((nl & (0x1u64 << 1)) << qm) == (vr & !(1u64
                        << q)) | (((vl >> 1) & 1) << q)) by (bit_vector)
                        requires
                            1 <= q < 64,
                            q == qm + 1,
                            nl == (vl & !1u64) | ((vr >> p) & 1),
                    ;
                    lemma_row_col(upr as int, rr, 0);
                    lemma_row_col(upr as int, rr, upr - 1);
                    assert(self.bit_grid.units@[il as int] == wrap_sides_unit(
                        u0,
                        upr as int,
                        w as int,
                        il as int,
                    ));
                    assert(self.bit_grid.units@[ir as int] == wrap_sides_unit(
                        u0,
                        upr as int,
                        w as int,
                        ir as int,
                    ));
                }
                assert forall|j: int| rr * upr <= j < (rr + 1) * upr implies self.bit_grid.units@[j]
                    == ws[j] by {
                    let cc = j - rr * upr;
                    lemma_row_col(upr as int, rr, cc);
                }
            }
            r += 1;
        }

        let ghost wr = wrap_rows(ws, upr as int, h as int);
        proof {
            assert((h + 1) * upr + upr == len && h * upr + upr <= (h + 1) * upr && upr + upr <= (h
                + 1) * upr && h * upr >= upr) by (nonlinear_arith)
                requires
                    len == (h + 2) * upr,
                    h >= 3,
                    upr >= 1,
            ;
        }
        let top_src = h * upr;
        let bot_dst = (h + 1) * upr;
        let mut c: usize = 0;
        while c < upr
            invariant
                self.wf(),
                self.same_shape(*old(self)),
                self.num_steps == old(self).num_steps,
                upr == self.units_per_row,
                w == self.width,
                h == self.height,
                c <= upr,
                len == self.bit_grid.units@.len(),
                len == (h + 2) * upr,
                len <= 63002 * 1001,
                top_src == h * upr,
                bot_dst == (h + 1) * upr,
                bot_dst + upr == len,
                top_src + upr <= bot_dst,
                upr + upr <= bot_dst,
                upr <= top_src,
                forall|j: int| 0 <= j < c ==> self.bit_grid.units@[j] == ws[top_src + j],
                forall|j: int| upr <= j < bot_dst ==> self.bit_grid.units@[j] == ws[j],
                forall|j: int|
                    (c <= j < upr || bot_dst <= j < len) ==> self.bit_grid.units@[j] == u0[j],
            decreases upr - c,
        {
            let v = self.bit_grid.units[top_src + c];
            self.bit_grid.units[c] = v;
            c += 1;
        }
        let mut c2: usize = 0;
        while c2 < upr
            invariant
                self.wf(),
                self.same_shape(*old(self)),
                self.num_steps == old(self).num_steps,
                upr == self.units_per_row,
                w == self.width,
                h == self.height,
                c2 <= upr,
                len == self.bit_grid.units@.len(),
                len == (h + 2) * upr,
                len <= 63002 * 1001,
                top_src == h * upr,
                bot_dst == (h + 1) * upr,
                bot_dst + upr == len,
                top_src + upr <= bot_dst,
                upr + upr <= bot_dst,
                upr <= top_src,
                forall|j: int| 0 <= j < upr ==> self.bit_grid.units@[j] == ws[top_src + j],
                forall|j: int| upr <= j < bot_dst ==> self.bit_grid.units@[j] == ws[j],
                forall|j: int|
                    bot_dst <= j < bot_dst + c2 ==> self.bit_grid.units@[j] == ws[upr + j
                        - bot_dst],
                forall|j: int| bot_dst + c2 <= j < len ==> self.bit_grid.units@[j] == u0[j],
            decreases upr - c2,
        {
            let v = self.bit_grid.units[upr + c2];
            self.bit_grid.units[bot_dst + c2] = v;
            c2 += 1;
        }
        proof {
            assert forall|j: int| 0 <= j < len implies self.bit_grid.units@[j] == wr[j] by {
                let rr = j / (upr as int);
                let cc = j % (upr as int);
                vstd::arithmetic::div_mod::lemma_fundamental_div_mod(j, upr as int);
                assert(0 <= cc < upr) by (nonlinear_arith)
                    requires
                        upr >= 1,
                        cc == j % (upr as int),
                ;
                assert(0 <= rr < h + 2) by (nonlinear_arith)
                    requires
                        upr >= 1,
                        0 <= j < (h + 2) * upr,
                        rr == j / (upr as int),
                ;
                lemma_row_col(upr as int, rr, cc);
                if rr == 0 {
                    assert(j < upr) by (nonlinear_arith)
                        requires
                            j == 0 * upr + cc,
                            0 <= cc < upr,
                    ;
                    assert(self.bit_grid.units@[j] == ws[top_src + j]);
                } else if rr == h + 1 {
                    assert(j >= bot_dst && j - bot_dst == cc) by (nonlinear_arith)
                        requires
                            j == (h + 1) * upr + cc,
                            bot_dst == (h + 1) * upr,
                            cc >= 0,
                    ;
                } else {
                    assert(upr <= j < bot_dst) by (nonlinear_arith)
                        requires
                            j == rr * upr + cc,
                            1 <= rr <= h,
                            0 <= cc < upr,
                            bot_dst == (h + 1) * upr,
                    ;
                }
            }
        }
    }

    /// Advance the automaton one generation: restore the spillover bits,
    /// synthesize the border per the policy, then update every interior
    /// row by the word-parallel birth/survival arithmetic, keeping one
    /// scratch copy of the rows still being read.
    #[verifier::loop_isolation(false)]
    pub fn step(&mut self)
        requires
            old(self).wf(),
            old(self).num_steps < u32::MAX,
        ensures
            final(self).wf(),
            final(self).same_shape(*old(self)),
            final(self).num_steps == old(self).num_steps + 1,
            final(self).bit_grid.units@ =~= gol_step(
                old(self).bit_grid.units@,
                old(self).units_per_row as int,
                old(self).width as int,
                old(self).height as int,
                old(self).border,
            ),
    {
        let upr = self.units_per_row;
        let h = self.height;
        proof {
            self.lemma_bounds();
        }
        self.num_steps = self.num_steps + 1;
        self.restore_right_bits();
        self.set_border_bits();
        let ghost base = self.bit_grid.units@;
        let ghost tgt = stepped_units(base, upr as int, h as int);
        let ghost len = base.len() as int;
        proof {
            assert(base == bordered(
                restored_units(
                    old(self).bit_grid.units@,
                    old(self).units_per_row as int,
                    old(self).height as int,
                ),
                old(self).units_per_row as int,
                old(self).width as int,
                old(self).height as int,
                old(self).border,
            ));
        }
        let mut c0: usize = 0;
        while c0 < upr
            invariant
                c0 <= upr,
                self.wf(),
                self.same_shape(*old(self)),
                self.num_steps == old(self).num_steps + 1,
                upr == self.units_per_row,
                h == self.height,
                self.bit_grid.units@ == base,
                forall|j: int| 0 <= j < c0 ==> self.row_above@[j] == base[j],
            decreases upr - c0,
        {
            let v = self.bit_grid.units[c0];
            self.row_above[c0] = v;
            c0 += 1;
        }
        let mut r: usize = 1;
        while r <= h
            invariant
                1 <= r <= h + 1,
                self.wf(),
                self.same_shape(*old(self)),
                self.num_steps == old(self).num_steps + 1,
                upr == self.units_per_row,
                h == self.height,
                self.bit_grid.units@.len() == len,
                forall|j: int| upr <= j < r * upr ==> self.bit_grid.units@[j] == tgt[j],
                forall|j: int|
                    (0 <= j < upr || r * upr <= j < len) ==> self.bit_grid.units@[j] == base[j],
                forall|j: int| 0 <= j < upr ==> self.row_above@[j] == base[(r - 1) * upr + j],
            decreases h + 1 - r,
        {
            proof {
                assert(r * upr + upr <= (h + 1) * upr && (h + 1) * upr < len && (r + 1) * upr == r
                    * upr + upr && upr <= r * upr && (r - 1) * upr + upr == r * upr && 0 <= (r - 1)
                    * upr && upr * (h + 1) == (h + 1) * upr && (r + 1) * upr + upr <= len)
                    by (nonlinear_arith)
                    requires
                        1 <= r <= h,
                        upr >= 1,
                        len == (h + 2) * upr,
                ;
            }
            let mut c1: usize = 0;
            while c1 < upr
                invariant
                    c1 <= upr,
                    self.wf(),
                    self.same_shape(*old(self)),
                    self.num_steps == old(self).num_steps + 1,
                    upr == self.units_per_row,
                    h == self.height,
                    1 <= r <= h,
                    self.bit_grid.units@.len() == len,
                    forall|j: int| upr <= j < r * upr ==> self.bit_grid.units@[j] == tgt[j],
                    forall|j: int|
                        (0 <= j < upr || r * upr <= j < len) ==> self.bit_grid.units@[j]
                            == base[j],
                    forall|j: int| 0 <= j < upr ==> self.row_above@[j] == base[(r - 1) * upr + j],
                    forall|j: int| 0 <= j < c1 ==> self.row_curr@[j] == base[r * upr + j],
                decreases upr - c1,
            {
                let v = self.bit_grid.units[r * upr + c1];
                self.row_curr[c1] = v;
                c1 += 1;
            }
            let mut sum_prev: u64 = 0;
            let mut car_prev: u64 = 0;
            let mut c: usize = 0;
            while c < upr
                invariant
                    c <= upr,
                    self.wf(),
                    self.same_shape(*old(self)),
                    self.num_steps == old(self).num_steps + 1,
                    upr == self.units_per_row,
                    h == self.height,
                    1 <= r <= h,
                    self.bit_grid.units@.len() == len,
                    forall|j: int| upr <= j < r * upr ==> self.bit_grid.units@[j] == tgt[j],
                    forall|j: int|
                        r * upr <= j < r * upr + c ==> self.bit_grid.units@[j] == tgt[j],
                    forall|j: int|
                        (0 <= j < upr || r * upr + c <= j < len) ==> self.bit_grid.units@[j]
                            == base[j],
                    forall|j: int| 0 <= j < upr ==> self.row_above@[j] == base[(r - 1) * upr + j],
                    forall|j: int| 0 <= j < upr ==> self.row_curr@[j] == base[r * upr + j],
                    sum_prev == if c == 0 {
                        0u64
                    } else {
                        spec_abc_sum(
                            base[(r - 1) * upr + c - 1],
                            base[r * upr + c - 1],
                            base[(r + 1) * upr + c - 1],
                        )
                    },
                    car_prev == if c == 0 {
                        0u64
                    } else {
                        spec_abc_car(
                            base[(r - 1) * upr + c - 1],
                            base[r * upr + c - 1],
                            base[(r + 1) * upr + c - 1],
                        )
                    },
                decreases upr - c,
            {
                let above = self.row_above[c];
                let currn = self.row_curr[c];
                let below = self.bit_grid.units[(r + 1) * upr + c];
                let ab_sum = above ^ below;
                let ab_car = above & below;
                let abc_sum = currn ^ ab_sum;
                let abc_car = currn & ab_sum | ab_car;

                let lft = abc_sum << 1 | sum_prev >> ((BITS_PER_UNIT_GOL - 1) as u64);
                let rgt = abc_sum >> 1;
                let lr = lft ^ rgt;
                let sum0 = lr ^ ab_sum;
                let car0 = lft & rgt | lr & ab_sum;

                let lft1 = abc_car << 1 | car_prev >> ((BITS_PER_UNIT_GOL - 1) as u64);
                let rgt1 = abc_car >> 1;
                let lr1 = lft1 ^ rgt1;
                let sum1 = lr1 ^ ab_car;
                let car1 = lft1 & rgt1 | lr1 & ab_car;

                let next = (currn | sum0) & (car0 ^ sum1) & !car1;
                self.bit_grid.units[r * upr + c] = next;
                proof {
                    lemma_row_col(upr as int, r as int, c as int);
                    assert(next == stepped_unit(base, upr as int, r as int, c as int));
                    assert(tgt[r * upr + c] == stepped_unit(base, upr as int, r as int, c as int));
                }
                sum_prev = abc_sum;
                car_prev = abc_car;
                c += 1;
            }
            core::mem::swap(&mut self.row_above, &mut self.row_curr);
            r += 1;
        }
        proof {
            assert forall|j: int| 0 <= j < len implies self.bit_grid.units@[j] == tgt[j] by {
                let rr = j / (upr as int);
                let cc = j % (upr as int);
                vstd::arithmetic::div_mod::lemma_fundamental_div_mod(j, upr as int);
                assert(0 <= cc < upr && 0 <= rr < h + 2 && j == rr * upr + cc) by (nonlinear_arith)
                    requires
                        upr >= 1,
                        0 <= j < (h + 2) * upr,
                        rr == j / (upr as int),
                        cc == j % (upr as int),
                        j == upr * rr + cc,
                ;
                lemma_row_col(upr as int, rr, cc);
                if rr == 0 {
                    assert(j < upr) by (nonlinear_arith)
                        requires
                            j == 0 * upr + cc,
                            0 <= cc < upr,
                    ;
                    assert(tgt[j] == base[j]);
                } else if rr == h + 1 {
                    assert(j >= (h + 1) * upr) by (nonlinear_arith)
                        requires
                            j == (h + 1) * upr + cc,
                            cc >= 0,
                    ;
                    assert(tgt[j] == base[j]);
                } else {
                    assert(upr <= j < (h + 1) * upr) by (nonlinear_arith)
                        requires
                            j == rr * upr + cc,
                            1 <= rr <= h,
                            0 <= cc < upr,
                    ;
                }
            }
        }
    }

    /// Synthesize halo bits and border rows per the board's border policy.
    pub fn set_border_bits(&mut self)
        requires
            old(self).wf(),
        ensures
            final(self).wf(),
            final(self).same_shape(*old(self)),
            final(self).num_steps == old(self).num_steps,
            final(self).bit_grid.units@ =~= bordered(
                old(self).bit_grid.units@,
                old(self).units_per_row as int,
                old(self).width as int,
                old(self).height as int,
                old(self).border,
            ),
    {
        match self.border {
            GridBorder::Zeroes => self.set_zeroes_border(),
            GridBorder::Wrapped => self.set_wrapped_border(),
        }
    }
}

} // verus!
