//! Population counting over bit grids: a 256-entry byte table, a raw count
//! over all storage bits, and a masked count over the live region of a
//! Game of Life board.

use vstd::prelude::*;
use vstd::arithmetic::power2::{pow2, lemma2_to64, lemma2_to64_rest};
use vstd::arithmetic::div_mod::lemma_fundamental_div_mod;
use crate::bits::{pc, sum_pc, lemma_pc_split, lemma_pc_bound};
use crate::grid::BitGrid;
use crate::life::{GameOfLife, BITS_PER_UNIT_GOL};

verus! {

pub struct BitCounter {
    pub lookup: Vec<u8>,
}

/// The mask that keeps every effective cell bit of an interior chunk:
/// only the spillover bit is dropped.
pub open spec fn mask_center() -> u64 {
    !(1u64 << 63)
}

/// The mask for the first chunk of a row: the left-halo bit is dropped too.
pub open spec fn mask_left() -> u64 {
    mask_center() & !1u64
}

/// The mask for the last chunk of a row: bits above the rightmost cell,
/// at `w % 63` within the chunk, are dropped.
pub open spec fn mask_right(upr: int, w: int) -> u64 {
    let base = if upr == 1 {
        mask_left()
    } else {
        mask_center()
    };
    base & (!0u64 >> ((64 - (w % 63 + 1)) as u64))
}

pub open spec fn live_mask(c: int, upr: int, w: int) -> u64 {
    if c == upr - 1 {
        mask_right(upr, w)
    } else if c == 0 {
        mask_left()
    } else {
        mask_center()
    }
}

/// Live cells of row `r` over chunks `0 .. c`.
pub open spec fn row_live(units: Seq<u64>, upr: int, w: int, r: int, c: int) -> nat
    decreases c,
{
    if c <= 0 {
        0
    } else {
        row_live(units, upr, w, r, c - 1) + pc((units[r * upr + (c - 1)] & live_mask(
            c - 1,
            upr,
            w,
        )) as nat)
    }
}

/// Live cells of interior rows `1 .. r`.
pub open spec fn rows_live(units: Seq<u64>, upr: int, w: int, r: int) -> nat
    decreases r,
{
    if r <= 1 {
        0
    } else {
        rows_live(units, upr, w, r - 1) + row_live(units, upr, w, r - 1, upr)
    }
}

/// Number of live cells of a board with `h` interior rows: all interior
/// rows, each chunk masked to its effective cell bits.
pub open spec fn live_count(units: Seq<u64>, upr: int, w: int, h: int) -> nat {
    rows_live(units, upr, w, h + 1)
}

impl BitCounter {
    pub open spec fn wf(&self) -> bool {
        &&& self.lookup@.len() == 256
        &&& forall|i: int| 0 <= i < 256 ==> self.lookup@[i] as nat == pc(i as nat)
    }

    fn count_bits(val: u8) -> (r: u8)
        ensures
            r as nat == pc(val as nat),
    {
        let ghost orig = val;
        proof {
            lemma2_to64();
            lemma_pc_bound(orig as nat, 8);
        }
        let mut val = val;
        let mut count: u8 = 0;
        while val != 0
            invariant
                count as nat + pc(val as nat) == pc(orig as nat),
                pc(orig as nat) <= 8,
            decreases val,
        {
            assert((val & 1) as nat == (val as nat) % 2 && (val >> 1) as nat == (val as nat) / 2
                && (val >> 1) < val) by (bit_vector)
                requires
                    val != 0,
            ;
            if val & 1 == 1 {
                count += 1;
            }
            val >>= 1;
        }
        count
    }

    pub fn new() -> (r: BitCounter)
        ensures
            r.wf(),
    {
        let mut lookup: Vec<u8> = Vec::with_capacity(256);
        let mut i: usize = 0;
        while i < 256
            invariant
                i <= 256,
                lookup@.len() == i,
                forall|j: int| 0 <= j < i ==> lookup@[j] as nat == pc(j as nat),
            decreases 256 - i,
        {
            lookup.push(BitCounter::count_bits(i as u8));
            i += 1;
        }
        BitCounter { lookup }
    }

    /// Sums the table entries of the eight bytes of one word.
    fn count_unit(&self, u: u64) -> (r: usize)
        requires
            self.wf(),
        ensures
            r == pc(u as nat),
            r <= 64,
    {
        proof {
            lemma_byte_split(u);
            lemma_byte_split(u >> 8);
            lemma_byte_split(u >> 16);
            lemma_byte_split(u >> 24);
            lemma_byte_split(u >> 32);
            lemma_byte_split(u >> 40);
            lemma_byte_split(u >> 48);
            assert((u >> 8) >> 8 == u >> 16 && (u >> 16) >> 8 == u >> 24 && (u >> 24) >> 8 == u
                >> 32 && (u >> 32) >> 8 == u >> 40 && (u >> 40) >> 8 == u >> 48 && (u >> 48) >> 8
                == u >> 56 && (u >> 56) >> 8 == 0 && (u & 255) < 256 && ((u >> 8) & 255) < 256 && ((
            u >> 16) & 255) < 256 && ((u >> 24) & 255) < 256 && ((u >> 32) & 255) < 256 && ((u
                >> 40) & 255) < 256 && ((u >> 48) & 255) < 256 && ((u >> 56) & 255) < 256 && ((u
                >> 56) & 255) == u >> 56) by (bit_vector);
            assert(pc(0) == 0);
            lemma2_to64_rest();
            lemma_pc_bound(u as nat, 64);
        }
        let mut count: usize = self.lookup[(u & 255) as usize] as usize;
        count += self.lookup[((u >> 8) & 255) as usize] as usize;
        count += self.lookup[((u >> 16) & 255) as usize] as usize;
        count += self.lookup[((u >> 24) & 255) as usize] as usize;
        count += self.lookup[((u >> 32) & 255) as usize] as usize;
        count += self.lookup[((u >> 40) & 255) as usize] as usize;
        count += self.lookup[((u >> 48) & 255) as usize] as usize;
        count += self.lookup[((u >> 56) & 255) as usize] as usize;
        count
    }

    /// Counts every set storage bit, padding included.
    pub fn count_set_bits(&self, bit_grid: &BitGrid) -> (r: usize)
        requires
            self.wf(),
            bit_grid.wf(),
        ensures
            r == sum_pc(bit_grid.units@),
    {
        let n = bit_grid.units.len();
        proof {
            assert(n * 64 <= 0xFFFF0000 && n == bit_grid.height * bit_grid.units_per_row
                <= 65535 * 1024) by (nonlinear_arith)
                requires
                    n == bit_grid.height * bit_grid.units_per_row,
                    bit_grid.height <= 65535,
                    bit_grid.units_per_row <= 1024,
            ;
        }
        let mut count: usize = 0;
        let mut i: usize = 0;
        while i < n
            invariant
                self.wf(),
                n == bit_grid.units@.len(),
                n * 64 <= 0xFFFF0000,
                i <= n,
                count == sum_pc(bit_grid.units@.take(i as int)),
                count <= i * 64,
            decreases n - i,
        {
            let c = self.count_unit(bit_grid.units[i]);
            proof {
                let s = bit_grid.units@;
                assert(s.take(i + 1).drop_last() =~= s.take(i as int));
                assert(count + c <= (i + 1) * 64 && (i + 1) * 64 <= n * 64) by (nonlinear_arith)
                    requires
                        count <= i * 64,
                        c <= 64,
                        i + 1 <= n,
                ;
            }
            count += c;
            i += 1;
        }
        proof {
            assert(bit_grid.units@.take(n as int) =~= bit_grid.units@);
        }
        count
    }

    /// Counts the live cells of the Game of Life state held in `bit_grid`,
    /// a grid shaped like the one `gol` owns: border rows, halo bits,
    /// spillover bits and right-edge padding are masked out.
    pub fn count_live_cells_in_bitgrid(&self, gol: &GameOfLife, bit_grid: &BitGrid) -> (r: usize)
        requires
            self.wf(),
            gol.wf(),
            bit_grid.wf(),
            bit_grid.width == gol.bit_grid.width,
            bit_grid.height == gol.bit_grid.height,
        ensures
            r == live_count(
                bit_grid.units@,
                gol.units_per_row as int,
                gol.width as int,
                gol.height as int,
            ),
    {
        let upr = gol.units_per_row;
        let w = gol.width;
        let h = gol.height;
        let ghost units = bit_grid.units@;
        proof {
            assert(bit_grid.units@.len() == (h + 2) * upr && upr >= 1) by (nonlinear_arith)
                requires
                    bit_grid.units@.len() == bit_grid.height * bit_grid.units_per_row,
                    bit_grid.height == h + 2,
                    bit_grid.units_per_row == upr,
                    upr == (w + 63) / 63,
                    w >= 3,
            ;
            assert((h + 2) * upr <= 63002 * 1001) by (nonlinear_arith)
                requires
                    h <= 63000,
                    upr <= 1001,
            ;
        }
        let mask_c: u64 = !(1u64 << 63);
        let mask_l: u64 = mask_c & !1u64;
        let base: u64 = if upr == 1 {
            mask_l
        } else {
            mask_c
        };
        let bits_in_last_unit = w % BITS_PER_UNIT_GOL + 1;
        let mask_r: u64 = base & (!0u64 >> ((64 - bits_in_last_unit) as u64));
        assert(mask_c == mask_center() && mask_l == mask_left() && mask_r == mask_right(
            upr as int,
            w as int,
        ));
        let mut count: usize = 0;
        let mut r: usize = 1;
        while r <= h
            invariant
                self.wf(),
                gol.wf(),
                units == bit_grid.units@,
                upr == gol.units_per_row,
                w == gol.width,
                h == gol.height,
                units.len() == (h + 2) * upr,
                (h + 2) * upr <= 63002 * 1001,
                mask_c == mask_center(),
                mask_l == mask_left(),
                mask_r == mask_right(upr as int, w as int),
                1 <= r <= h + 1,
                count == rows_live(units, upr as int, w as int, r as int),
                count <= (r - 1) * upr * 64,
            decreases h + 1 - r,
        {
            let mut c: usize = 0;
            let mut row_count: usize = 0;
            while c < upr
                invariant
                    self.wf(),
                    gol.wf(),
                    units == bit_grid.units@,
                    upr == gol.units_per_row,
                    w == gol.width,
                    h == gol.height,
                    units.len() == (h + 2) * upr,
                    (h + 2) * upr <= 63002 * 1001,
                    mask_c == mask_center(),
                    mask_l == mask_left(),
                    mask_r == mask_right(upr as int, w as int),
                    1 <= r <= h,
                    c <= upr,
                    row_count == row_live(units, upr as int, w as int, r as int, c as int),
                    row_count <= c * 64,
                decreases upr - c,
            {
                let mask = if c == upr - 1 {
                    mask_r
                } else if c == 0 {
                    mask_l
                } else {
                    mask_c
                };
                proof {
                    assert(r * upr + c < (h + 2) * upr && r * upr + c <= 63002 * 1001)
                        by (nonlinear_arith)
                        requires
                            1 <= r <= h,
                            c < upr,
                            units.len() == (h + 2) * upr,
                            (h + 2) * upr <= 63002 * 1001,
                    ;
                }
                let val = bit_grid.units[r * upr + c] & mask;
                let cu = self.count_unit(val);
                proof {
                    assert(row_count + cu <= (c + 1) * 64) by (nonlinear_arith)
                        requires
                            row_count <= c * 64,
                            cu <= 64,
                    ;
                }
                row_count += cu;
                c += 1;
            }
            proof {
                assert(count + row_count <= r * upr * 64 && r * upr * 64 <= 63002 * 1001 * 64)
                    by (nonlinear_arith)
                    requires
                        count <= (r - 1) * upr * 64,
                        row_count <= upr * 64,
                        1 <= r <= h,
                        (h + 2) * upr <= 63002 * 1001,
                ;
            }
            count += row_count;
            r += 1;
        }
        count
    }

    /// Counts the live cells of `gol`'s own grid.
    pub fn count_live_cells(&self, gol: &GameOfLife) -> (r: usize)
        requires
            self.wf(),
            gol.wf(),
        ensures
            r == live_count(
                gol.bit_grid.units@,
                gol.units_per_row as int,
                gol.width as int,
                gol.height as int,
            ),
    {
        self.count_live_cells_in_bitgrid(gol, &gol.bit_grid)
    }
}

/// Set-bit count of the masks applied to chunks `0 .. c` of a row.
pub open spec fn masks_pc(c: int, upr: int, w: int) -> nat
    decreases c,
{
    if c <= 0 {
        0
    } else {
        masks_pc(c - 1, upr, w) + pc(live_mask(c - 1, upr, w) as nat)
    }
}

/// The three masks keep 63, 62, and `w % 63 (+ 1)` cell bits respectively.
pub proof fn lemma_mask_pc(upr: int, w: int)
    requires
        upr == (w + 63) / 63,
        3 <= w <= 63000,
    ensures
        pc(mask_center() as nat) == 63,
        pc(mask_left() as nat) == 62,
        pc(mask_right(upr, w) as nat) == if upr == 1 {
            (w % 63) as nat
        } else {
            (w % 63 + 1) as nat
        },
{
    lemma2_to64();
    lemma2_to64_rest();
    assert(!(1u64 << 63) == 0x7FFFFFFFFFFFFFFFu64) by (bit_vector);
    assert(!(1u64 << 63) & !1u64 == 0x7FFFFFFFFFFFFFFEu64) by (bit_vector);
    assert(pow2(63) == 0x8000000000000000);
    crate::bits::lemma_pc_pow2_minus_1(63);
    crate::bits::lemma_pc_pow2_minus_1(62);
    assert(pow2(62) == 0x4000000000000000);
    assert(0x7FFFFFFFFFFFFFFEu64 as nat == 2 * ((pow2(62) - 1) as nat) + 0);
    crate::bits::lemma_pc_two_m_plus_b((pow2(62) - 1) as nat, 0);

    let kk = (w % 63 + 1) as u64;
    let s = (64 - (w % 63 + 1)) as u64;
    vstd::bits::lemma_u64_pow2_no_overflow(kk as nat);
    vstd::bits::lemma_u64_shl_is_mul(1u64, kk);
    assert(pow2(kk as nat) >= 2) by {
        vstd::arithmetic::power2::lemma_pow2_unfold(kk as nat);
        vstd::arithmetic::power2::lemma_pow2_pos((kk - 1) as nat);
    }
    if upr == 1 {
        assert(w < 63) by (nonlinear_arith)
            requires
                1 == (w + 63) / 63,
                w >= 3,
        ;
        assert((!(1u64 << 63) & !1u64) & (!0u64 >> s) == (1u64 << kk) - 2) by (bit_vector)
            requires
                1 <= kk <= 63,
                s == 64 - kk,
        ;
        let m = (pow2((kk - 1) as nat) - 1) as nat;
        vstd::arithmetic::power2::lemma_pow2_unfold(kk as nat);
        vstd::arithmetic::power2::lemma_pow2_pos((kk - 1) as nat);
        assert(((1u64 << kk) - 2) as nat == 2 * m + 0);
        crate::bits::lemma_pc_two_m_plus_b(m, 0);
        crate::bits::lemma_pc_pow2_minus_1((kk - 1) as nat);
    } else {
        assert(!(1u64 << 63) & (!0u64 >> s) == (1u64 << kk) - 1) by (bit_vector)
            requires
                1 <= kk <= 63,
                s == 64 - kk,
        ;
        crate::bits::lemma_pc_pow2_minus_1(kk as nat);
    }
}

/// Together the masks of one row keep exactly `w` cell bits.
pub proof fn lemma_masks_pc_total(upr: int, w: int)
    requires
        upr == (w + 63) / 63,
        3 <= w <= 63000,
    ensures
        masks_pc(upr, upr, w) == w,
{
    lemma_mask_pc(upr, w);
    assert(masks_pc(0, upr, w) == 0);
    if upr == 1 {
        assert(w < 63) by (nonlinear_arith)
            requires
                1 == (w + 63) / 63,
                w >= 3,
        ;
        assert(live_mask(0, 1, w) == mask_right(1, w));
        assert(masks_pc(1, upr, w) == pc(mask_right(1, w) as nat));
        assert(w % 63 == w);
    } else {
        assert(w == 63 * (upr - 1) + w % 63 && upr >= 2) by (nonlinear_arith)
            requires
                upr == (w + 63) / 63,
                3 <= w <= 63000,
                upr != 1,
        ;
        lemma_masks_pc_prefix(upr, w, upr - 1);
        assert(live_mask(upr - 1, upr, w) == mask_right(upr, w));
        assert(masks_pc(upr, upr, w) == masks_pc(upr - 1, upr, w) + pc(
            mask_right(upr, w) as nat,
        ));
        assert(62 + 63 * (upr - 2) + (w % 63 + 1) == 63 * (upr - 1) + w % 63);
    }
}

/// Chunks `0 .. c` of a row, `c` short of the last, keep `62 + 63*(c-1)` bits.
proof fn lemma_masks_pc_prefix(upr: int, w: int, c: int)
    requires
        upr >= 2,
        1 <= c <= upr - 1,
    ensures
        masks_pc(c, upr, w) == 62 + 63 * (c - 1),
    decreases c,
{
    lemma2_to64();
    lemma2_to64_rest();
    assert(!(1u64 << 63) == 0x7FFFFFFFFFFFFFFFu64) by (bit_vector);
    assert(!(1u64 << 63) & !1u64 == 0x7FFFFFFFFFFFFFFEu64) by (bit_vector);
    assert(pow2(63) == 0x8000000000000000);
    assert(pow2(62) == 0x4000000000000000);
    crate::bits::lemma_pc_pow2_minus_1(63);
    crate::bits::lemma_pc_pow2_minus_1(62);
    assert(0x7FFFFFFFFFFFFFFEu64 as nat == 2 * ((pow2(62) - 1) as nat) + 0);
    crate::bits::lemma_pc_two_m_plus_b((pow2(62) - 1) as nat, 0);
    assert(pc(mask_center() as nat) == 63);
    assert(pc(mask_left() as nat) == 62);
    if c > 1 {
        lemma_masks_pc_prefix(upr, w, c - 1);
        assert(live_mask(c - 1, upr, w) == mask_center());
    } else {
        assert(masks_pc(0, upr, w) == 0);
        assert(live_mask(0, upr, w) == mask_left());
    }
}

/// Chunk masking never counts more than the mask itself admits.
proof fn lemma_row_live_le(units: Seq<u64>, upr: int, w: int, r: int, c: int)
    ensures
        row_live(units, upr, w, r, c) <= masks_pc(c, upr, w),
    decreases c,
{
    if c > 0 {
        lemma_row_live_le(units, upr, w, r, c - 1);
        let v = units[r * upr + (c - 1)];
        let m = live_mask(c - 1, upr, w);
        crate::bits::lemma_pc_and_le(v, m);
    }
}

/// No board state holds more live cells than the board has cells.
pub proof fn lemma_live_count_le_area(units: Seq<u64>, upr: int, w: int, h: int)
    requires
        upr == (w + 63) / 63,
        3 <= w <= 63000,
        0 <= h,
    ensures
        live_count(units, upr, w, h) <= w * h,
{
    lemma_masks_pc_total(upr, w);
    lemma_rows_live_le(units, upr, w, h + 1);
    assert((h + 1 - 1) * w == w * h) by (nonlinear_arith);
}

proof fn lemma_rows_live_le(units: Seq<u64>, upr: int, w: int, r: int)
    requires
        upr == (w + 63) / 63,
        3 <= w <= 63000,
        1 <= r,
    ensures
        rows_live(units, upr, w, r) <= (r - 1) * w,
    decreases r,
{
    if r <= 1 {
    } else {
        lemma_rows_live_le(units, upr, w, r - 1);
        lemma_row_live_le(units, upr, w, r - 1, upr);
        lemma_masks_pc_total(upr, w);
        assert((r - 1) * w == (r - 2) * w + w) by (nonlinear_arith);
    }
}

/// An all-ones storage row counts exactly what the masks admit.
proof fn lemma_row_live_ones(units: Seq<u64>, upr: int, w: int, r: int, c: int)
    requires
        forall|j: int| 0 <= j < c ==> units[#[trigger] (r * upr + j)] == !0u64,
    ensures
        row_live(units, upr, w, r, c) == masks_pc(c, upr, w),
    decreases c,
{
    if c > 0 {
        lemma_row_live_ones(units, upr, w, r, c - 1);
        let m = live_mask(c - 1, upr, w);
        assert(!0u64 & m == m) by (bit_vector);
    }
}

/// A board whose storage is all ones holds exactly `w * h` live cells.
pub proof fn lemma_live_count_ones(units: Seq<u64>, upr: int, w: int, h: int)
    requires
        upr == (w + 63) / 63,
        3 <= w <= 63000,
        0 <= h,
        forall|j: int| 0 <= j < (h + 2) * upr ==> #[trigger] units[j] == !0u64,
        units.len() == (h + 2) * upr,
    ensures
        live_count(units, upr, w, h) == w * h,
{
    lemma_masks_pc_total(upr, w);
    lemma_rows_live_ones(units, upr, w, h, h + 1);
    assert((h + 1 - 1) * w == w * h) by (nonlinear_arith);
}

proof fn lemma_rows_live_ones(units: Seq<u64>, upr: int, w: int, h: int, r: int)
    requires
        upr == (w + 63) / 63,
        3 <= w <= 63000,
        0 <= h,
        1 <= r <= h + 1,
        forall|j: int| 0 <= j < (h + 2) * upr ==> #[trigger] units[j] == !0u64,
        units.len() == (h + 2) * upr,
    ensures
        rows_live(units, upr, w, r) == (r - 1) * masks_pc(upr, upr, w),
    decreases r,
{
    if r == 1 {
        assert((1 - 1) * masks_pc(upr, upr, w) == 0) by (nonlinear_arith);
    } else {
        lemma_rows_live_ones(units, upr, w, h, r - 1);
        assert(upr >= 1) by (nonlinear_arith)
            requires
                upr == (w + 63) / 63,
                w >= 3,
        ;
        assert forall|j: int| 0 <= j < upr implies units[#[trigger] ((r - 1) * upr + j)] == !0u64 by {
            assert(0 <= (r - 1) * upr + j < (h + 2) * upr) by (nonlinear_arith)
                requires
                    2 <= r <= h + 1,
                    0 <= j < upr,
                    upr >= 1,
            ;
        }
        lemma_row_live_ones(units, upr, w, r - 1, upr);
        assert((r - 1) * masks_pc(upr, upr, w) == (r - 2) * masks_pc(upr, upr, w) + masks_pc(
            upr,
            upr,
            w,
        )) by (nonlinear_arith);
    }
}

/// A pointwise-subset storage never counts more live cells.
pub proof fn lemma_live_count_subset(ua: Seq<u64>, ub: Seq<u64>, upr: int, w: int, h: int)
    requires
        forall|i: int| 0 <= i < ua.len() ==> (ua[i] & ub[i]) == ua[i],
        ua.len() == ub.len(),
        ua.len() >= (h + 2) * upr,
        upr >= 1,
        h >= 0,
    ensures
        live_count(ua, upr, w, h) <= live_count(ub, upr, w, h),
{
    lemma_rows_live_subset(ua, ub, upr, w, h, h + 1);
}

proof fn lemma_rows_live_subset(ua: Seq<u64>, ub: Seq<u64>, upr: int, w: int, h: int, r: int)
    requires
        forall|i: int| 0 <= i < ua.len() ==> (ua[i] & ub[i]) == ua[i],
        ua.len() == ub.len(),
        ua.len() >= (h + 2) * upr,
        upr >= 1,
        h >= 0,
        r <= h + 1,
    ensures
        rows_live(ua, upr, w, r) <= rows_live(ub, upr, w, r),
    decreases r,
{
    if r > 1 {
        lemma_rows_live_subset(ua, ub, upr, w, h, r - 1);
        lemma_row_live_subset(ua, ub, upr, w, h, r - 1, upr);
    }
}

proof fn lemma_row_live_subset(ua: Seq<u64>, ub: Seq<u64>, upr: int, w: int, h: int, r: int, c: int)
    requires
        forall|i: int| 0 <= i < ua.len() ==> (ua[i] & ub[i]) == ua[i],
        ua.len() == ub.len(),
        ua.len() >= (h + 2) * upr,
        upr >= 1,
        h >= 0,
        1 <= r <= h,
        c <= upr,
    ensures
        row_live(ua, upr, w, r, c) <= row_live(ub, upr, w, r, c),
    decreases c,
{
    if c > 0 {
        lemma_row_live_subset(ua, ub, upr, w, h, r, c - 1);
        let i = r * upr + (c - 1);
        assert(0 <= i < (h + 2) * upr) by (nonlinear_arith)
            requires
                i == r * upr + (c - 1),
                1 <= r <= h,
                0 <= c - 1 < upr,
                upr >= 1,
                h >= 0,
        ;
        let m = live_mask(c - 1, upr, w);
        let a = ua[i];
        let b = ub[i];
        assert((a & m) & (b & m) == (a & m)) by (bit_vector)
            requires
                a & b == a,
        ;
        crate::bits::lemma_pc_and_le(a & m, b & m);
    }
}

/// One byte peels off the low eight binary digits of a word.
proof fn lemma_byte_split(v: u64)
    ensures
        pc(v as nat) == pc((v & 255) as nat) + pc((v >> 8) as nat),
{
    assert((v & 255) as nat == (v as nat) % 256 && (v >> 8) as nat == (v as nat) / 256 && (
    v as nat) % 256 < 256) by (bit_vector);
    lemma2_to64();
    lemma_fundamental_div_mod(v as int, 256);
    lemma_pc_split((v as nat) / 256, (v as nat) % 256, 8);
}

} // verus!
