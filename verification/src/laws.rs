//! Laws of the engine, stated over the same models its contracts use:
//! counting under double complement, counting under the border
//! synthesis, the values the border policies install, and the
//! monotonicity of the run aggregates.

use vstd::prelude::*;
use crate::bits::{sum_pc, pc};
use vstd::arithmetic::power2::pow2;
use crate::counter::{
    live_count, live_mask, mask_right, lemma_live_count_ones, lemma_live_count_le_area,
    lemma_live_count_subset, row_live, rows_live,
};
use crate::life::{
    GameOfLife, GridBorder, zeroes_bordered, zeroes_bordered_unit, wrapped_bordered, wrap_sides,
    wrap_sides_unit, gol_step,
};
use crate::runner::{run_model, run_model_step, or_units};

verus! {

/// Complementing every storage bit twice restores the raw count: stated
/// over the storage of a grid, its complement, and the complement of
/// that.
pub proof fn lemma_toggle_toggle_count_raw(g0: Seq<u64>, g1: Seq<u64>, g2: Seq<u64>)
    requires
        g1.len() == g0.len(),
        g2.len() == g1.len(),
        forall|i: int| 0 <= i < g0.len() ==> g1[i] == !g0[i],
        forall|i: int| 0 <= i < g1.len() ==> g2[i] == !g1[i],
    ensures
        sum_pc(g2) == sum_pc(g0),
{
    assert forall|i: int| 0 <= i < g0.len() implies g2[i] == g0[i] by {
        let x = g0[i];
        assert(!!x == x) by (bit_vector);
    }
    assert(g2 =~= g0);
}

/// A board whose storage is all ones counts exactly `width * height`
/// live cells; the statement does not mention the border policy, so it
/// holds of either.
pub proof fn lemma_all_ones_counts_area(gol: GameOfLife)
    requires
        gol.wf(),
        forall|i: int| 0 <= i < gol.bit_grid.units@.len() ==> gol.bit_grid.units@[i] == !0u64,
    ensures
        live_count(
            gol.bit_grid.units@,
            gol.units_per_row as int,
            gol.width as int,
            gol.height as int,
        ) == gol.width * gol.height,
{
    let upr = gol.units_per_row as int;
    let h = gol.height as int;
    assert(gol.bit_grid.units@.len() == (h + 2) * upr) by (nonlinear_arith)
        requires
            gol.bit_grid.units@.len() == gol.bit_grid.height * gol.bit_grid.units_per_row,
            gol.bit_grid.height == h + 2,
            gol.bit_grid.units_per_row == upr,
    ;
    lemma_live_count_ones(gol.bit_grid.units@, upr, gol.width as int, h);
}

/// After the zeroed border synthesis, the border rows and the halo bit
/// of each interior row's first and last chunk are zero.
pub proof fn lemma_zeroes_border_values(u: Seq<u64>, upr: int, w: int, h: int)
    requires
        u.len() == (h + 2) * upr,
        upr >= 1,
        h >= 1,
    ensures
        ({
            let zb = zeroes_bordered(u, upr, w, h);
            &&& forall|c: int| 0 <= c < upr ==> #[trigger] zb[c] == 0
            &&& forall|c: int| 0 <= c < upr ==> #[trigger] zb[(h + 1) * upr + c] == 0
            &&& forall|r: int|
                1 <= r <= h ==> (#[trigger] zb[r * upr]) & 1 == 0 && zb[r * upr + upr - 1] & (1u64
                    << (((w + 1) % 63) as u64)) == 0
        }),
{
    let zb = zeroes_bordered(u, upr, w, h);
    assert forall|c: int| 0 <= c < upr implies #[trigger] zb[c] == 0 by {
        crate::life::lemma_row_col(upr, 0, c);
        assert(0 * upr + c == c);
        assert(upr <= (h + 2) * upr) by (nonlinear_arith)
            requires
                h >= 1,
                upr >= 1,
        ;
        assert(zb[c] == zeroes_bordered_unit(u, upr, w, h, c));
    }
    assert forall|c: int| 0 <= c < upr implies #[trigger] zb[(h + 1) * upr + c] == 0 by {
        crate::life::lemma_row_col(upr, h + 1, c);
        assert(0 <= (h + 1) * upr + c < (h + 2) * upr) by (nonlinear_arith)
            requires
                0 <= c < upr,
                h >= 1,
        ;
    }
    assert forall|r: int|
        1 <= r <= h implies (#[trigger] zb[r * upr]) & 1 == 0 && zb[r * upr + upr - 1] & (1u64 << ((
    (w + 1) % 63) as u64)) == 0 by {
        crate::life::lemma_row_col(upr, r, 0);
        crate::life::lemma_row_col(upr, r, upr - 1);
        assert(0 <= r * upr && r * upr + upr <= (h + 1) * upr && (h + 1) * upr < (h + 2) * upr)
            by (nonlinear_arith)
            requires
                1 <= r <= h,
                upr >= 1,
        ;
        assert(zb[r * upr] == zeroes_bordered_unit(u, upr, w, h, r * upr));
        assert(zb[r * upr + upr - 1] == zeroes_bordered_unit(u, upr, w, h, r * upr + upr - 1));
        let q = (((w + 1) % 63)) as u64;
        let v = u[r * upr];
        let v2 = u[r * upr + upr - 1];
        if upr == 1 {
            assert((v & !1u64) & !(1u64 << q) & 1 == 0 && (v & !1u64) & !(1u64 << q) & (1u64 << q)
                == 0) by (bit_vector);
        } else {
            assert((v & !1u64) & 1 == 0) by (bit_vector);
            assert((v2 & !(1u64 << q)) & (1u64 << q) == 0) by (bit_vector);
        }
    }
}

/// After the toroidal border synthesis: the left halo of each interior
/// row equals that row's right-edge cell, the right halo its left-edge
/// cell, and the border rows are copies of the opposite interior rows.
pub proof fn lemma_wrapped_border_values(u: Seq<u64>, upr: int, w: int, h: int)
    requires
        u.len() == (h + 2) * upr,
        upr == (w + 63) / 63,
        h >= 1,
        3 <= w,
    ensures
        ({
            let wb = wrapped_bordered(u, upr, w, h);
            let spos = (w % 63) as u64;
            let rpos = (w % 63 + 1) as u64;
            &&& forall|c: int| 0 <= c < upr ==> #[trigger] wb[c] == wb[h * upr + c]
            &&& forall|c: int| 0 <= c < upr ==> #[trigger] wb[(h + 1) * upr + c] == wb[upr + c]
            &&& forall|r: int|
                1 <= r <= h ==> (#[trigger] wb[r * upr]) & 1 == (wb[r * upr + upr - 1] >> spos) & 1
            &&& forall|r: int|
                1 <= r <= h ==> ((#[trigger] wb[r * upr + upr - 1]) >> rpos) & 1 == (wb[r * upr]
                    >> 1) & 1
        }),
{
    assert(upr >= 1) by (nonlinear_arith)
        requires
            upr == (w + 63) / 63,
            w >= 3,
    ;
    let ws = wrap_sides(u, upr, w, h);
    let wb = wrapped_bordered(u, upr, w, h);
    let spos = (w % 63) as u64;
    let rpos = (w % 63 + 1) as u64;
    assert forall|c: int| 0 <= c < upr implies #[trigger] wb[c] == wb[h * upr + c] by {
        crate::life::lemma_row_col(upr, 0, c);
        crate::life::lemma_row_col(upr, h, c);
        assert(0 <= h * upr + c < (h + 1) * upr && (h + 1) * upr < (h + 2) * upr)
            by (nonlinear_arith)
            requires
                0 <= c < upr,
                h >= 1,
        ;
        assert(wb[c] == ws[h * upr + c]);
        assert(wb[h * upr + c] == ws[h * upr + c]);
    }
    assert forall|c: int| 0 <= c < upr implies #[trigger] wb[(h + 1) * upr + c] == wb[upr + c] by {
        crate::life::lemma_row_col(upr, h + 1, c);
        crate::life::lemma_row_col(upr, 1, c);
        assert((h + 1) * upr + c < (h + 2) * upr && upr + c < (h + 1) * upr && (h + 1) * upr < (h
            + 2) * upr) by (nonlinear_arith)
            requires
                0 <= c < upr,
                h >= 1,
        ;
        assert(wb[(h + 1) * upr + c] == ws[upr + c]);
        assert(wb[upr + c] == ws[upr + c]);
    }
    assert forall|r: int|
        1 <= r <= h implies ((#[trigger] wb[r * upr]) & 1 == (wb[r * upr + upr - 1] >> spos) & 1)
        && (((#[trigger] wb[r * upr + upr - 1]) >> rpos) & 1 == (wb[r * upr] >> 1) & 1) by {
        crate::life::lemma_row_col(upr, r, 0);
        crate::life::lemma_row_col(upr, r, upr - 1);
        assert(upr <= r * upr && r * upr + upr <= (h + 1) * upr && (h + 1) * upr < (h + 2) * upr
            && upr * (h + 1) == (h + 1) * upr) by (nonlinear_arith)
            requires
                1 <= r <= h,
                upr >= 1,
        ;
        let il = r * upr;
        let ir = r * upr + upr - 1;
        assert(wb[il] == ws[il]);
        assert(wb[ir] == ws[ir]);
        assert(ws[il] == wrap_sides_unit(u, upr, w, il));
        assert(ws[ir] == wrap_sides_unit(u, upr, w, ir));
        if upr == 1 {
            assert(3 <= w < 63) by (nonlinear_arith)
                requires
                    1 == (w + 63) / 63,
                    w >= 3,
            ;
            let v = u[il];
            let v0 = v & !1u64 & !(1u64 << rpos);
            let v1 = v0 | ((v0 >> spos) & 1);
            let v2 = v1 | (((v1 >> 1) & 1) << rpos);
            assert(ws[il] == v2);
            assert(v2 & 1 == (v2 >> spos) & 1 && (v2 >> rpos) & 1 == (v2 >> 1) & 1)
                by (bit_vector)
                requires
                    v0 == v & !1u64 & !(1u64 << rpos),
                    v1 == v0 | ((v0 >> spos) & 1),
                    v2 == v1 | (((v1 >> 1) & 1) << rpos),
                    1 <= spos <= 62,
                    rpos == spos + 1,
            ;
        } else {
            let vl = u[il];
            let vr = u[ir];
            let nl = (vl & !1u64) | ((vr >> spos) & 1);
            let nr = (vr & !(1u64 << rpos)) | (((vl >> 1) & 1) << rpos);
            assert(ws[il] == nl);
            assert(ws[ir] == nr);
            assert(nl & 1 == (nr >> spos) & 1 && (nr >> rpos) & 1 == (nl >> 1) & 1)
                by (bit_vector)
                requires
                    nl == (vl & !1u64) | ((vr >> spos) & 1),
                    nr == (vr & !(1u64 << rpos)) | (((vl >> 1) & 1) << rpos),
                    spos <= 62,
                    rpos == spos + 1,
            ;
        }
    }
}

/// The masked live count ignores every bit the zeroed border clears: on
/// an all-ones board (away from the chunk alignment where the right halo
/// coincides with a spillover bit) the live count after the synthesis is
/// still the full area.
pub proof fn lemma_zeroes_border_keeps_ones_count(u: Seq<u64>, upr: int, w: int, h: int)
    requires
        u.len() == (h + 2) * upr,
        upr == (w + 63) / 63,
        3 <= w <= 63000,
        1 <= h,
        w % 63 != 62,
        forall|i: int| 0 <= i < u.len() ==> #[trigger] u[i] == !0u64,
    ensures
        live_count(zeroes_bordered(u, upr, w, h), upr, w, h) == w * h,
{
    let zb = zeroes_bordered(u, upr, w, h);
    assert(upr >= 1) by (nonlinear_arith)
        requires
            upr == (w + 63) / 63,
            w >= 3,
    ;
    lemma_live_rows_masked_eq(u, zb, upr, w, h, h + 1);
    crate::counter::lemma_live_count_ones(u, upr, w, h);
}

/// Two storages that agree on every masked interior chunk have the same
/// live count; used with the border synthesis, whose changes the masks
/// all exclude.
proof fn lemma_live_rows_masked_eq(ua: Seq<u64>, ub: Seq<u64>, upr: int, w: int, h: int, r: int)
    requires
        ua.len() == (h + 2) * upr,
        ub.len() == ua.len(),
        upr == (w + 63) / 63,
        3 <= w <= 63000,
        1 <= h,
        w % 63 != 62,
        r <= h + 1,
        ub == zeroes_bordered(ua, upr, w, h),
        forall|i: int| 0 <= i < ua.len() ==> #[trigger] ua[i] == !0u64,
    ensures
        rows_live(ub, upr, w, r) == rows_live(ua, upr, w, r),
    decreases r,
{
    assert(upr >= 1) by (nonlinear_arith)
        requires
            upr == (w + 63) / 63,
            w >= 3,
    ;
    if r > 1 {
        lemma_live_rows_masked_eq(ua, ub, upr, w, h, r - 1);
        lemma_live_row_masked_eq(ua, ub, upr, w, h, r - 1, upr);
    }
}

proof fn lemma_live_row_masked_eq(
    ua: Seq<u64>,
    ub: Seq<u64>,
    upr: int,
    w: int,
    h: int,
    r: int,
    c: int,
)
    requires
        ua.len() == (h + 2) * upr,
        ub.len() == ua.len(),
        upr == (w + 63) / 63,
        upr >= 1,
        3 <= w <= 63000,
        1 <= h,
        w % 63 != 62,
        1 <= r <= h,
        c <= upr,
        ub == zeroes_bordered(ua, upr, w, h),
    ensures
        row_live(ub, upr, w, r, c) == row_live(ua, upr, w, r, c),
    decreases c,
{
    if c > 0 {
        lemma_live_row_masked_eq(ua, ub, upr, w, h, r, c - 1);
        let i = r * upr + (c - 1);
        crate::life::lemma_row_col(upr, r, c - 1);
        assert(0 <= i < (h + 1) * upr && (h + 1) * upr < (h + 2) * upr) by (nonlinear_arith)
            requires
                i == r * upr + (c - 1),
                1 <= r <= h,
                0 <= c - 1 < upr,
                upr >= 1,
        ;
        let m = live_mask(c - 1, upr, w);
        let v = ua[i];
        let q = ((w + 1) % 63) as u64;
        let k = (w % 63 + 1) as u64;
        assert(ub[i] == zeroes_bordered_unit(ua, upr, w, h, i));
        if upr == 1 {
            assert(m == mask_right(1, w));
            assert((v & !1u64 & !(1u64 << q)) & ((!(1u64 << 63) & !1u64) & (!0u64 >> ((64
                - k) as u64))) == v & ((!(1u64 << 63) & !1u64) & (!0u64 >> ((64 - k) as u64))))
                by (bit_vector)
                requires
                    1 <= k <= 62,
                    q == k,
            ;
        } else if c - 1 == 0 {
            assert((v & !1u64) & (!(1u64 << 63) & !1u64) == v & (!(1u64 << 63) & !1u64))
                by (bit_vector);
        } else if c - 1 == upr - 1 {
            assert(m == mask_right(upr, w));
            assert((v & !(1u64 << q)) & ((!(1u64 << 63)) & (!0u64 >> ((64 - k) as u64))) == v & ((!(
            1u64 << 63)) & (!0u64 >> ((64 - k) as u64)))) by (bit_vector)
                requires
                    1 <= k <= 62,
                    q == k,
            ;
        } else {
            assert(ub[i] == v);
        }
    }
}

/// Across a run, `max_cells` and `num_toggled` never decrease from one
/// sample to the next, and while `max_cells` stands still
/// `min_cells_after_max` never increases.
pub proof fn lemma_run_stats_monotone_step(
    u0: Seq<u64>,
    upr: int,
    w: int,
    h: int,
    border: GridBorder,
    abs: nat,
    rel: nat,
    g0: nat,
    n: nat,
)
    ensures
        ({
            let a = run_model(u0, upr, w, h, border, abs, rel, g0, n);
            let b = run_model(u0, upr, w, h, border, abs, rel, g0, n + 1);
            &&& a.max_cells <= b.max_cells
            &&& a.num_toggled <= b.num_toggled
            &&& b.max_cells == a.max_cells ==> b.min_cells <= a.min_cells
        }),
{
}

/// The same, between any two samples of one run.
pub proof fn lemma_run_stats_monotone(
    u0: Seq<u64>,
    upr: int,
    w: int,
    h: int,
    border: GridBorder,
    abs: nat,
    rel: nat,
    g0: nat,
    n1: nat,
    n2: nat,
)
    requires
        n1 <= n2,
    ensures
        run_model(u0, upr, w, h, border, abs, rel, g0, n1).max_cells <= run_model(
            u0,
            upr,
            w,
            h,
            border,
            abs,
            rel,
            g0,
            n2,
        ).max_cells,
        run_model(u0, upr, w, h, border, abs, rel, g0, n1).num_toggled <= run_model(
            u0,
            upr,
            w,
            h,
            border,
            abs,
            rel,
            g0,
            n2,
        ).num_toggled,
    decreases n2 - n1,
{
    if n1 < n2 {
        lemma_run_stats_monotone_step(u0, upr, w, h, border, abs, rel, g0, (n2 - 1) as nat);
        lemma_run_stats_monotone(u0, upr, w, h, border, abs, rel, g0, n1, (n2 - 1) as nat);
    }
}

/// The standing relations of the run aggregates: the minimum since the
/// maximum never exceeds the maximum, which never exceeds the toggled
/// count, which never exceeds the board's area; and the generation of
/// the maximum never follows the generation of the minimum.
pub proof fn lemma_run_stats_invariants(
    u0: Seq<u64>,
    upr: int,
    w: int,
    h: int,
    border: GridBorder,
    abs: nat,
    rel: nat,
    g0: nat,
    n: nat,
)
    requires
        u0.len() == (h + 2) * upr,
        upr == (w + 63) / 63,
        3 <= w <= 63000,
        1 <= h,
    ensures
        ({
            let m = run_model(u0, upr, w, h, border, abs, rel, g0, n);
            &&& m.min_cells <= m.max_cells
            &&& m.max_cells <= m.num_toggled
            &&& m.num_toggled <= w * h
            &&& m.max_cells_steps <= m.min_cells_steps
            &&& m.max_cells_steps <= g0 + n
            &&& m.min_cells_steps <= g0 + n
            &&& m.num_toggled_steps <= g0 + n
            &&& m.units.len() == u0.len()
            &&& m.toggled.len() == u0.len()
            &&& forall|i: int| 0 <= i < u0.len() ==> ((#[trigger] m.units[i]) & m.toggled[i])
                == m.units[i]
        }),
    decreases n,
{
    let m = run_model(u0, upr, w, h, border, abs, rel, g0, n);
    if n == 0 {
        lemma_live_count_le_area(u0, upr, w, h);
        assert forall|i: int| 0 <= i < u0.len() implies ((#[trigger] m.units[i]) & m.toggled[i])
            == m.units[i] by {
            let x = u0[i];
            assert(x & x == x) by (bit_vector);
        }
    } else {
        let prev = run_model(u0, upr, w, h, border, abs, rel, g0, (n - 1) as nat);
        lemma_run_stats_invariants(u0, upr, w, h, border, abs, rel, g0, (n - 1) as nat);
        let u = gol_step(prev.units, upr, w, h, border);
        let tog = or_units(prev.toggled, u);
        assert(u.len() == prev.units.len());
        assert(tog.len() == prev.toggled.len());
        lemma_live_count_le_area(u, upr, w, h);
        lemma_live_count_le_area(tog, upr, w, h);
        assert forall|i: int| 0 <= i < u0.len() implies ((#[trigger] u[i]) & tog[i]) == u[i] by {
            let a = u[i];
            let t = prev.toggled[i];
            assert(tog[i] == t | a);
            assert(a & (t | a) == a) by (bit_vector);
        }
        lemma_live_count_subset(u, tog, upr, w, h);
        assert(m == run_model_step(prev, upr, w, h, border, abs, rel, g0 + n));
        let cells = live_count(u, upr, w, h);
        let togc = live_count(tog, upr, w, h);
        assert(cells <= togc);
        assert(m.num_toggled >= togc && m.num_toggled >= prev.num_toggled);
        assert(m.max_cells <= m.num_toggled);
    }
}

/// The word-parallel update encodes the birth/survival rule: at bit
/// positions two through sixty-two of a chunk, the updated bit is alive
/// exactly when its eight neighbour bits in the three rows sum to
/// three, or to two while the bit itself is alive — whatever the
/// carried vertical sums of the chunk to the left hold. The two lowest
/// bits also read those carried sums, whose top bit mirrors this
/// chunk's own column zero once the spillover bits are restored, and
/// the spillover bit itself is rewritten at the next restoration.
#[verifier::rlimit(60)]
pub proof fn lemma_next_unit_encodes_rule(a: u64, c: u64, b: u64, sp: u64, cp: u64, j: u64)
    requires
        2 <= j <= 62,
    ensures
        ({
            let jm = (j - 1) as u64;
            let jp = (j + 1) as u64;
            let n = ((a >> jm) & 1) + ((a >> j) & 1) + ((a >> jp) & 1) + ((c >> jm) & 1) + ((c
                >> jp) & 1) + ((b >> jm) & 1) + ((b >> j) & 1) + ((b >> jp) & 1);
            ((crate::life::next_unit(a, c, b, sp, cp) >> j) & 1 == 1) <==> (n == 3 || (n == 2 && (c
                >> j) & 1 == 1))
        }),
{
    let jm = (j - 1) as u64;
    let jp = (j + 1) as u64;
    assert(({
        let n = ((a >> jm) & 1) + ((a >> j) & 1) + ((a >> jp) & 1) + ((c >> jm) & 1) + ((c >> jp)
            & 1) + ((b >> jm) & 1) + ((b >> j) & 1) + ((b >> jp) & 1);
        ((crate::life::next_unit(a, c, b, sp, cp) >> j) & 1 == 1) <==> (n == 3 || (n == 2 && (c
            >> j) & 1 == 1))
    })) by (bit_vector)
        requires
            2 <= j <= 62,
            jm == j - 1,
            jp == j + 1,
    ;
}

/// Setting a cell twice is setting it once: stated over the storage-bit
/// maps of a grid after one `set` and after a second `set` of the same
/// cell, as the `set` contract describes them.
pub proof fn lemma_set_is_idempotent(g1: crate::grid::BitGrid, g2: crate::grid::BitGrid, x: int, y: int)
    requires
        g1.units_per_row == g2.units_per_row,
        g1.height == g2.height,
        forall|xx: int, yy: int|
            0 <= xx < g2.units_per_row * 64 && 0 <= yy < g2.height ==> #[trigger] g2.spec_bit(
                xx,
                yy,
            ) == if xx == x && yy == y {
                true
            } else {
                g1.spec_bit(xx, yy)
            },
        0 <= x < g1.units_per_row * 64,
        0 <= y < g1.height,
        g1.spec_bit(x, y),
    ensures
        forall|xx: int, yy: int|
            0 <= xx < g2.units_per_row * 64 && 0 <= yy < g2.height ==> #[trigger] g2.spec_bit(
                xx,
                yy,
            ) == g1.spec_bit(xx, yy),
{
}

/// Clearing a freshly set cell restores the grid: stated over the
/// storage-bit maps after a `set` and then a `clear` of the same cell,
/// when that cell was clear to begin with.
pub proof fn lemma_set_then_clear_restores(
    g0: crate::grid::BitGrid,
    g1: crate::grid::BitGrid,
    g2: crate::grid::BitGrid,
    x: int,
    y: int,
)
    requires
        g0.units_per_row == g1.units_per_row,
        g0.height == g1.height,
        g1.units_per_row == g2.units_per_row,
        g1.height == g2.height,
        forall|xx: int, yy: int|
            0 <= xx < g1.units_per_row * 64 && 0 <= yy < g1.height ==> #[trigger] g1.spec_bit(
                xx,
                yy,
            ) == if xx == x && yy == y {
                true
            } else {
                g0.spec_bit(xx, yy)
            },
        forall|xx: int, yy: int|
            0 <= xx < g2.units_per_row * 64 && 0 <= yy < g2.height ==> #[trigger] g2.spec_bit(
                xx,
                yy,
            ) == if xx == x && yy == y {
                false
            } else {
                g1.spec_bit(xx, yy)
            },
        !g0.spec_bit(x, y),
    ensures
        forall|xx: int, yy: int|
            0 <= xx < g2.units_per_row * 64 && 0 <= yy < g2.height ==> #[trigger] g2.spec_bit(
                xx,
                yy,
            ) == g0.spec_bit(xx, yy),
{
}

/// Once no aggregate improves any more, the dormancy deadline freezes,
/// so the run ends no later than that deadline: whoever shows that
/// every step after `n0` is dormant bounds the whole run.
pub proof fn lemma_frozen_deadline(
    u0: Seq<u64>,
    upr: int,
    w: int,
    h: int,
    border: GridBorder,
    abs: nat,
    rel: nat,
    g0: nat,
    n0: nat,
    n: nat,
)
    requires
        n0 <= n,
        forall|i: nat|
            n0 < i <= n ==> {
                let prev = run_model(u0, upr, w, h, border, abs, rel, g0, (i - 1) as nat);
                let cur = #[trigger] run_model(u0, upr, w, h, border, abs, rel, g0, i);
                cur.max_cells == prev.max_cells && cur.min_cells == prev.min_cells
                    && cur.num_toggled == prev.num_toggled
            },
    ensures
        run_model(u0, upr, w, h, border, abs, rel, g0, n).deadline == run_model(
            u0,
            upr,
            w,
            h,
            border,
            abs,
            rel,
            g0,
            n0,
        ).deadline,
    decreases n - n0,
{
    if n > n0 {
        lemma_frozen_deadline(u0, upr, w, h, border, abs, rel, g0, n0, (n - 1) as nat);
        let prev = run_model(u0, upr, w, h, border, abs, rel, g0, (n - 1) as nat);
        let cur = run_model(u0, upr, w, h, border, abs, rel, g0, n);
        assert(cur == run_model_step(prev, upr, w, h, border, abs, rel, g0 + n));
    }
}

/// The largest live-cell count seen in the first `n` samples of a run.
pub open spec fn max_live_upto(
    u0: Seq<u64>,
    upr: int,
    w: int,
    h: int,
    border: GridBorder,
    abs: nat,
    rel: nat,
    g0: nat,
    n: nat,
) -> nat
    decreases n,
{
    if n == 0 {
        live_count(u0, upr, w, h)
    } else {
        let m = max_live_upto(u0, upr, w, h, border, abs, rel, g0, (n - 1) as nat);
        let c = live_count(run_model(u0, upr, w, h, border, abs, rel, g0, n).units, upr, w, h);
        if c > m {
            c
        } else {
            m
        }
    }
}

/// `max_cells` is exactly the maximum live-cell count over all samples
/// of the run so far.
pub proof fn lemma_max_cells_is_running_max(
    u0: Seq<u64>,
    upr: int,
    w: int,
    h: int,
    border: GridBorder,
    abs: nat,
    rel: nat,
    g0: nat,
    n: nat,
)
    ensures
        run_model(u0, upr, w, h, border, abs, rel, g0, n).max_cells == max_live_upto(
            u0,
            upr,
            w,
            h,
            border,
            abs,
            rel,
            g0,
            n,
        ),
    decreases n,
{
    if n > 0 {
        lemma_max_cells_is_running_max(u0, upr, w, h, border, abs, rel, g0, (n - 1) as nat);
        let prev = run_model(u0, upr, w, h, border, abs, rel, g0, (n - 1) as nat);
        assert(run_model(u0, upr, w, h, border, abs, rel, g0, n) == run_model_step(
            prev,
            upr,
            w,
            h,
            border,
            abs,
            rel,
            g0 + n,
        ));
    }
}

/// One as an integer when a cell is alive, zero otherwise.
pub open spec fn alive_as_int(b: bool) -> int {
    if b {
        1
    } else {
        0
    }
}

/// Bit `k` of a prepared chunk — spillover restored, border synthesized
/// under either policy — equals bit `k` of the raw chunk, for interior
/// rows and the bit positions that carry cells away from the halo and
/// spillover slots.
proof fn lemma_prepared_bit(
    u0: Seq<u64>,
    upr: int,
    w: int,
    h: int,
    border: GridBorder,
    r: int,
    q: int,
    k: u64,
)
    requires
        u0.len() == (h + 2) * upr,
        upr == (w + 63) / 63,
        3 <= w <= 63000,
        1 <= h,
        w % 63 != 62,
        1 <= r <= h,
        0 <= q < upr,
        1 <= k <= 62,
        q == upr - 1 ==> k <= (w % 63) as u64,
    ensures
        ((crate::life::bordered(crate::life::restored_units(u0, upr, h), upr, w, h, border)[r * upr
            + q] >> k) & 1) == ((u0[r * upr + q] >> k) & 1),
{
    assert((forall|v: u64, b: u64, kk: u64|
        (kk >= 1 && b <= 1) ==> #[trigger] (((v | b) >> kk) & 1) == ((v >> kk) & 1)) && (forall|
        v: u64,
        rp: u64,
        kk: u64,
    |
        (rp < 64 && kk < 64 && kk != rp) ==> #[trigger] (((v & !(1u64 << rp)) >> kk) & 1) == ((v
            >> kk) & 1)) && (forall|v: u64, b: u64, rp: u64, kk: u64|
        (rp < 64 && kk < 64 && kk != rp && b <= 1) ==> #[trigger] (((v | (b << rp)) >> kk) & 1) == (
        (v >> kk) & 1)) && (forall|v: u64, kk: u64|
        kk < 64 ==> (#[trigger] ((v >> kk) & 1)) <= 1) && (forall|v: u64| (#[trigger] (v & 1)) <= 1)
        && (forall|v: u64| #[trigger] (v & !1u64) == v & !(1u64 << 0))) by (bit_vector);
    assert(upr >= 1 && upr <= 1001) by (nonlinear_arith)
        requires
            upr == (w + 63) / 63,
            3 <= w <= 63000,
    ;
    let i = r * upr + q;
    crate::life::lemma_row_col(upr, r, q);
    assert(upr <= i && i + 1 <= (h + 1) * upr && upr * (h + 1) == (h + 1) * upr && (h + 1) * upr
        < (h + 2) * upr && upr <= r * upr && r * upr + upr <= (h + 1) * upr) by (nonlinear_arith)
        requires
            1 <= r <= h,
            0 <= q < upr,
            upr >= 1,
            i == r * upr + q,
    ;
    let ur = crate::life::restored_units(u0, upr, h);
    assert(ur[i] == crate::life::restored_unit(u0, i));
    let v = u0[i];
    let vmid = v & !(1u64 << 63);
    assert(ur[i] == vmid | ((u0[i + 1] & 1) << 63));
    assert((vmid >> k) & 1 == (v >> k) & 1);
    assert((u0[i + 1] & 1) <= 1);
    assert((ur[i] >> k) & 1 == (vmid >> k) & 1);
    let rpos = (((w + 1) % 63)) as u64;
    let spos = ((w % 63)) as u64;
    assert((w + 1) % 63 == w % 63 + 1) by (nonlinear_arith)
        requires
            w >= 3,
            w % 63 != 62,
    ;
    let base = crate::life::bordered(ur, upr, w, h, border);
    match border {
        GridBorder::Zeroes => {
            assert(base[i] == crate::life::zeroes_bordered_unit(ur, upr, w, h, i));
            let v1 = if q == 0 {
                ur[i] & !1u64
            } else {
                ur[i]
            };
            assert((v1 >> k) & 1 == (ur[i] >> k) & 1);
            if q == upr - 1 {
                assert(base[i] == v1 & !(1u64 << rpos));
                assert(k != rpos);
                assert((base[i] >> k) & 1 == (v1 >> k) & 1);
            } else {
                assert(base[i] == v1);
            }
        },
        GridBorder::Wrapped => {
            let ws = crate::life::wrap_sides(ur, upr, w, h);
            assert(base[i] == ws[i]);
            assert(ws[i] == crate::life::wrap_sides_unit(ur, upr, w, i));
            if upr == 1 {
                let vri = ur[i];
                let v0 = vri & !1u64 & !(1u64 << rpos);
                let v1 = v0 | ((v0 >> spos) & 1);
                let v2 = v1 | (((v1 >> 1) & 1) << rpos);
                assert(ws[i] == v2);
                assert(k != rpos);
                assert(v0 == (vri & !(1u64 << rpos)) & !(1u64 << 0)) by (bit_vector)
                    requires
                        v0 == vri & !1u64 & !(1u64 << rpos),
                ;
                assert(((vri & !(1u64 << rpos)) >> k) & 1 == (vri >> k) & 1);
                assert((v0 >> k) & 1 == ((vri & !(1u64 << rpos)) >> k) & 1);
                assert(((v0 >> spos) & 1) <= 1);
                assert((v1 >> k) & 1 == (v0 >> k) & 1);
                assert(((v1 >> 1) & 1) <= 1);
                assert((v2 >> k) & 1 == (v1 >> k) & 1);
            } else if q == 0 {
                let vri = ur[i];
                assert(ws[i] == (vri & !1u64) | ((ur[i + upr - 1] >> spos) & 1));
                assert(((ur[i + upr - 1] >> spos) & 1) <= 1);
                assert(((vri & !1u64) >> k) & 1 == (vri >> k) & 1);
                assert((ws[i] >> k) & 1 == ((vri & !1u64) >> k) & 1);
            } else if q == upr - 1 {
                let vri = ur[i];
                assert(ws[i] == (vri & !(1u64 << rpos)) | (((ur[i - (upr - 1)] >> 1) & 1)
                    << rpos));
                assert(k != rpos);
                assert(((ur[i - (upr - 1)] >> 1) & 1) <= 1);
                assert(((vri & !(1u64 << rpos)) >> k) & 1 == (vri >> k) & 1);
                assert((ws[i] >> k) & 1 == ((vri & !(1u64 << rpos)) >> k) & 1);
            } else {
                assert(ws[i] == ur[i]);
            }
        },
    }
}

/// After one `step`, a cell strictly inside the board whose three
/// columns share one storage chunk away from its halo and spillover
/// bits obeys the birth/survival rule: it is alive exactly when its
/// eight neighbours held three live cells, or two while it was alive
/// itself. (The chunk-boundary columns go through the carried sums and
/// the spillover slot instead, and the width alignment the masking
/// rules flag is excluded.)
pub proof fn lemma_step_cell_rule(g0: GameOfLife, g1: GameOfLife, x: int, y: int)
    requires
        g0.wf(),
        g1.bit_grid.units@ == gol_step(
            g0.bit_grid.units@,
            g0.units_per_row as int,
            g0.width as int,
            g0.height as int,
            g0.border,
        ),
        g1.bit_grid.units_per_row == g0.bit_grid.units_per_row,
        1 <= x && x + 1 < g0.width,
        1 <= y && y + 1 < g0.height,
        2 <= (x + 1) % 63 <= 61,
        g0.width % 63 != 62,
    ensures
        ({
            let n = alive_as_int(g0.spec_cell(x - 1, y - 1)) + alive_as_int(g0.spec_cell(x, y - 1))
                + alive_as_int(g0.spec_cell(x + 1, y - 1)) + alive_as_int(g0.spec_cell(x - 1, y))
                + alive_as_int(g0.spec_cell(x + 1, y)) + alive_as_int(g0.spec_cell(x - 1, y + 1))
                + alive_as_int(g0.spec_cell(x, y + 1)) + alive_as_int(g0.spec_cell(x + 1, y + 1));
            g1.spec_cell(x, y) == (n == 3 || (n == 2 && g0.spec_cell(x, y)))
        }),
{
    let upr = g0.units_per_row as int;
    let w = g0.width as int;
    let h = g0.height as int;
    let u0 = g0.bit_grid.units@;
    let ur = crate::life::restored_units(u0, upr, h);
    let base = crate::life::bordered(ur, upr, w, h, g0.border);
    let s1 = crate::life::stepped_units(base, upr, h);
    assert(g1.bit_grid.units@ == s1);
    assert(upr >= 1) by (nonlinear_arith)
        requires
            upr == (w + 63) / 63,
            w >= 3,
    ;
    let q = (x + 1) / 63;
    let j = ((x + 1) % 63) as u64;
    assert(x + 1 == 63 * q + j);
    assert(q < upr && 0 <= q) by (nonlinear_arith)
        requires
            0 <= x + 1 <= w,
            upr == (w + 63) / 63,
            q == (x + 1) / 63,
    ;
    assert(x / 63 == q && x % 63 == j - 1 && (x + 2) / 63 == q && (x + 2) % 63 == j + 1)
        by (nonlinear_arith)
        requires
            x + 1 == 63 * q + j,
            2 <= j <= 61,
            q >= 0,
    ;
    crate::life::lemma_gol_col_parts(x - 1);
    crate::life::lemma_gol_col_parts(x);
    crate::life::lemma_gol_col_parts(x + 1);
    assert(crate::life::gol_col(x - 1) == q * 64 + (j - 1));
    assert(crate::life::gol_col(x) == q * 64 + j);
    assert(crate::life::gol_col(x + 1) == q * 64 + (j + 1));
    assert((q * 64 + (j - 1)) / 64 == q && (q * 64 + (j - 1)) % 64 == j - 1 && (q * 64 + j) / 64
        == q && (q * 64 + j) % 64 == j && (q * 64 + (j + 1)) / 64 == q && (q * 64 + (j + 1)) % 64
        == j + 1) by (nonlinear_arith)
        requires
            2 <= j <= 61,
            q >= 0,
    ;
    let sy = y + 1;
    let ia = (sy - 1) * upr + q;
    let ic = sy * upr + q;
    let ib = (sy + 1) * upr + q;
    crate::life::lemma_row_col(upr, sy, q);
    assert(0 <= ia && ib < (h + 2) * upr && ia < ic && ic < ib) by (nonlinear_arith)
        requires
            1 <= sy - 1,
            sy + 1 <= h,
            0 <= q < upr,
            upr >= 1,
            ia == (sy - 1) * upr + q,
            ic == sy * upr + q,
            ib == (sy + 1) * upr + q,
    ;
    assert(s1[ic] == crate::life::stepped_unit(base, upr, sy, q));
    if q == upr - 1 {
        assert(j + 1 <= w % 63) by (nonlinear_arith)
            requires
                x + 2 <= w,
                x + 1 == 63 * q + j,
                q == upr - 1,
                upr == (w + 63) / 63,
                3 <= w <= 63000,
                2 <= j <= 61,
        ;
    }
    lemma_prepared_bit(u0, upr, w, h, g0.border, sy - 1, q, (j - 1) as u64);
    lemma_prepared_bit(u0, upr, w, h, g0.border, sy - 1, q, j);
    lemma_prepared_bit(u0, upr, w, h, g0.border, sy - 1, q, (j + 1) as u64);
    lemma_prepared_bit(u0, upr, w, h, g0.border, sy, q, (j - 1) as u64);
    lemma_prepared_bit(u0, upr, w, h, g0.border, sy, q, j);
    lemma_prepared_bit(u0, upr, w, h, g0.border, sy, q, (j + 1) as u64);
    lemma_prepared_bit(u0, upr, w, h, g0.border, sy + 1, q, (j - 1) as u64);
    lemma_prepared_bit(u0, upr, w, h, g0.border, sy + 1, q, j);
    lemma_prepared_bit(u0, upr, w, h, g0.border, sy + 1, q, (j + 1) as u64);
    let sp = if q == 0 {
        0u64
    } else {
        crate::life::spec_abc_sum(base[ia - 1], base[ic - 1], base[ib - 1])
    };
    let cp = if q == 0 {
        0u64
    } else {
        crate::life::spec_abc_car(base[ia - 1], base[ic - 1], base[ib - 1])
    };
    assert(s1[ic] == crate::life::next_unit(base[ia], base[ic], base[ib], sp, cp));
    lemma_next_unit_encodes_rule(base[ia], base[ic], base[ib], sp, cp, j);
    assert(forall|v: u64, kk: u64| kk < 64 ==> #[trigger] ((v >> kk) & 1) == 0 || ((v >> kk) & 1)
        == 1) by (bit_vector);
}

/// A word that is not all ones has at most `k - 1` set digits among its
/// low `k`.
proof fn lemma_pc_lt_full(x: nat, k: nat)
    requires
        x < pow2(k),
        x != pow2(k) - 1,
    ensures
        pc(x) <= k - 1,
        k >= 1,
    decreases k,
{
    vstd::arithmetic::power2::lemma_pow2_pos(k);
    vstd::arithmetic::power2::lemma2_to64();
    if k == 0 {
    } else {
        vstd::arithmetic::power2::lemma_pow2_unfold(k);
        vstd::arithmetic::power2::lemma_pow2_pos((k - 1) as nat);
        if k == 1 {
            assert(x == 0);
        } else {
            let half = x / 2;
            assert(half < pow2((k - 1) as nat)) by (nonlinear_arith)
                requires
                    x < 2 * pow2((k - 1) as nat),
                    half == x / 2,
            ;
            if half == pow2((k - 1) as nat) - 1 {
                assert(x == 2 * half || x == 2 * half + 1);
                assert(x == 2 * half);
                crate::bits::lemma_pc_two_m_plus_b(half, 0);
                crate::bits::lemma_pc_pow2_minus_1((k - 1) as nat);
            } else {
                lemma_pc_lt_full(half, (k - 1) as nat);
            }
        }
    }
}

/// The raw count a chunk of the zeroed border costs, at least: a border
/// row loses its whole word, an interior row loses one halo bit per
/// masked chunk (two when both land in the same chunk).
pub open spec fn zb_word_deficit(upr: int, h: int, i: int) -> nat {
    let r = i / upr;
    let c = i % upr;
    if r == 0 || r == h + 1 {
        64
    } else if upr == 1 {
        2
    } else if c == 0 || c == upr - 1 {
        1
    } else {
        0
    }
}

/// Total least cost of the zeroed border over the first `n` chunks.
pub open spec fn zb_deficit(upr: int, h: int, n: int) -> nat
    decreases n,
{
    if n <= 0 {
        0
    } else {
        zb_deficit(upr, h, n - 1) + zb_word_deficit(upr, h, n - 1)
    }
}

/// The raw count of an all-ones storage drops by at least the total
/// least cost under the zeroed border synthesis.
proof fn lemma_zb_drop_partial(u: Seq<u64>, upr: int, w: int, h: int, n: int)
    requires
        u.len() == (h + 2) * upr,
        upr == (w + 63) / 63,
        3 <= w <= 63000,
        1 <= h,
        w % 63 != 62,
        0 <= n <= u.len(),
        forall|i: int| 0 <= i < u.len() ==> #[trigger] u[i] == !0u64,
    ensures
        sum_pc(zeroes_bordered(u, upr, w, h).take(n)) + zb_deficit(upr, h, n) <= sum_pc(u.take(n)),
        sum_pc(u.take(n)) == 64 * n,
    decreases n,
{
    vstd::arithmetic::power2::lemma2_to64_rest();
    assert(upr >= 1) by (nonlinear_arith)
        requires
            upr == (w + 63) / 63,
            w >= 3,
    ;
    let zb = zeroes_bordered(u, upr, w, h);
    if n > 0 {
        lemma_zb_drop_partial(u, upr, w, h, n - 1);
        assert(u.take(n).drop_last() =~= u.take(n - 1));
        assert(zb.take(n).drop_last() =~= zb.take(n - 1));
        crate::bits::lemma_pc_pow2_minus_1(64);
        assert(!0u64 == 0xFFFFFFFFFFFFFFFFu64) by (bit_vector);
        assert(!0u64 as nat == (pow2(64) - 1) as nat);
        assert(pc(u[n - 1] as nat) == 64);
        let i = n - 1;
        let rr = i / upr;
        let cc = i % upr;
        vstd::arithmetic::div_mod::lemma_fundamental_div_mod(i, upr);
        assert(0 <= cc < upr && 0 <= rr < h + 2 && i == rr * upr + cc) by (nonlinear_arith)
            requires
                upr >= 1,
                0 <= i < (h + 2) * upr,
                rr == i / upr,
                cc == i % upr,
                i == upr * rr + cc,
        ;
        crate::life::lemma_row_col(upr, rr, cc);
        assert(zb[i] == zeroes_bordered_unit(u, upr, w, h, i));
        let q = (((w + 1) % 63)) as u64;
        assert(1 <= q <= 62) by {
            assert(w % 63 != 62 && w % 63 != 63);
        }
        if rr == 0 || rr == h + 1 {
            assert(zb[i] == 0u64);
            assert(pc(0) == 0);
        } else if upr == 1 {
            let v = (!0u64 & !1u64) & !(1u64 << q);
            assert(zb[i] == v);
            assert(v % 2 == 0 && v >> 1 == v / 2 && (v >> 1) != 0x7FFFFFFFFFFFFFFFu64 && (v
                >> 1) < 0x8000000000000000u64) by (bit_vector)
                requires
                    v == (!0u64 & !1u64) & !(1u64 << q),
                    1 <= q <= 62,
            ;
            assert(pc(v as nat) == pc((v as nat) / 2)) by {
                crate::bits::lemma_pc_two_m_plus_b((v as nat) / 2, 0);
            }
            assert(pow2(63) == 0x8000000000000000);
            lemma_pc_lt_full((v as nat) / 2, 63);
        } else if cc == 0 {
            let v = !0u64 & !1u64;
            assert(zb[i] == v);
            assert(v < 0xFFFFFFFFFFFFFFFFu64) by (bit_vector)
                requires
                    v == !0u64 & !1u64,
            ;
            assert(pow2(64) == 0x10000000000000000);
            lemma_pc_lt_full(v as nat, 64);
        } else if cc == upr - 1 {
            let v = !0u64 & !(1u64 << q);
            assert(zb[i] == v);
            assert(v < 0xFFFFFFFFFFFFFFFFu64) by (bit_vector)
                requires
                    v == !0u64 & !(1u64 << q),
                    1 <= q <= 62,
            ;
            assert(pow2(64) == 0x10000000000000000);
            lemma_pc_lt_full(v as nat, 64);
        } else {
            assert(zb[i] == u[i]);
        }
    }
}

/// The least cost of one interior row's chunks `0 .. c`.
proof fn lemma_zb_deficit_row(upr: int, h: int, r: int, c: int)
    requires
        upr >= 1,
        1 <= r <= h,
        0 <= c <= upr,
    ensures
        zb_deficit(upr, h, r * upr + c) == zb_deficit(upr, h, r * upr) + (if upr == 1 {
            if c >= 1 {
                2int
            } else {
                0int
            }
        } else {
            (if c >= 1 {
                1int
            } else {
                0int
            }) + (if c >= upr {
                1int
            } else {
                0int
            })
        }),
    decreases c,
{
    if c > 0 {
        lemma_zb_deficit_row(upr, h, r, c - 1);
        let i = r * upr + (c - 1);
        crate::life::lemma_row_col(upr, r, c - 1);
        assert(zb_deficit(upr, h, r * upr + c) == zb_deficit(upr, h, i) + zb_word_deficit(
            upr,
            h,
            i,
        ));
        assert(r * upr + c == i + 1);
    }
}

/// The least cost of one border row's chunks `0 .. c`.
proof fn lemma_zb_deficit_border_row(upr: int, h: int, r: int, c: int)
    requires
        upr >= 1,
        r == 0 || r == h + 1,
        r >= 0,
        0 <= c <= upr,
        h >= 1,
    ensures
        zb_deficit(upr, h, r * upr + c) == zb_deficit(upr, h, r * upr) + 64 * c,
    decreases c,
{
    if c > 0 {
        lemma_zb_deficit_border_row(upr, h, r, c - 1);
        let i = r * upr + (c - 1);
        crate::life::lemma_row_col(upr, r, c - 1);
        assert(r * upr + c == i + 1);
    }
}

/// The least cost of the whole synthesis: both border rows and two halo
/// bits per interior row.
proof fn lemma_zb_deficit_total(upr: int, w: int, h: int, r: int)
    requires
        upr >= 1,
        1 <= h,
        0 <= r <= h + 2,
    ensures
        zb_deficit(upr, h, r * upr) == (if r == 0 {
            0int
        } else if r <= h + 1 {
            64 * upr + 2 * (r - 1)
        } else {
            128 * upr + 2 * h
        }),
    decreases r,
{
    if r > 0 {
        lemma_zb_deficit_total(upr, w, h, r - 1);
        if r - 1 == 0 || r - 1 == h + 1 {
            lemma_zb_deficit_border_row(upr, h, r - 1, upr);
        } else {
            lemma_zb_deficit_row(upr, h, r - 1, upr);
        }
        assert((r - 1) * upr + upr == r * upr) by (nonlinear_arith);
    }
}

/// On an all-ones board (away from the chunk alignment noted in the
/// masking rules), the zeroed border synthesis lowers the raw count by
/// at least twice the perimeter: `2 * (w + h) + 4`.
pub proof fn lemma_zeroes_border_drops_raw_count(u: Seq<u64>, upr: int, w: int, h: int)
    requires
        u.len() == (h + 2) * upr,
        upr == (w + 63) / 63,
        3 <= w <= 63000,
        1 <= h,
        w % 63 != 62,
        forall|i: int| 0 <= i < u.len() ==> #[trigger] u[i] == !0u64,
    ensures
        sum_pc(zeroes_bordered(u, upr, w, h)) + 2 * (w + h) + 4 <= sum_pc(u),
{
    let n = u.len() as int;
    assert(upr >= 1) by (nonlinear_arith)
        requires
            upr == (w + 63) / 63,
            w >= 3,
    ;
    lemma_zb_drop_partial(u, upr, w, h, n);
    assert(u.take(n) =~= u);
    assert(zeroes_bordered(u, upr, w, h).take(n) =~= zeroes_bordered(u, upr, w, h));
    lemma_zb_deficit_total(upr, w, h, h + 2);
    assert((h + 2) * upr == n);
    assert(64 * upr >= w + 2) by (nonlinear_arith)
        requires
            upr == (w + 63) / 63,
            3 <= w <= 63000,
    ;
    assert(128 * upr + 2 * h >= 2 * (w + h) + 4);
}

} // verus!
