//! A rectangular grid of boolean cells, bit-packed row-major into 64-bit
//! words, with single-cell access and whole-storage operations.

use vstd::prelude::*;

verus! {

/// Bits per storage word.
pub const BITS_PER_UNIT: usize = 64;

pub struct BitGrid {
    pub width: usize,
    pub height: usize,
    pub units_per_row: usize,
    pub units: Vec<u64>,
}

impl BitGrid {
    /// Storage shape: one row of `units_per_row` words per grid row,
    /// sized to hold `width` bits, with dimensions small enough that
    /// every address computation fits the machine.
    pub open spec fn wf(&self) -> bool {
        &&& self.units_per_row == (self.width + 63) / 64
        &&& self.units@.len() == self.height * self.units_per_row
        &&& self.width <= 65535
        &&& self.height <= 65535
    }

    /// The stored bit at storage column `x` (which may lie in the padding
    /// beyond `width`) of row `y`.
    pub open spec fn spec_bit(&self, x: int, y: int) -> bool {
        (self.units@[y * self.units_per_row + x / 64] >> ((x % 64) as u64)) & 1 == 1
    }

    pub fn new(width: usize, height: usize) -> (r: BitGrid)
        requires
            width <= 65535,
            height <= 65535,
        ensures
            r.wf(),
            r.width == width,
            r.height == height,
            forall|i: int| 0 <= i < r.units@.len() ==> r.units@[i] == 0,
    {
        let extra_bits = width % BITS_PER_UNIT;
        let bits_per_row = if extra_bits > 0 {
            width + BITS_PER_UNIT - extra_bits
        } else {
            width
        };
        let units_per_row = bits_per_row / BITS_PER_UNIT;
        assert(units_per_row == (width + 63) / 64);
        proof {
            assert(height * units_per_row <= 65535 * 1024) by (nonlinear_arith)
                requires
                    height <= 65535,
                    units_per_row <= 1024,
            ;
        }
        BitGrid { width, height, units_per_row, units: vec![0u64; height * units_per_row] }
    }

    fn unit_index(&self, x: usize, y: usize) -> (r: usize)
        requires
            self.wf(),
            x < self.units_per_row * 64,
            y < self.height,
        ensures
            r == y * self.units_per_row + x / 64,
            r < self.units@.len(),
    {
        proof {
            assert(x / 64 < self.units_per_row) by (nonlinear_arith)
                requires
                    x < self.units_per_row * 64,
            ;
            assert(y * self.units_per_row + x / 64 < self.height * self.units_per_row)
                by (nonlinear_arith)
                requires
                    y < self.height,
                    x / 64 < self.units_per_row,
            ;
            assert(self.height * self.units_per_row <= 65535 * 1024) by (nonlinear_arith)
                requires
                    self.height <= 65535,
                    self.units_per_row <= 1024,
            ;
            assert(self.units_per_row * y + x / 64 <= 65535 * 1024 && self.units_per_row * y == y
                * self.units_per_row) by (nonlinear_arith)
                requires
                    y < self.height,
                    self.height <= 65535,
                    self.units_per_row <= 1024,
                    x / 64 < self.units_per_row,
            ;
        }
        (x / BITS_PER_UNIT) + self.units_per_row * y
    }

    pub fn width(&self) -> (r: usize)
        ensures
            r == self.width,
    {
        self.width
    }

    pub fn height(&self) -> (r: usize)
        ensures
            r == self.height,
    {
        self.height
    }

    pub fn get(&self, x: usize, y: usize) -> (r: bool)
        requires
            self.wf(),
            x < self.width,
            y < self.height,
        ensures
            r == self.spec_bit(x as int, y as int),
    {
        proof {
            lemma_width_le_storage(self.width as int, self.units_per_row as int);
        }
        let unit = self.units[self.unit_index(x, y)];
        ((unit >> ((x % BITS_PER_UNIT) as u64)) & 1) == 1
    }

    pub fn clear(&mut self, x: usize, y: usize)
        requires
            old(self).wf(),
            x < old(self).width,
            y < old(self).height,
        ensures
            final(self).wf(),
            final(self).width == old(self).width,
            final(self).height == old(self).height,
            final(self).units_per_row == old(self).units_per_row,
            final(self).units@.len() == old(self).units@.len(),
            forall|xx: int, yy: int|
                0 <= xx < final(self).units_per_row * 64 && 0 <= yy < final(self).height
                    ==> #[trigger] final(self).spec_bit(xx, yy) == if xx == x as int && yy
                    == y as int {
                    false
                } else {
                    old(self).spec_bit(xx, yy)
                },
    {
        proof {
            lemma_width_le_storage(self.width as int, self.units_per_row as int);
        }
        let index = self.unit_index(x, y);
        let bitpos = (x % BITS_PER_UNIT) as u64;
        let w = self.units[index];
        let nw = w & !(1u64 << bitpos);
        self.units[index] = nw;
        proof {
            assert((forall|b2: u64|
                b2 < 64 && b2 != bitpos ==> #[trigger] ((nw >> b2) & 1) == ((w >> b2) & 1)) && ((nw
                >> bitpos) & 1) == 0) by (bit_vector)
                requires
                    nw == w & !(1u64 << bitpos),
                    bitpos < 64,
            ;
            lemma_single_bit_update(*old(self), *self, x as int, y as int, index as int);
        }
    }

    pub fn set(&mut self, x: usize, y: usize)
        requires
            old(self).wf(),
            x < old(self).width,
            y < old(self).height,
        ensures
            final(self).wf(),
            final(self).width == old(self).width,
            final(self).height == old(self).height,
            final(self).units_per_row == old(self).units_per_row,
            final(self).units@.len() == old(self).units@.len(),
            forall|xx: int, yy: int|
                0 <= xx < final(self).units_per_row * 64 && 0 <= yy < final(self).height
                    ==> #[trigger] final(self).spec_bit(xx, yy) == if xx == x as int && yy
                    == y as int {
                    true
                } else {
                    old(self).spec_bit(xx, yy)
                },
    {
        proof {
            lemma_width_le_storage(self.width as int, self.units_per_row as int);
        }
        let index = self.unit_index(x, y);
        let bitpos = (x % BITS_PER_UNIT) as u64;
        let w = self.units[index];
        let nw = w | (1u64 << bitpos);
        self.units[index] = nw;
        proof {
            assert((forall|b2: u64|
                b2 < 64 && b2 != bitpos ==> #[trigger] ((nw >> b2) & 1) == ((w >> b2) & 1)) && ((nw
                >> bitpos) & 1) == 1) by (bit_vector)
                requires
                    nw == w | (1u64 << bitpos),
                    bitpos < 64,
            ;
            lemma_single_bit_update(*old(self), *self, x as int, y as int, index as int);
        }
    }

    pub fn reset(&mut self)
        requires
            old(self).wf(),
        ensures
            final(self).wf(),
            final(self).width == old(self).width,
            final(self).height == old(self).height,
            final(self).units_per_row == old(self).units_per_row,
            final(self).units@.len() == old(self).units@.len(),
            forall|i: int| 0 <= i < final(self).units@.len() ==> final(self).units@[i] == 0,
    {
        let n = self.units.len();
        let mut i: usize = 0;
        while i < n
            invariant
                n == self.units@.len(),
                i <= n,
                self.width == old(self).width,
                self.height == old(self).height,
                self.units_per_row == old(self).units_per_row,
                self.wf(),
                forall|j: int| 0 <= j < i ==> self.units@[j] == 0,
            decreases n - i,
        {
            self.units[i] = 0;
            i += 1;
        }
    }

    pub fn toggle_all(&mut self)
        requires
            old(self).wf(),
        ensures
            final(self).wf(),
            final(self).width == old(self).width,
            final(self).height == old(self).height,
            final(self).units_per_row == old(self).units_per_row,
            final(self).units@.len() == old(self).units@.len(),
            forall|i: int|
                0 <= i < final(self).units@.len() ==> final(self).units@[i] == !old(self).units@[i],
    {
        let n = self.units.len();
        let mut i: usize = 0;
        while i < n
            invariant
                n == self.units@.len(),
                i <= n,
                self.width == old(self).width,
                self.height == old(self).height,
                self.units_per_row == old(self).units_per_row,
                self.wf(),
                forall|j: int| 0 <= j < i ==> self.units@[j] == !old(self).units@[j],
                forall|j: int| i <= j < n ==> self.units@[j] == old(self).units@[j],
            decreases n - i,
        {
            let w = self.units[i];
            self.units[i] = !w;
            i += 1;
        }
    }

    /// Bitwise union of `other`'s storage into this grid.
    pub fn or(&mut self, other: &BitGrid)
        requires
            old(self).wf(),
            other.wf(),
            old(self).width == other.width,
            old(self).height == other.height,
        ensures
            final(self).wf(),
            final(self).width == old(self).width,
            final(self).height == old(self).height,
            final(self).units_per_row == old(self).units_per_row,
            final(self).units@.len() == old(self).units@.len(),
            forall|i: int|
                0 <= i < final(self).units@.len() ==> final(self).units@[i] == (old(self).units@[i]
                    | other.units@[i]),
    {
        let n = self.units.len();
        let mut i: usize = 0;
        while i < n
            invariant
                n == self.units@.len(),
                other.units@.len() == n,
                i <= n,
                self.width == old(self).width,
                self.height == old(self).height,
                self.units_per_row == old(self).units_per_row,
                self.wf(),
                forall|j: int|
                    0 <= j < i ==> self.units@[j] == (old(self).units@[j] | other.units@[j]),
                forall|j: int| i <= j < n ==> self.units@[j] == old(self).units@[j],
            decreases n - i,
        {
            let w = self.units[i];
            self.units[i] = w | other.units[i];
            i += 1;
        }
    }

    /// Value equality over dimensions and all storage bits, padding included.
    pub fn equals(&self, other: &BitGrid) -> (r: bool)
        requires
            self.wf(),
            other.wf(),
        ensures
            r == (self.width == other.width && self.height == other.height && self.units@
                =~= other.units@),
    {
        if self.width != other.width || self.height != other.height {
            return false;
        }
        let n = self.units.len();
        let mut i: usize = 0;
        while i < n
            invariant
                n == self.units@.len(),
                other.units@.len() == n,
                i <= n,
                forall|j: int| 0 <= j < i ==> self.units@[j] == other.units@[j],
            decreases n - i,
        {
            if self.units[i] != other.units[i] {
                return false;
            }
            i += 1;
        }
        true
    }
}

impl Clone for BitGrid {
    fn clone(&self) -> (r: BitGrid)
        ensures
            r.width == self.width,
            r.height == self.height,
            r.units_per_row == self.units_per_row,
            r.units@ =~= self.units@,
    {
        let n = self.units.len();
        let mut units: Vec<u64> = Vec::with_capacity(n);
        let mut i: usize = 0;
        while i < n
            invariant
                n == self.units@.len(),
                i <= n,
                units@.len() == i,
                forall|j: int| 0 <= j < i ==> units@[j] == self.units@[j],
            decreases n - i,
        {
            units.push(self.units[i]);
            i += 1;
        }
        BitGrid { width: self.width, height: self.height, units_per_row: self.units_per_row, units }
    }
}

/// All `width` cell columns lie inside the `units_per_row * 64` storage columns.
proof fn lemma_width_le_storage(width: int, upr: int)
    requires
        upr == (width + 63) / 64,
        width >= 0,
    ensures
        width <= upr * 64,
{
    assert(width <= ((width + 63) / 64) * 64) by (nonlinear_arith)
        requires
            width >= 0,
    ;
}

/// Distinct in-range storage coordinates have distinct word/bit addresses.
proof fn lemma_addr_inj(upr: int, x1: int, y1: int, x2: int, y2: int)
    requires
        upr > 0,
        0 <= x1 < upr * 64,
        0 <= x2 < upr * 64,
        y1 >= 0,
        y2 >= 0,
        y1 * upr + x1 / 64 == y2 * upr + x2 / 64,
        x1 % 64 == x2 % 64,
    ensures
        x1 == x2 && y1 == y2,
{
    assert(x1 / 64 < upr && x2 / 64 < upr) by (nonlinear_arith)
        requires
            0 <= x1 < upr * 64,
            0 <= x2 < upr * 64,
    ;
    assert(y1 == y2 && x1 / 64 == x2 / 64) by (nonlinear_arith)
        requires
            upr > 0,
            0 <= x1 / 64 < upr,
            0 <= x2 / 64 < upr,
            y1 >= 0,
            y2 >= 0,
            y1 * upr + x1 / 64 == y2 * upr + x2 / 64,
    ;
    assert(x1 == 64 * (x1 / 64) + x1 % 64);
    assert(x2 == 64 * (x2 / 64) + x2 % 64);
}

/// A one-word update that only flips bit `x % 64` changes exactly the
/// storage bit at `(x, y)`.
proof fn lemma_single_bit_update(pre: BitGrid, post: BitGrid, x: int, y: int, index: int)
    requires
        pre.wf(),
        0 <= x < pre.width,
        0 <= y < pre.height,
        post.width == pre.width,
        post.height == pre.height,
        post.units_per_row == pre.units_per_row,
        post.units@.len() == pre.units@.len(),
        index == y * pre.units_per_row + x / 64,
        0 <= index < pre.units@.len(),
        post.units@ == pre.units@.update(index, post.units@[index]),
        forall|b2: u64|
            b2 < 64 && b2 != (x % 64) as u64 ==> #[trigger] ((post.units@[index] >> b2) & 1) == ((
            pre.units@[index] >> b2) & 1),
    ensures
        forall|xx: int, yy: int|
            0 <= xx < post.units_per_row * 64 && 0 <= yy < post.height && !(xx == x && yy == y)
                ==> #[trigger] post.spec_bit(xx, yy) == pre.spec_bit(xx, yy),
{
    lemma_width_le_storage(pre.width as int, pre.units_per_row as int);
    assert forall|xx: int, yy: int|
        0 <= xx < post.units_per_row * 64 && 0 <= yy < post.height && !(xx == x && yy
            == y) implies #[trigger] post.spec_bit(xx, yy) == pre.spec_bit(xx, yy) by {
        let idx2 = yy * post.units_per_row as int + xx / 64;
        assert(xx / 64 < post.units_per_row) by (nonlinear_arith)
            requires
                0 <= xx < post.units_per_row * 64,
        ;
        assert(0 <= idx2 < post.units@.len()) by (nonlinear_arith)
            requires
                idx2 == yy * post.units_per_row + xx / 64,
                0 <= yy < post.height,
                0 <= xx / 64 < post.units_per_row,
                post.units@.len() == post.height * post.units_per_row,
        ;
        if idx2 == index {
            if xx % 64 == x % 64 {
                lemma_width_le_storage(pre.width as int, pre.units_per_row as int);
                lemma_addr_inj(post.units_per_row as int, xx, yy, x, y);
                assert(false);
            } else {
                let b2 = (xx % 64) as u64;
                assert(b2 < 64 && b2 != (x % 64) as u64);
                assert(((post.units@[index] >> b2) & 1) == ((pre.units@[index] >> b2) & 1));
            }
        }
    }
}

} // verus!
