//! Decoding chromosomes into seed grids: the direct one-bit-per-cell
//! encoding, and the redundant "neutral" encoding with group values,
//! group swaps, and per-cell majority or group lookup.

use vstd::prelude::*;
use vstd::arithmetic::power2::pow2;
use crate::grid::BitGrid;
use crate::chromosome::BinaryChromosome;
use crate::ea::{Genotype, Phenotype, Expressor};

verus! {

/// Side of the square seed patch.
pub const SEED_PATCH_SIZE: usize = 8;

/// Number of cells of the seed patch.
pub const TOTAL_SEED_CELLS: usize = 64;

impl Genotype for BinaryChromosome {

}

/// An expressed seed: a bit grid the evaluator paints onto the board.
pub struct MyPhenotype {
    pub bit_grid: BitGrid,
}

impl Phenotype for MyPhenotype {

}

impl MyPhenotype {
    /// An expressed seed patch: an exactly shaped, padding-free grid.
    pub open spec fn wf(&self) -> bool {
        &&& self.bit_grid.wf()
        &&& self.bit_grid.width == 8
        &&& self.bit_grid.height == 8
        &&& forall|x: int, y: int|
            8 <= x < 64 && 0 <= y < 8 ==> !(#[trigger] self.bit_grid.spec_bit(x, y))
    }

    /// The seed pattern two phenotypes are compared by.
    pub open spec fn pattern(&self) -> Seq<u64> {
        self.bit_grid.units@
    }

    /// Value equality over the seed bit pattern.
    pub fn same_pattern(&self, other: &MyPhenotype) -> (r: bool)
        requires
            self.wf(),
            other.wf(),
        ensures
            r == (self.pattern() =~= other.pattern()),
    {
        self.bit_grid.equals(&other.bit_grid)
    }
}

/// Direct encoding: bit `x * 8 + y` of the genotype is cell `(x, y)`.
#[derive(Debug)]
pub struct MySimpleExpressor {

}

/// The cell the direct encoding gives at `(x, y)`.
pub open spec fn simple_cell(bits: Seq<bool>, x: int, y: int) -> bool {
    bits[x * 8 + y]
}

impl MySimpleExpressor {
    #[verifier::loop_isolation(false)]
    pub fn express_seed(&self, genotype: &BinaryChromosome) -> (r: MyPhenotype)
        requires
            genotype@.len() >= 64,
        ensures
            r.wf(),
            forall|x: int, y: int|
                0 <= x < 8 && 0 <= y < 8 ==> #[trigger] r.bit_grid.spec_bit(x, y) == simple_cell(
                    genotype@,
                    x,
                    y,
                ),
    {
        let mut bit_grid = BitGrid::new(SEED_PATCH_SIZE, SEED_PATCH_SIZE);
        proof {
            lemma_seed_grid_shape(&bit_grid);
        }
        let mut index: usize = 0;
        let mut x: usize = 0;
        while x < SEED_PATCH_SIZE
            invariant
                x <= 8,
                index == x * 8,
                bit_grid.wf(),
                bit_grid.width == 8,
                bit_grid.height == 8,
                bit_grid.units_per_row == 1,
                bit_grid.units@.len() == 8,
                forall|xx: int, yy: int|
                    0 <= xx < 64 && 0 <= yy < 8 && xx >= x ==> !(#[trigger] bit_grid.spec_bit(
                        xx,
                        yy,
                    )),
                forall|xx: int, yy: int|
                    0 <= xx < x && 0 <= yy < 8 ==> #[trigger] bit_grid.spec_bit(xx, yy)
                        == simple_cell(genotype@, xx, yy),
            decreases 8 - x,
        {
            let mut y: usize = 0;
            while y < SEED_PATCH_SIZE
                invariant
                    x < 8,
                    y <= 8,
                    index == x * 8 + y,
                    bit_grid.wf(),
                    bit_grid.width == 8,
                    bit_grid.height == 8,
                    bit_grid.units_per_row == 1,
                    bit_grid.units@.len() == 8,
                    forall|xx: int, yy: int|
                        0 <= xx < 64 && 0 <= yy < 8 && (xx > x || (xx == x && yy >= y)) ==> !(
                        #[trigger] bit_grid.spec_bit(xx, yy)),
                    forall|xx: int, yy: int|
                        0 <= xx < 8 && 0 <= yy < 8 && (xx < x || (xx == x && yy < y))
                            ==> #[trigger] bit_grid.spec_bit(xx, yy) == simple_cell(
                            genotype@,
                            xx,
                            yy,
                        ),
                decreases 8 - y,
            {
                if genotype.get_bit(index) {
                    bit_grid.set(x, y);
                }
                index += 1;
                y += 1;
            }
            x += 1;
        }
        MyPhenotype { bit_grid }
    }
}

impl Expressor<BinaryChromosome, MyPhenotype> for MySimpleExpressor {
    open spec fn fits(&self, genotype: &BinaryChromosome) -> bool {
        genotype@.len() >= 64
    }

    fn express(&mut self, genotype: &BinaryChromosome) -> (r: MyPhenotype)
        ensures
            r.wf(),
            forall|x: int, y: int|
                0 <= x < 8 && 0 <= y < 8 ==> #[trigger] r.bit_grid.spec_bit(x, y) == simple_cell(
                    genotype@,
                    x,
                    y,
                ),
    {
        self.express_seed(genotype)
    }
}

/// A freshly allocated seed patch has the fixed shape.
proof fn lemma_seed_grid_shape(g: &BitGrid)
    requires
        g.wf(),
        g.width == 8,
        g.height == 8,
        forall|i: int| 0 <= i < g.units@.len() ==> g.units@[i] == 0,
    ensures
        g.units_per_row == 1,
        g.units@.len() == 8,
        forall|x: int, y: int| 0 <= x < 64 && 0 <= y < 8 ==> !(#[trigger] g.spec_bit(x, y)),
{
    assert forall|x: int, y: int| 0 <= x < 64 && 0 <= y < 8 implies !(#[trigger] g.spec_bit(
        x,
        y,
    )) by {
        assert(y * 1 + x / 64 == y && 0 <= y < 8);
        let v = g.units@[y];
        assert(v == 0);
        let b = (x % 64) as u64;
        assert((0u64 >> b) & 1 == 0) by (bit_vector);
    }
}

/// The group values after the initial read, with each flagged pair of
/// neighbouring groups swapped in turn.
pub open spec fn swapped_groups(vals: Seq<bool>, swaps: Seq<bool>, i: int) -> Seq<bool>
    decreases i,
{
    if i <= 0 {
        vals
    } else {
        let prev = swapped_groups(vals, swaps, i - 1);
        if swaps[i - 1] {
            let ng = vals.len() as int;
            let j = i % ng;
            prev.update(i - 1, prev[j]).update(j, prev[i - 1])
        } else {
            prev
        }
    }
}

/// Number of set bits among genotype offsets `base + 1 ..= base + n`.
pub open spec fn votes_from(bits: Seq<bool>, base: int, n: int) -> nat
    decreases n,
{
    if n <= 0 {
        0
    } else {
        votes_from(bits, base, n - 1) + (if bits[base + n] {
            1nat
        } else {
            0nat
        })
    }
}

/// The unsigned number read from `cnt` genotype bits starting at offset
/// `base + n`, low bit first.
pub open spec fn group_index_sfx(bits: Seq<bool>, base: int, n: int, cnt: nat) -> nat
    decreases cnt,
{
    if cnt == 0 {
        0
    } else {
        2 * group_index_sfx(bits, base, n + 1, (cnt - 1) as nat) + (if bits[base + n] {
            1nat
        } else {
            0nat
        })
    }
}

/// The number read from `cnt` bits stays below `2^cnt`.
pub proof fn lemma_group_index_bound(bits: Seq<bool>, base: int, n: int, cnt: nat)
    ensures
        group_index_sfx(bits, base, n, cnt) < pow2(cnt),
    decreases cnt,
{
    vstd::arithmetic::power2::lemma_pow2_pos(cnt);
    if cnt == 0 {
        vstd::arithmetic::power2::lemma2_to64();
    } else {
        lemma_group_index_bound(bits, base, n + 1, (cnt - 1) as nat);
        vstd::arithmetic::power2::lemma_pow2_unfold(cnt);
    }
}

/// The cell the neutral encoding gives at patch index `ci`: read the
/// selector bit of the cell's `bpc` bits; on one, take the majority of
/// the rest; on zero, read them as a group index and take that group's
/// value.
pub open spec fn neutral_cell(bits: Seq<bool>, bpc: int, ci: int) -> bool {
    let ng = pow2((bpc - 1) as nat) as int;
    let base = 2 * ng + ci * bpc;
    let gv = swapped_groups(bits.subrange(0, ng), bits.subrange(ng, 2 * ng), ng);
    if bits[base] {
        votes_from(bits, base, bpc - 1) >= bpc / 2
    } else {
        gv[group_index_sfx(bits, base, 1, (bpc - 1) as nat) as int]
    }
}

/// Redundant encoding: `2^(bpc-1)` group-value bits, as many swap bits,
/// then `bpc` bits per cell.
#[derive(Debug)]
pub struct MyNeutralExpressor {
    pub bits_per_cell: u8,
    pub num_groups: u8,
    pub group_values: Vec<bool>,
}

impl MyNeutralExpressor {
    pub open spec fn wf(&self) -> bool {
        &&& 2 <= self.bits_per_cell <= 8
        &&& self.num_groups == pow2((self.bits_per_cell - 1) as nat)
    }

    pub fn new(bits_per_cell: u8) -> (r: MyNeutralExpressor)
        requires
            2 <= bits_per_cell <= 8,
        ensures
            r.wf(),
            r.bits_per_cell == bits_per_cell,
    {
        let num_groups: u8 = 1u8 << ((bits_per_cell - 1) as u8);
        proof {
            let s = (bits_per_cell - 1) as u8;
            assert(1u8 << s == (pow2(s as nat) as u8) && pow2(s as nat) <= 128) by {
                vstd::arithmetic::power2::lemma2_to64();
                assert(s < 8);
                assert(1 <= s <= 7);
                if s == 1 {
                    assert(1u8 << 1u8 == 2) by (bit_vector);
                } else if s == 2 {
                    assert(1u8 << 2u8 == 4) by (bit_vector);
                } else if s == 3 {
                    assert(1u8 << 3u8 == 8) by (bit_vector);
                } else if s == 4 {
                    assert(1u8 << 4u8 == 16) by (bit_vector);
                } else if s == 5 {
                    assert(1u8 << 5u8 == 32) by (bit_vector);
                } else if s == 6 {
                    assert(1u8 << 6u8 == 64) by (bit_vector);
                } else {
                    assert(s == 7);
                    assert(1u8 << 7u8 == 128) by (bit_vector);
                }
            }
        }
        MyNeutralExpressor { bits_per_cell, num_groups, group_values: Vec::new() }
    }

    /// Total genotype bits this encoding reads.
    pub open spec fn spec_genotype_length(&self) -> int {
        64 * self.bits_per_cell + 2 * self.num_groups
    }

    pub fn genotype_length(&self) -> (r: usize)
        requires
            self.wf(),
        ensures
            r == self.spec_genotype_length(),
    {
        let num_seed_cells = SEED_PATCH_SIZE * SEED_PATCH_SIZE;
        num_seed_cells * (self.bits_per_cell as usize) + 2 * (self.num_groups as usize)
    }

    /// Decode: group values, flagged neighbour swaps, then one cell per
    /// `bits_per_cell` genotype bits, row by row.
    #[verifier::loop_isolation(false)]
    pub fn express_seed(&mut self, genotype: &BinaryChromosome) -> (r: MyPhenotype)
        requires
            old(self).wf(),
            genotype@.len() >= old(self).spec_genotype_length(),
        ensures
            final(self).wf(),
            final(self).bits_per_cell == old(self).bits_per_cell,
            final(self).num_groups == old(self).num_groups,
            r.wf(),
            forall|x: int, y: int|
                0 <= x < 8 && 0 <= y < 8 ==> #[trigger] r.bit_grid.spec_bit(x, y) == neutral_cell(
                    genotype@,
                    old(self).bits_per_cell as int,
                    y * 8 + x,
                ),
    {
        let bpc = self.bits_per_cell as usize;
        let ng = self.num_groups as usize;
        proof {
            vstd::arithmetic::power2::lemma2_to64();
            let k0 = (bpc - 1) as nat;
            if k0 > 1 {
                vstd::arithmetic::power2::lemma_pow2_strictly_increases(1, k0);
            }
        }
        let ghost bits = genotype@;
        let ghost vals0 = bits.subrange(0, ng as int);
        let ghost swaps = bits.subrange(ng as int, 2 * ng as int);
        let ghost gv = swapped_groups(vals0, swaps, ng as int);

        let mut bit_grid = BitGrid::new(SEED_PATCH_SIZE, SEED_PATCH_SIZE);
        proof {
            lemma_seed_grid_shape(&bit_grid);
        }

        self.group_values.clear();
        let mut i: usize = 0;
        while i < ng
            invariant
                i <= ng,
                self.bits_per_cell == old(self).bits_per_cell,
                self.num_groups == old(self).num_groups,
                self.group_values@.len() == i,
                forall|j: int| 0 <= j < i ==> self.group_values@[j] == vals0[j],
            decreases ng - i,
        {
            self.group_values.push(genotype.get_bit(i));
            i += 1;
        }
        proof {
            assert(self.group_values@ =~= vals0);
            assert(swapped_groups(vals0, swaps, 0) == vals0);
        }
        let mut i2: usize = 0;
        while i2 < ng
            invariant
                i2 <= ng,
                self.bits_per_cell == old(self).bits_per_cell,
                self.num_groups == old(self).num_groups,
                self.group_values@.len() == ng,
                self.group_values@ == swapped_groups(vals0, swaps, i2 as int),
            decreases ng - i2,
        {
            if genotype.get_bit(ng + i2) {
                let j = (i2 + 1) % ng;
                let tmp = self.group_values[i2];
                let vj = self.group_values[j];
                self.group_values[i2] = vj;
                self.group_values[j] = tmp;
                proof {
                    assert(swaps[i2 as int] == bits[ng + i2]);
                    assert(vals0.len() == ng);
                    assert(self.group_values@ =~= swapped_groups(vals0, swaps, i2 + 1));
                }
            } else {
                proof {
                    assert(swaps[i2 as int] == bits[ng + i2]);
                }
            }
            i2 += 1;
        }
        proof {
            assert(self.group_values@ == gv);
        }

        let mut index: usize = 2 * ng;
        let mut y: usize = 0;
        while y < SEED_PATCH_SIZE
            invariant
                y <= 8,
                index == 2 * ng + y * 8 * bpc,
                bit_grid.wf(),
                bit_grid.width == 8,
                bit_grid.height == 8,
                bit_grid.units_per_row == 1,
                bit_grid.units@.len() == 8,
                self.group_values@ == gv,
                self.group_values@.len() == ng,
                self.bits_per_cell == old(self).bits_per_cell,
                self.num_groups == old(self).num_groups,
                forall|xx: int, yy: int|
                    0 <= xx < 64 && 0 <= yy < 8 && yy >= y ==> !(#[trigger] bit_grid.spec_bit(
                        xx,
                        yy,
                    )),
                forall|xx: int, yy: int|
                    8 <= xx < 64 && 0 <= yy < 8 ==> !(#[trigger] bit_grid.spec_bit(xx, yy)),
                forall|xx: int, yy: int|
                    0 <= xx < 8 && 0 <= yy < y ==> #[trigger] bit_grid.spec_bit(xx, yy)
                        == neutral_cell(bits, bpc as int, yy * 8 + xx),
            decreases 8 - y,
        {
            let mut x: usize = 0;
            while x < SEED_PATCH_SIZE
                invariant
                    y < 8,
                    x <= 8,
                    index == 2 * ng + (y * 8 + x) * bpc,
                    bit_grid.wf(),
                    bit_grid.width == 8,
                    bit_grid.height == 8,
                    bit_grid.units_per_row == 1,
                    bit_grid.units@.len() == 8,
                    self.group_values@ == gv,
                    self.group_values@.len() == ng,
                    self.bits_per_cell == old(self).bits_per_cell,
                    self.num_groups == old(self).num_groups,
                    forall|xx: int, yy: int|
                        0 <= xx < 64 && 0 <= yy < 8 && (yy > y || (yy == y && xx >= x)) ==> !(
                        #[trigger] bit_grid.spec_bit(xx, yy)),
                    forall|xx: int, yy: int|
                        8 <= xx < 64 && 0 <= yy < 8 ==> !(#[trigger] bit_grid.spec_bit(xx, yy)),
                    forall|xx: int, yy: int|
                        0 <= xx < 8 && 0 <= yy < 8 && (yy < y || (yy == y && xx < x))
                            ==> #[trigger] bit_grid.spec_bit(xx, yy) == neutral_cell(
                            bits,
                            bpc as int,
                            yy * 8 + xx,
                        ),
                decreases 8 - x,
            {
                proof {
                    assert((y * 8 + x) * bpc + bpc == (y * 8 + x + 1) * bpc && (y * 8 + x) * bpc
                        <= 63 * 8 && (y * 8 + x + 1) * bpc <= 64 * bpc) by (nonlinear_arith)
                        requires
                            y < 8,
                            x < 8,
                            2 <= bpc <= 8,
                    ;
                }
                let cell_state = self.decode_cell(genotype, index, Ghost((y * 8 + x) as int));
                if cell_state {
                    bit_grid.set(x, y);
                }
                index += bpc;
                x += 1;
            }
            proof {
                assert((y + 1) * 8 * bpc == (y * 8 + 8) * bpc) by (nonlinear_arith);
            }
            y += 1;
        }
        MyPhenotype { bit_grid }
    }

    /// One cell of the neutral decoding, from its `bits_per_cell`
    /// genotype bits at `index`.
    #[verifier::loop_isolation(false)]
    fn decode_cell(&self, genotype: &BinaryChromosome, index: usize, ci: Ghost<int>) -> (r: bool)
        requires
            self.wf(),
            self.group_values@.len() == self.num_groups,
            index + self.bits_per_cell <= genotype@.len(),
            index + 8 <= usize::MAX,
            0 <= ci@,
            index == 2 * (self.num_groups as int) + ci@ * self.bits_per_cell,
            self.group_values@ == swapped_groups(
                genotype@.subrange(0, self.num_groups as int),
                genotype@.subrange(self.num_groups as int, 2 * self.num_groups as int),
                self.num_groups as int,
            ),
        ensures
            r == neutral_cell(genotype@, self.bits_per_cell as int, ci@),
    {
        let ghost bits = genotype@;
        let ghost bpci = self.bits_per_cell as int;
        let bpc = self.bits_per_cell as usize;
        let mut n: usize = bpc - 1;
        let r;
        if genotype.get_bit(index) {
            let mut votes: usize = 0;
            while n > 0
                invariant
                    n <= bpc - 1,
                    votes + votes_from(bits, index as int, n as int) == votes_from(
                        bits,
                        index as int,
                        bpc - 1,
                    ),
                    votes + n <= bpc - 1,
                decreases n,
            {
                if genotype.get_bit(index + n) {
                    votes += 1;
                }
                n -= 1;
            }
            let half = self.bits_per_cell >> 1;
            proof {
                let b = self.bits_per_cell;
                assert((b >> 1) == b / 2) by (bit_vector);
            }
            r = votes >= half as usize;
        } else {
            let mut group: usize = 0;
            while n > 0
                invariant
                    n <= bpc - 1,
                    group == group_index_sfx(bits, index as int, n + 1, ((bpc - 1) - n) as nat),
                    group < 128,
                decreases n,
            {
                proof {
                    lemma_group_index_bound(bits, index as int, n as int, ((bpc - 1) - n
                        + 1) as nat);
                    let k = ((bpc - 1) - n + 1) as nat;
                    if k < 7 {
                        vstd::arithmetic::power2::lemma_pow2_strictly_increases(k, 7);
                    }
                    vstd::arithmetic::power2::lemma2_to64();
                }
                group = group * 2;
                if genotype.get_bit(index + n) {
                    group += 1;
                }
                n -= 1;
            }
            proof {
                lemma_group_index_bound(bits, index as int, 1, (bpc - 1) as nat);
                let k2 = (bpc - 1) as nat;
                if k2 < 7 {
                    vstd::arithmetic::power2::lemma_pow2_strictly_increases(k2, 7);
                }
                vstd::arithmetic::power2::lemma2_to64();
            }
            r = self.group_values[group];
        }
        proof {
            assert(neutral_cell(bits, bpci, ci@) == (if bits[index as int] {
                votes_from(bits, index as int, bpci - 1) >= bpci / 2
            } else {
                swapped_groups(
                    bits.subrange(0, self.num_groups as int),
                    bits.subrange(self.num_groups as int, 2 * self.num_groups as int),
                    self.num_groups as int,
                )[group_index_sfx(bits, index as int, 1, (bpci - 1) as nat) as int]
            }));
        }
        r
    }
}

/// The expressors the driver can hold, as tagged variants.
pub enum ExpressorKind {
    Simple(MySimpleExpressor),
    Neutral(MyNeutralExpressor),
}

impl ExpressorKind {
    /// Whether a genotype of `len` bits can be decoded.
    pub open spec fn kind_fits(&self, len: int) -> bool {
        match self {
            ExpressorKind::Simple(_) => len >= 64,
            ExpressorKind::Neutral(e) => e.wf() && len >= e.spec_genotype_length(),
        }
    }

    /// Same encoding and parameters; only scratch state may differ.
    pub open spec fn same_config(&self, other: ExpressorKind) -> bool {
        match self {
            ExpressorKind::Simple(_) => other is Simple,
            ExpressorKind::Neutral(e) => other matches ExpressorKind::Neutral(e2)
                && e2.bits_per_cell == e.bits_per_cell && e2.num_groups == e.num_groups,
        }
    }

    /// The cell this encoding decodes at `(x, y)`.
    pub open spec fn decodes(&self, bits: Seq<bool>, x: int, y: int) -> bool {
        match self {
            ExpressorKind::Simple(_) => simple_cell(bits, x, y),
            ExpressorKind::Neutral(e) => neutral_cell(bits, e.bits_per_cell as int, y * 8 + x),
        }
    }

    pub fn express_genotype(&mut self, genotype: &BinaryChromosome) -> (r: MyPhenotype)
        requires
            old(self).kind_fits(genotype@.len() as int),
        ensures
            final(self).same_config(*old(self)),
            final(self).kind_fits(genotype@.len() as int),
            r.wf(),
            forall|x: int, y: int|
                0 <= x < 8 && 0 <= y < 8 ==> #[trigger] r.bit_grid.spec_bit(x, y) == old(
                    self,
                ).decodes(genotype@, x, y),
    {
        match self {
            ExpressorKind::Simple(e) => e.express_seed(genotype),
            ExpressorKind::Neutral(e) => e.express_seed(genotype),
        }
    }
}

impl Expressor<BinaryChromosome, MyPhenotype> for MyNeutralExpressor {
    open spec fn fits(&self, genotype: &BinaryChromosome) -> bool {
        self.wf() && genotype@.len() >= self.spec_genotype_length()
    }

    fn express(&mut self, genotype: &BinaryChromosome) -> (r: MyPhenotype)
        ensures
            final(self).wf(),
            final(self).bits_per_cell == old(self).bits_per_cell,
            final(self).num_groups == old(self).num_groups,
            r.wf(),
            forall|x: int, y: int|
                0 <= x < 8 && 0 <= y < 8 ==> #[trigger] r.bit_grid.spec_bit(x, y) == neutral_cell(
                    genotype@,
                    old(self).bits_per_cell as int,
                    y * 8 + x,
                ),
    {
        self.express_seed(genotype)
    }
}

} // verus!
