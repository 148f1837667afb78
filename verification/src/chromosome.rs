//! Binary chromosomes over a packed bit vector, with random, all-zero and
//! all-one constructors, per-bit mutation, and two recombination
//! operators.

use vstd::prelude::*;
use crate::rng::{random_coin, random_ratio, random_below};

verus! {

#[verifier::external_type_specification]
#[verifier::external_body]
#[verifier::reject_recursive_types(B)]
pub struct ExBitVec<B>(bit_vec::BitVec<B>);

/// The sequence of bits a bit vector holds.
pub uninterp spec fn stored_bits(b: bit_vec::BitVec) -> Seq<bool>;

/// Relies on bit_vec::BitVec::with_capacity: a new, empty bit vector.
#[verifier::external_body]
fn bv_with_capacity(capacity: usize) -> (r: bit_vec::BitVec)
    ensures
        stored_bits(r) == Seq::<bool>::empty(),
{
    bit_vec::BitVec::with_capacity(capacity)
}

/// Relies on bit_vec::BitVec::from_elem: `len` copies of `bit`.
#[verifier::external_body]
fn bv_from_elem(len: usize, bit: bool) -> (r: bit_vec::BitVec)
    ensures
        stored_bits(r) == Seq::new(len as nat, |i: int| bit),
{
    bit_vec::BitVec::from_elem(len, bit)
}

/// Relies on bit_vec::BitVec::len: the number of stored bits.
#[verifier::external_body]
fn bv_len(b: &bit_vec::BitVec) -> (r: usize)
    ensures
        r == stored_bits(*b).len(),
{
    b.len()
}

/// Relies on bit_vec::BitVec::get: the bit at `i`, or nothing past the end.
#[verifier::external_body]
fn bv_get(b: &bit_vec::BitVec, i: usize) -> (r: Option<bool>)
    ensures
        r == if i < stored_bits(*b).len() {
            Some(stored_bits(*b)[i as int])
        } else {
            None::<bool>
        },
{
    b.get(i)
}

/// Relies on bit_vec::BitVec::set, which panics only past the end.
#[verifier::external_body]
fn bv_set(b: &mut bit_vec::BitVec, i: usize, x: bool)
    requires
        i < stored_bits(*old(b)).len(),
    ensures
        stored_bits(*final(b)) == stored_bits(*old(b)).update(i as int, x),
{
    b.set(i, x)
}

/// Relies on bit_vec::BitVec::push, which panics only when the length
/// would overflow.
#[verifier::external_body]
fn bv_push(b: &mut bit_vec::BitVec, x: bool)
    requires
        stored_bits(*old(b)).len() < usize::MAX,
    ensures
        stored_bits(*final(b)) == stored_bits(*old(b)).push(x),
{
    b.push(x)
}

/// Relies on bit_vec::BitVec::clone: the copy holds the same bits.
#[verifier::external_body]
fn bv_clone(b: &bit_vec::BitVec) -> (r: bit_vec::BitVec)
    ensures
        stored_bits(r) == stored_bits(*b),
{
    b.clone()
}

/// A fixed-length bit string.
#[derive(Debug)]
pub struct BinaryChromosome {
    pub bits: bit_vec::BitVec,
}

impl View for BinaryChromosome {
    type V = Seq<bool>;

    open spec fn view(&self) -> Seq<bool> {
        stored_bits(self.bits)
    }
}

impl BinaryChromosome {
    /// A chromosome of `size` random bits.
    #[verifier::loop_isolation(false)]
    pub fn new(size: usize) -> (r: BinaryChromosome)
        requires
            size < usize::MAX,
        ensures
            r@.len() == size,
    {
        let mut bits = bv_with_capacity(size);
        let mut i: usize = 0;
        while i < size
            invariant
                i <= size,
                stored_bits(bits).len() == i,
            decreases size - i,
        {
            bv_push(&mut bits, random_coin());
            i += 1;
        }
        BinaryChromosome { bits }
    }

    /// A chromosome of `size` zero bits.
    pub fn zeroes(size: usize) -> (r: BinaryChromosome)
        ensures
            r@.len() == size,
            forall|i: int| 0 <= i < size ==> r@[i] == false,
    {
        BinaryChromosome { bits: bv_from_elem(size, false) }
    }

    /// A chromosome of `size` one bits.
    pub fn ones(size: usize) -> (r: BinaryChromosome)
        ensures
            r@.len() == size,
            forall|i: int| 0 <= i < size ==> r@[i] == true,
    {
        BinaryChromosome { bits: bv_from_elem(size, true) }
    }

    /// The number of bits.
    pub fn len(&self) -> (r: usize)
        ensures
            r == self@.len(),
    {
        bv_len(&self.bits)
    }

    /// The bit at `index`.
    pub fn get_bit(&self, index: usize) -> (r: bool)
        requires
            index < self@.len(),
        ensures
            r == self@[index as int],
    {
        match bv_get(&self.bits, index) {
            Some(b) => b,
            None => vstd::pervasive::unreached(),
        }
    }

    /// Set the bit at `index`.
    pub fn set_bit(&mut self, index: usize, value: bool)
        requires
            index < old(self)@.len(),
        ensures
            final(self)@ == old(self)@.update(index as int, value),
    {
        bv_set(&mut self.bits, index, value)
    }
}

impl Clone for BinaryChromosome {
    fn clone(&self) -> (r: BinaryChromosome)
        ensures
            r@ == self@,
    {
        BinaryChromosome { bits: bv_clone(&self.bits) }
    }
}

/// A mutation operator over some genotype.
pub trait Mutation {
    type Genotype;

    /// Whether this operator's parameters are usable.
    spec fn valid(&self) -> bool;

    fn mutate(&self, target: &mut Self::Genotype)
        requires
            self.valid(),
    ;
}

/// A recombination operator over some genotype.
pub trait Recombination {
    type Genotype;

    /// Whether this operator's parameters are usable.
    spec fn valid(&self) -> bool;

    /// Whether two parents can be recombined.
    spec fn compatible(parent1: &Self::Genotype, parent2: &Self::Genotype) -> bool;

    fn recombine(&self, parent1: &Self::Genotype, parent2: &Self::Genotype) -> Self::Genotype
        requires
            self.valid(),
            Self::compatible(parent1, parent2),
    ;
}

/// Flips each bit independently with probability `num / den`.
#[derive(Debug)]
pub struct BinaryBitMutation {
    pub mutate_prob_num: u32,
    pub mutate_prob_den: u32,
}

impl BinaryBitMutation {
    pub open spec fn wf(&self) -> bool {
        &&& self.mutate_prob_den > 0
        &&& self.mutate_prob_num <= self.mutate_prob_den
    }

    pub fn new(mutate_prob_num: u32, mutate_prob_den: u32) -> (r: BinaryBitMutation)
        requires
            mutate_prob_den > 0,
            mutate_prob_num <= mutate_prob_den,
        ensures
            r.wf(),
            r.mutate_prob_num == mutate_prob_num,
            r.mutate_prob_den == mutate_prob_den,
    {
        BinaryBitMutation { mutate_prob_num, mutate_prob_den }
    }

    /// Flip a random subset of bits; each bit flips independently with
    /// the configured probability. The length never changes.
    #[verifier::loop_isolation(false)]
    pub fn mutate_bits(&self, target: &mut BinaryChromosome)
        requires
            self.wf(),
        ensures
            final(target)@.len() == old(target)@.len(),
    {
        let n = target.len();
        let mut i: usize = 0;
        while i < n
            invariant
                i <= n,
                target@.len() == n,
                n == old(target)@.len(),
            decreases n - i,
        {
            if random_ratio(self.mutate_prob_num, self.mutate_prob_den) {
                let b = target.get_bit(i);
                target.set_bit(i, !b);
            }
            i += 1;
        }
    }
}

impl Mutation for BinaryBitMutation {
    type Genotype = BinaryChromosome;

    open spec fn valid(&self) -> bool {
        self.wf()
    }

    fn mutate(&self, target: &mut BinaryChromosome)
        ensures
            final(target)@.len() == old(target)@.len(),
    {
        self.mutate_bits(target)
    }
}

/// A position lies inside one of the first `upto / 2` alternating cut
/// segments `[ps[2k], ps[2k+1])`.
pub open spec fn cut_covered_upto(ps: Seq<usize>, i: int, upto: int) -> bool {
    exists|k: int| 0 <= k && 2 * k + 1 < upto && (#[trigger] ps[2 * k]) <= i < ps[2 * k + 1]
}

/// A position lies inside one of the alternating cut segments.
pub open spec fn cut_covered(ps: Seq<usize>, i: int) -> bool {
    cut_covered_upto(ps, i, ps.len() as int)
}

/// The child of a cut-point crossover: an even number of sorted cut
/// points in `[1, len]`; inside the alternating segments they delimit
/// the child reads the second parent, outside the first.
pub open spec fn cut_blend(ps: Seq<usize>, p1: Seq<bool>, p2: Seq<bool>, r: Seq<bool>) -> bool {
    &&& ps.len() % 2 == 0
    &&& forall|a: int, b: int| 0 <= a < b < ps.len() ==> #[trigger] ps[a] <= #[trigger] ps[b]
    &&& forall|e: int| 0 <= e < ps.len() ==> 1 <= #[trigger] ps[e] <= p1.len()
    &&& r.len() == p1.len()
    &&& forall|i: int|
        0 <= i < r.len() ==> #[trigger] r[i] == if cut_covered(ps, i) {
            p2[i]
        } else {
            p1[i]
        }
}

/// Consuming one more cut pair extends the covered positions by exactly
/// that pair's segment.
proof fn lemma_cut_covered_step(ps: Seq<usize>, p: int)
    requires
        0 <= p,
        p % 2 == 0,
        p + 1 < ps.len(),
    ensures
        forall|i: int|
            #[trigger] cut_covered_upto(ps, i, p + 2) == (cut_covered_upto(ps, i, p) || (ps[p] <= i
                < ps[p + 1])),
{
    assert forall|i: int|
        #[trigger] cut_covered_upto(ps, i, p + 2) == (cut_covered_upto(ps, i, p) || (ps[p] <= i
            < ps[p + 1])) by {
        if cut_covered_upto(ps, i, p + 2) {
            let k = choose|k: int|
                0 <= k && 2 * k + 1 < p + 2 && (#[trigger] ps[2 * k]) <= i < ps[2 * k + 1];
            if 2 * k + 1 < p {
                assert(cut_covered_upto(ps, i, p));
            } else {
                assert(2 * k == p && 2 * k + 1 == p + 1);
            }
        }
        if cut_covered_upto(ps, i, p) {
            let k = choose|k: int|
                0 <= k && 2 * k + 1 < p && (#[trigger] ps[2 * k]) <= i < ps[2 * k + 1];
            assert(0 <= k && 2 * k + 1 < p + 2 && ps[2 * k] <= i < ps[2 * k + 1]);
        }
        if ps[p] <= i < ps[p + 1] {
            let k = p / 2;
            assert(2 * k == p);
            assert(0 <= k && 2 * k + 1 < p + 2 && ps[2 * k] <= i < ps[2 * k + 1]);
        }
    }
}

/// Copies stretches between `n` random cut points from the second parent
/// over a copy of the first.
#[derive(Debug)]
pub struct BinaryNPointBitCrossover {
    pub n: usize,
}

impl BinaryNPointBitCrossover {
    pub fn new(n: usize) -> (r: BinaryNPointBitCrossover)
        ensures
            r.n == n,
    {
        BinaryNPointBitCrossover { n }
    }

    /// The child has the parents' common length and takes each bit from
    /// one parent or the other.
    #[verifier::loop_isolation(false)]
    pub fn recombine_bits(&self, parent1: &BinaryChromosome, parent2: &BinaryChromosome) -> (r:
        BinaryChromosome)
        requires
            self.n <= usize::MAX - 2,
            parent1@.len() <= parent2@.len(),
            parent1@.len() >= 2,
        ensures
            r@.len() == parent1@.len(),
            forall|i: int| 0 <= i < r@.len() ==> r@[i] == parent1@[i] || r@[i] == parent2@[i],
            exists|ps: Seq<usize>| #[trigger] cut_blend(ps, parent1@, parent2@, r@),
    {
        let range = parent1.len();
        let mut points: Vec<usize> = Vec::new();
        let mut i: usize = 0;
        while i < self.n
            invariant
                points@.len() == i <= self.n,
                forall|j: int| 0 <= j < i ==> 1 <= #[trigger] points@[j] < range,
            decreases self.n - i,
        {
            points.push(random_below(1, range));
            i += 1;
        }
        sort_points(&mut points, Ghost(range as int));
        if self.n % 2 == 1 {
            points.push(range);
        }
        let ghost ps = points@;
        proof {
            assert(ps.len() % 2 == 0);
            assert forall|i2: int| true implies !cut_covered_upto(ps, i2, 0) by {
                if cut_covered_upto(ps, i2, 0) {
                    let k = choose|k: int|
                        0 <= k && 2 * k + 1 < 0 && (#[trigger] ps[2 * k]) <= i2 < ps[2 * k + 1];
                }
            }
        }

        let mut child = parent1.clone();
        let np = points.len();
        let mut p: usize = 0;
        while p + 1 < np
            invariant
                np == points@.len(),
                points@ == ps,
                p <= np,
                p % 2 == 0,
                child@.len() == parent1@.len(),
                forall|j: int| 0 <= j < points@.len() ==> 1 <= #[trigger] points@[j] <= range,
                forall|a: int, b: int| 0 <= a < b < ps.len() ==> #[trigger] ps[a] <= #[trigger] ps[b],
                forall|i2: int|
                    0 <= i2 < child@.len() ==> #[trigger] child@[i2] == if cut_covered_upto(
                        ps,
                        i2,
                        p as int,
                    ) {
                        parent2@[i2]
                    } else {
                        parent1@[i2]
                    },
            decreases np - p,
        {
            let from = points[p];
            let to = points[p + 1];
            let mut j = from;
            while j < to
                invariant
                    points@ == ps,
                    from == ps[p as int],
                    to == ps[p as int + 1],
                    from <= j <= to,
                    to <= range,
                    child@.len() == parent1@.len(),
                    forall|i2: int|
                        0 <= i2 < child@.len() ==> #[trigger] child@[i2] == if cut_covered_upto(
                            ps,
                            i2,
                            p as int,
                        ) || (from <= i2 < j) {
                            parent2@[i2]
                        } else {
                            parent1@[i2]
                        },
                decreases to - j,
            {
                let b = parent2.get_bit(j);
                child.set_bit(j, b);
                j += 1;
            }
            proof {
                lemma_cut_covered_step(ps, p as int);
            }
            p += 2;
        }
        proof {
            assert(p == np);
            assert(cut_blend(ps, parent1@, parent2@, child@));
        }
        child
    }
}

impl Recombination for BinaryNPointBitCrossover {
    type Genotype = BinaryChromosome;

    open spec fn valid(&self) -> bool {
        self.n <= usize::MAX - 2
    }

    open spec fn compatible(parent1: &BinaryChromosome, parent2: &BinaryChromosome) -> bool {
        parent1@.len() <= parent2@.len() && parent1@.len() >= 2
    }

    fn recombine(&self, parent1: &BinaryChromosome, parent2: &BinaryChromosome) -> (r:
        BinaryChromosome)
        ensures
            r@.len() == parent1@.len(),
            forall|i: int| 0 <= i < r@.len() ==> r@[i] == parent1@[i] || r@[i] == parent2@[i],
            exists|ps: Seq<usize>| #[trigger] cut_blend(ps, parent1@, parent2@, r@),
    {
        self.recombine_bits(parent1, parent2)
    }
}

/// Sorts cut points ascending; every element keeps its range.
#[verifier::loop_isolation(false)]
fn sort_points(points: &mut Vec<usize>, bound: Ghost<int>)
    requires
        forall|j: int| 0 <= j < old(points)@.len() ==> 1 <= #[trigger] old(points)@[j] < bound@,
    ensures
        final(points)@.len() == old(points)@.len(),
        forall|j: int| 0 <= j < final(points)@.len() ==> 1 <= #[trigger] final(points)@[j] < bound@,
        forall|a: int, b: int|
            0 <= a < b < final(points)@.len() ==> final(points)@[a] <= final(points)@[b],
{
    let n = points.len();
    let mut i: usize = 1;
    while i < n
        invariant
            1 <= i <= n || n == 0,
            points@.len() == n,
            forall|j: int| 0 <= j < n ==> 1 <= #[trigger] points@[j] < bound@,
            forall|a: int, b: int| 0 <= a < b < i ==> points@[a] <= points@[b],
        decreases n - i,
    {
        let mut j = i;
        while j >= 1 && points[j - 1] > points[j]
            invariant
                0 <= j <= i < n,
                points@.len() == n,
                forall|jj: int| 0 <= jj < n ==> 1 <= #[trigger] points@[jj] < bound@,
                forall|a: int, b: int|
                    0 <= a < b <= i && b != j ==> points@[a] <= points@[b],
            decreases j,
        {
            let x = points[j - 1];
            let y = points[j];
            points[j - 1] = y;
            points[j] = x;
            j -= 1;
        }
        i += 1;
    }
}

/// Takes each bit from the first parent, or from the second with
/// probability `(1 - bias) / 2`, the bias given in hundredths.
#[derive(Debug)]
pub struct BinaryUniformRecombination {
    pub bias_hundredths: u32,
}

impl BinaryUniformRecombination {
    pub open spec fn wf(&self) -> bool {
        self.bias_hundredths < 100
    }

    pub fn new(bias_hundredths: u32) -> (r: BinaryUniformRecombination)
        requires
            bias_hundredths < 100,
        ensures
            r.wf(),
            r.bias_hundredths == bias_hundredths,
    {
        BinaryUniformRecombination { bias_hundredths }
    }

    #[verifier::loop_isolation(false)]
    pub fn recombine_bits(&self, parent1: &BinaryChromosome, parent2: &BinaryChromosome) -> (r:
        BinaryChromosome)
        requires
            self.wf(),
            parent1@.len() <= parent2@.len(),
        ensures
            r@.len() == parent1@.len(),
            forall|i: int| 0 <= i < r@.len() ==> r@[i] == parent1@[i] || r@[i] == parent2@[i],
    {
        let mut child = parent1.clone();
        let n = child.len();
        let mut i: usize = 0;
        while i < n
            invariant
                i <= n,
                child@.len() == n,
                n == parent1@.len(),
                forall|i2: int|
                    0 <= i2 < child@.len() ==> child@[i2] == parent1@[i2] || child@[i2]
                        == parent2@[i2],
            decreases n - i,
        {
            if random_ratio(100 - self.bias_hundredths, 200) {
                let b = parent2.get_bit(i);
                child.set_bit(i, b);
            }
            i += 1;
        }
        child
    }
}

impl Recombination for BinaryUniformRecombination {
    type Genotype = BinaryChromosome;

    open spec fn valid(&self) -> bool {
        self.wf()
    }

    open spec fn compatible(parent1: &BinaryChromosome, parent2: &BinaryChromosome) -> bool {
        parent1@.len() <= parent2@.len()
    }

    fn recombine(&self, parent1: &BinaryChromosome, parent2: &BinaryChromosome) -> (r:
        BinaryChromosome)
        ensures
            r@.len() == parent1@.len(),
            forall|i: int| 0 <= i < r@.len() ==> r@[i] == parent1@[i] || r@[i] == parent2@[i],
    {
        self.recombine_bits(parent1, parent2)
    }
}

} // verus!
