//! Population-count arithmetic: the number of set binary digits of a word,
//! and the lemmas that connect it to the byte-table counting scheme.

use vstd::prelude::*;
use vstd::arithmetic::power2::{pow2, lemma_pow2_unfold, lemma2_to64};

verus! {

/// Number of set binary digits of a natural number.
pub open spec fn pc(x: nat) -> nat
    decreases x,
{
    if x == 0 {
        0
    } else {
        x % 2 + pc(x / 2)
    }
}

/// Peeling one binary digit off a sum `2*m + r` moves half of `r` next to `m`.
proof fn lemma_pc_unfold_even(m: nat, r: nat)
    ensures
        pc(2 * m + r) == r % 2 + pc(m + r / 2),
{
    let x = 2 * m + r;
    assert(x % 2 == r % 2 && x / 2 == m + r / 2) by (nonlinear_arith)
        requires
            x == 2 * m + r,
    ;
    if x == 0 {
        assert(m + r / 2 == 0);
    }
}

/// Set digits of `q * 2^k + r` split into those of `q` and those of `r`
/// when `r` occupies only the low `k` digits.
pub proof fn lemma_pc_split(q: nat, r: nat, k: nat)
    requires
        r < pow2(k),
    ensures
        pc(q * pow2(k) + r) == pc(q) + pc(r),
    decreases k,
{
    if k == 0 {
        assert(pow2(0) == 1) by {
            lemma2_to64();
        }
        assert(q * 1 == q);
    } else {
        let p = pow2((k - 1) as nat);
        lemma_pow2_unfold(k);
        let m = q * p;
        assert(q * pow2(k) + r == 2 * m + r) by (nonlinear_arith)
            requires
                pow2(k) == 2 * p,
                m == q * p,
        ;
        lemma_pc_unfold_even(m, r);
        assert(r / 2 < p) by (nonlinear_arith)
            requires
                r < 2 * p,
        ;
        lemma_pc_split(q, r / 2, (k - 1) as nat);
        assert(pc(r) == r % 2 + pc(r / 2));
    }
}

/// Appending one binary digit `b` below `m` adds `b` to the count.
pub proof fn lemma_pc_two_m_plus_b(m: nat, b: nat)
    requires
        b < 2,
    ensures
        pc(2 * m + b) == pc(m) + b,
{
    let x = 2 * m + b;
    assert(x % 2 == b && x / 2 == m) by (nonlinear_arith)
        requires
            x == 2 * m + b,
            b < 2,
    ;
    if x == 0 {
        assert(m == 0);
    }
}

/// A block of `k` set digits counts `k`.
pub proof fn lemma_pc_pow2_minus_1(k: nat)
    ensures
        pc((pow2(k) - 1) as nat) == k,
    decreases k,
{
    vstd::arithmetic::power2::lemma_pow2_pos(k);
    if k == 0 {
        assert(pow2(0) == 1) by {
            lemma2_to64();
        }
    } else {
        lemma_pow2_unfold(k);
        vstd::arithmetic::power2::lemma_pow2_pos((k - 1) as nat);
        let m = (pow2((k - 1) as nat) - 1) as nat;
        assert((pow2(k) - 1) as nat == 2 * m + 1);
        lemma_pc_two_m_plus_b(m, 1);
        lemma_pc_pow2_minus_1((k - 1) as nat);
    }
}

/// A number below `2^k` has at most `k` set digits.
pub proof fn lemma_pc_bound(x: nat, k: nat)
    requires
        x < pow2(k),
    ensures
        pc(x) <= k,
    decreases k,
{
    if k == 0 {
        assert(pow2(0) == 1) by {
            lemma2_to64();
        }
    } else {
        lemma_pow2_unfold(k);
        if x != 0 {
            assert(x / 2 < pow2((k - 1) as nat)) by (nonlinear_arith)
                requires
                    x < 2 * pow2((k - 1) as nat),
            ;
            lemma_pc_bound(x / 2, (k - 1) as nat);
        }
    }
}

/// Masking a word with `&` cannot increase its set-digit count.
pub proof fn lemma_pc_and_le(x: u64, y: u64)
    ensures
        pc((x & y) as nat) <= pc(y as nat),
    decreases y,
{
    if y == 0 {
        assert(x & 0 == 0) by (bit_vector);
    } else {
        assert((x & y) >> 1 == (x >> 1) & (y >> 1) && ((x & y) as nat) / 2 == ((x & y) >> 1) as nat
            && (y as nat) / 2 == (y >> 1) as nat && ((x & y) as nat) % 2 <= (y as nat) % 2 && (y
            >> 1) < y) by (bit_vector)
            requires
                y != 0,
        ;
        lemma_pc_and_le(x >> 1, y >> 1);
    }
}

/// Adding bits with `|` cannot decrease the set-digit count.
pub proof fn lemma_pc_or_ge(x: u64, y: u64)
    ensures
        pc((x | y) as nat) >= pc(x as nat),
    decreases x, y,
{
    if x == 0 && y == 0 {
        assert(0u64 | 0u64 == 0) by (bit_vector);
    } else {
        assert((x | y) >> 1 == (x >> 1) | (y >> 1) && ((x | y) as nat) / 2 == ((x | y) >> 1) as nat
            && (x as nat) / 2 == (x >> 1) as nat && ((x | y) as nat) % 2 >= (x as nat) % 2 && x >> 1
            <= x && y >> 1 <= y && (x != 0 ==> x >> 1 < x) && (y != 0 ==> y >> 1 < y) && (x | y
            == 0 ==> x == 0)) by (bit_vector);
        lemma_pc_or_ge(x >> 1, y >> 1);
    }
}

/// Total set-digit count of a sequence of words.
pub open spec fn sum_pc(s: Seq<u64>) -> nat
    decreases s.len(),
{
    if s.len() == 0 {
        0
    } else {
        sum_pc(s.drop_last()) + pc(s.last() as nat)
    }
}

/// Each word contributes at most 64 to the total.
pub proof fn lemma_sum_pc_bound(s: Seq<u64>)
    ensures
        sum_pc(s) <= 64 * s.len(),
    decreases s.len(),
{
    if s.len() > 0 {
        lemma_sum_pc_bound(s.drop_last());
        assert((s.last() as nat) < pow2(64)) by {
            lemma2_to64_rest_bits();
        }
        lemma_pc_bound(s.last() as nat, 64);
    }
}

proof fn lemma2_to64_rest_bits()
    ensures
        pow2(64) == 0x10000000000000000,
{
    vstd::arithmetic::power2::lemma2_to64_rest();
}

} // verus!
