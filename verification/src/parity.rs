//! The sign generator of the Hadamard matrix: the binary dot product mod 2
//! of a row index and a column index, i.e. the parity of the number of bit
//! positions where both indices have a set bit.

use vstd::prelude::*;

verus! {

/// Number of set bits in the binary expansion of `x`.
pub open spec fn popcount(x: nat) -> nat
    decreases x,
{
    if x == 0 {
        0
    } else {
        x % 2 + popcount(x / 2)
    }
}

/// Bitwise AND of the binary expansions of `i` and `j`, written out as
/// arithmetic on the binary digits.
pub open spec fn and_bits(i: nat, j: nat) -> nat
    decreases i,
{
    if i == 0 {
        0
    } else {
        (if i % 2 == 1 && j % 2 == 1 { 1nat } else { 0nat }) + 2 * and_bits(i / 2, j / 2)
    }
}

/// Binary dot product mod 2 of `i` and `j`: the parity of the number of
/// common set bits.  This is the canonical generator of the entries of the
/// Hadamard matrix in natural order.
pub open spec fn bdp(i: nat, j: nat) -> nat
    decreases i,
{
    if i == 0 {
        0
    } else {
        ((if i % 2 == 1 && j % 2 == 1 { 1nat } else { 0nat }) + bdp(i / 2, j / 2)) % 2
    }
}

/// Entry of the Hadamard matrix at row `i`, column `j`: `+1` where the
/// binary dot product is even, `-1` where it is odd.
pub open spec fn sign(i: nat, j: nat) -> int {
    if bdp(i, j) == 0 {
        1
    } else {
        -1
    }
}

pub proof fn lemma_bdp_le_1(i: nat, j: nat)
    ensures
        bdp(i, j) <= 1,
{
}

pub proof fn lemma_bdp_zero_right(i: nat)
    ensures
        bdp(i, 0) == 0,
    decreases i,
{
    if i > 0 {
        lemma_bdp_zero_right(i / 2);
    }
}

/// `n` is a power of two.
pub open spec fn is_pow2(n: nat) -> bool
    decreases n,
{
    if n == 0 {
        false
    } else if n == 1 {
        true
    } else {
        n % 2 == 0 && is_pow2(n / 2)
    }
}

/// Runtime test matching `is_pow2`.
pub fn is_power_of_two(n: usize) -> (b: bool)
    ensures
        b == is_pow2(n as nat),
{
    if n == 0 {
        return false;
    }
    let mut m: usize = n;
    while m % 2 == 0
        invariant
            m >= 1,
            is_pow2(n as nat) == is_pow2(m as nat),
        decreases m,
    {
        m = m / 2;
    }
    m == 1
}

/// Adding a power of two `h` to the column index does not change the dot
/// product against a row index below `h`: the new bit meets a clear bit.
pub proof fn lemma_bdp_shift_col(i: nat, j: nat, h: nat)
    requires
        is_pow2(h),
        i < h,
    ensures
        bdp(i, j + h) == bdp(i, j),
    decreases h,
{
    if h == 1 {
        assert(i == 0);
    } else {
        assert((j + h) % 2 == j % 2);
        assert((j + h) / 2 == j / 2 + h / 2);
        assert(i / 2 < h / 2);
        lemma_bdp_shift_col(i / 2, j / 2, h / 2);
    }
}

/// Adding a power of two `h` to the row index does not change the dot
/// product against a column index below `h`.
pub proof fn lemma_bdp_shift_row(i: nat, j: nat, h: nat)
    requires
        is_pow2(h),
        j < h,
    ensures
        bdp(i + h, j) == bdp(i, j),
    decreases h,
{
    if h == 1 {
        assert(j == 0);
        lemma_bdp_zero_right(i + 1);
        lemma_bdp_zero_right(i);
    } else {
        assert((i + h) % 2 == i % 2);
        assert((i + h) / 2 == i / 2 + h / 2);
        assert(j / 2 < h / 2);
        lemma_bdp_shift_row(i / 2, j / 2, h / 2);
    }
}

/// Adding the same power of two `h` to both indices, each below `h`, flips
/// the parity: the new bits meet each other.
pub proof fn lemma_bdp_flip(i: nat, j: nat, h: nat)
    requires
        is_pow2(h),
        i < h,
        j < h,
    ensures
        bdp(i + h, j + h) == 1 - bdp(i, j),
    decreases h,
{
    if h == 1 {
        assert(i == 0 && j == 0);
        reveal_with_fuel(bdp, 2);
        assert(bdp(1, 1) == 1);
    } else {
        assert((i + h) % 2 == i % 2);
        assert((i + h) / 2 == i / 2 + h / 2);
        assert((j + h) % 2 == j % 2);
        assert((j + h) / 2 == j / 2 + h / 2);
        assert(i / 2 < h / 2);
        assert(j / 2 < h / 2);
        lemma_bdp_flip(i / 2, j / 2, h / 2);
        lemma_bdp_le_1(i / 2, j / 2);
    }
}

/// The binary dot product is the parity of the popcount of the bitwise AND.
pub proof fn lemma_bdp_is_popcount_parity(i: nat, j: nat)
    ensures
        bdp(i, j) == popcount(and_bits(i, j)) % 2,
    decreases i,
{
    if i > 0 {
        lemma_bdp_is_popcount_parity(i / 2, j / 2);
        let p: nat = if i % 2 == 1 && j % 2 == 1 { 1 } else { 0 };
        let r = and_bits(i / 2, j / 2);
        assert(p <= 1);
        assert((p + 2 * r) % 2 == p);
        assert((p + 2 * r) / 2 == r);
        assert(popcount(and_bits(i, j)) == p + popcount(r));
        vstd::arithmetic::div_mod::lemma_add_mod_noop(p as int, popcount(r) as int, 2);
    }
}

/// Binary dot product mod 2 of `i` and `j`, evaluated digit by digit.
pub fn binary_dot_product(i: usize, j: usize) -> (r: usize)
    ensures
        r == bdp(i as nat, j as nat),
        r <= 1,
{
    let mut a: usize = i;
    let mut b: usize = j;
    let mut acc: usize = 0;
    proof {
        lemma_bdp_le_1(i as nat, j as nat);
    }
    while a > 0
        invariant
            acc <= 1,
            bdp(i as nat, j as nat) == (acc + bdp(a as nat, b as nat)) % 2,
        decreases a,
    {
        proof {
            lemma_bdp_le_1(a as nat / 2, b as nat / 2);
        }
        let bit: usize = if a % 2 == 1 && b % 2 == 1 { 1 } else { 0 };
        acc = (acc + bit) % 2;
        a = a / 2;
        b = b / 2;
    }
    acc
}

} // verus!
