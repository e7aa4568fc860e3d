//! In-place fast Walsh-Hadamard transform: the O(n log n) butterfly.

use vstd::prelude::*;
use crate::parity::is_pow2;
use crate::transform::{to_ints, wht_spec, stage_spec, pairs_fit, staged, asum,
    lemma_staged_init, lemma_staged_final, lemma_stage_advance, lemma_stage_fit,
    lemma_pow2_double_le, lemma_block_in_range};
use vstd::arithmetic::div_mod::lemma_fundamental_div_mod_converse;

verus! {

/// One in-place butterfly stage of stride `h`: within each block of size
/// `2h`, each pair `(data[j], data[j + h])` becomes
/// `(data[j] + data[j + h], data[j] - data[j + h])`.
///
/// The stage acts independently on each block of size `2h`, so disjoint
/// chunks of whole blocks may be processed in any order, or concurrently,
/// with the same result (see `laws::lemma_stage_chunked`).
pub fn fwht_stage(data: &mut Vec<i64>, h: usize)
    requires
        1 <= h,
        old(data)@.len() as int % (2 * (h as int)) == 0,
        pairs_fit(to_ints(old(data)@), h as nat),
    ensures
        final(data)@.len() == old(data)@.len(),
        to_ints(final(data)@) == stage_spec(to_ints(old(data)@), h as nat),
{
    let ghost s0 = to_ints(data@);
    let l = data.len();
    let mut i: usize = 0;
    while i < l
        invariant
            data@.len() == l,
            s0.len() == l,
            s0 == to_ints(old(data)@),
            1 <= h,
            i <= l,
            i as int % (2 * (h as int)) == 0,
            l as int % (2 * (h as int)) == 0,
            pairs_fit(s0, h as nat),
            forall|x: int| 0 <= x < i ==> #[trigger] to_ints(data@)[x]
                == stage_spec(s0, h as nat)[x],
            forall|x: int| i <= x < l ==> #[trigger] to_ints(data@)[x] == s0[x],
        decreases l - i,
    {
        proof {
            lemma_block_in_range(l as nat, i as nat, (2 * h) as nat);
        }
        assert(i + 2 * h as int <= l);
        let ghost q = i as nat / (2 * h as nat);
        let mut j = i;
        while j < i + h
            invariant
                data@.len() == l,
                s0.len() == l,
                1 <= h,
                i + 2 * h as int <= l,
                i <= j <= i + h,
                i as int % (2 * (h as int)) == 0,
                l as int % (2 * (h as int)) == 0,
                q == i as nat / (2 * h as nat),
                (q * (2 * h as nat)) == i,
                pairs_fit(s0, h as nat),
                forall|x: int| 0 <= x < i ==> #[trigger] to_ints(data@)[x]
                    == stage_spec(s0, h as nat)[x],
                forall|x: int| i <= x < j ==> #[trigger] to_ints(data@)[x]
                    == stage_spec(s0, h as nat)[x],
                forall|x: int| i + h <= x < j + h ==> #[trigger] to_ints(data@)[x]
                    == stage_spec(s0, h as nat)[x],
                forall|x: int| j <= x < i + h ==> #[trigger] to_ints(data@)[x] == s0[x],
                forall|x: int| j + h <= x < l ==> #[trigger] to_ints(data@)[x] == s0[x],
            decreases i + h - j,
        {
            proof {
                lemma_fundamental_div_mod_converse(
                    j as int, 2 * h as int, q as int, j - i);
                lemma_fundamental_div_mod_converse(
                    (j + h) as int, 2 * h as int, q as int, j - i + h as int);
                assert(j as int % (2 * (h as int)) == j - i);
                assert((j + h) as int % (2 * (h as int)) == j - i + h as int);
                assert(to_ints(data@)[j as int] == s0[j as int]);
                assert(to_ints(data@)[j + h] == s0[j + h]);
            }
            let ghost dpre = data@;
            let x = data[j];
            let y = data[j + h];
            data[j] = x + y;
            data[j + h] = x - y;
            proof {
                assert(data@ == dpre.update(j as int, (x + y) as i64).update(j + h, (x - y) as i64));
                assert forall|k: int| 0 <= k < l && k != j && k != j + h
                    implies #[trigger] to_ints(data@)[k] == to_ints(dpre)[k] by {
                    assert(data@[k] == dpre[k]);
                }
                assert(to_ints(data@)[j as int] == s0[j as int] + s0[j + h]);
                assert(to_ints(data@)[j + h] == s0[j as int] - s0[j + h]);
                assert(stage_spec(s0, h as nat)[j as int] == s0[j as int] + s0[j + h]);
                assert(stage_spec(s0, h as nat)[j + h] == s0[j as int] - s0[j + h]);
            }
            j = j + 1;
        }
        i = i + h + h;
        proof {
            assert((q as int + 1) * (2 * (h as int)) == q as int * (2 * (h as int)) + 2 * (h as int))
                by (nonlinear_arith);
            lemma_fundamental_div_mod_converse(
                i as int, 2 * h as int, q as int + 1, 0);
        }
    }
    assert(to_ints(data@) =~= stage_spec(s0, h as nat));
}

/// In-place fast Walsh-Hadamard transform of `data`.
///
/// Runs `log2(n)` butterfly stages of doubling stride and leaves the
/// unnormalized transform coefficients in natural order.  The result is
/// the direct-sum transform `wht_spec` of the input.
pub fn fwht(data: &mut Vec<i64>)
    requires
        is_pow2(old(data)@.len() as nat) || old(data)@.len() == 0,
        asum(to_ints(old(data)@), 0, old(data)@.len() as nat) <= i64::MAX,
    ensures
        final(data)@.len() == old(data)@.len(),
        to_ints(final(data)@) == wht_spec(to_ints(old(data)@)),
{
    let ghost s0 = to_ints(data@);
    let l = data.len();
    if l == 0 {
        assert(to_ints(data@) =~= wht_spec(s0));
        return;
    }
    proof {
        lemma_staged_init(s0);
    }
    let mut h: usize = 1;
    while h < l
        invariant
            data@.len() == l,
            s0.len() == l,
            s0 == to_ints(old(data)@),
            1 <= h <= l,
            is_pow2(l as nat),
            is_pow2(h as nat),
            asum(s0, 0, l as nat) <= i64::MAX,
            staged(s0, to_ints(data@), h as nat),
        decreases l - h,
    {
        proof {
            lemma_pow2_double_le(h as nat, l as nat);
            lemma_stage_fit(s0, to_ints(data@), h as nat);
        }
        let ghost prev = to_ints(data@);
        fwht_stage(data, h);
        proof {
            lemma_stage_advance(s0, prev, h as nat);
        }
        h = h + h;
    }
    proof {
        lemma_staged_final(s0, to_ints(data@));
    }
}

} // verus!
