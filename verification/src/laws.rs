//! Algebraic laws of the transform: linearity, the involution up to the
//! scale `n`, and the independence of the butterfly stages from how the
//! blocks are chunked.

use vstd::prelude::*;
use crate::parity::{bdp, sign, is_pow2};
use crate::transform::{wht_spec, ssum, stage_spec, lemma_ssum_concat,
    lemma_ssum_toff_shift, lemma_ssum_row_shift, lemma_ssum_row_flip,
    lemma_ssum_congruence, lemma_block_in_range};
use vstd::arithmetic::div_mod::{lemma_fundamental_div_mod, lemma_fundamental_div_mod_converse};

verus! {

/// Element-wise sum of two equally long sequences.
pub open spec fn seq_add(u: Seq<int>, v: Seq<int>) -> Seq<int> {
    Seq::new(u.len(), |i: int| u[i] + v[i])
}

/// Element-wise difference of two equally long sequences.
pub open spec fn seq_sub(u: Seq<int>, v: Seq<int>) -> Seq<int> {
    Seq::new(u.len(), |i: int| u[i] - v[i])
}

proof fn lemma_ssum_add(u: Seq<int>, v: Seq<int>, r: nat, toff: nat, base: nat, cnt: nat)
    requires
        u.len() == v.len(),
        base + cnt <= u.len(),
    ensures
        ssum(seq_add(u, v), r, toff, base, cnt)
            == ssum(u, r, toff, base, cnt) + ssum(v, r, toff, base, cnt),
    decreases cnt,
{
    if cnt > 0 {
        lemma_ssum_add(u, v, r, toff, base, (cnt - 1) as nat);
        let t = (toff + cnt - 1) as nat;
        let k = base + cnt - 1;
        assert(seq_add(u, v)[k as int] == u[k as int] + v[k as int]);
        if bdp(r, t) == 0 {
            assert(sign(r, t) * (u[k as int] + v[k as int]) == u[k as int] + v[k as int]);
            assert(sign(r, t) * u[k as int] == u[k as int]);
            assert(sign(r, t) * v[k as int] == v[k as int]);
        } else {
            assert(sign(r, t) * (u[k as int] + v[k as int]) == -(u[k as int] + v[k as int]));
            assert(sign(r, t) * u[k as int] == -u[k as int]);
            assert(sign(r, t) * v[k as int] == -v[k as int]);
        }
    }
}

proof fn lemma_ssum_sub(u: Seq<int>, v: Seq<int>, r: nat, toff: nat, base: nat, cnt: nat)
    requires
        u.len() == v.len(),
        base + cnt <= u.len(),
    ensures
        ssum(seq_sub(u, v), r, toff, base, cnt)
            == ssum(u, r, toff, base, cnt) - ssum(v, r, toff, base, cnt),
    decreases cnt,
{
    if cnt > 0 {
        lemma_ssum_sub(u, v, r, toff, base, (cnt - 1) as nat);
        let t = (toff + cnt - 1) as nat;
        let k = base + cnt - 1;
        assert(seq_sub(u, v)[k as int] == u[k as int] - v[k as int]);
        if bdp(r, t) == 0 {
            assert(sign(r, t) * (u[k as int] - v[k as int]) == u[k as int] - v[k as int]);
            assert(sign(r, t) * u[k as int] == u[k as int]);
            assert(sign(r, t) * v[k as int] == v[k as int]);
        } else {
            assert(sign(r, t) * (u[k as int] - v[k as int]) == -(u[k as int] - v[k as int]));
            assert(sign(r, t) * u[k as int] == -u[k as int]);
            assert(sign(r, t) * v[k as int] == -v[k as int]);
        }
    }
}

/// The transform is linear: transforming the element-wise sum of two
/// sequences yields the element-wise sum of their transforms.
pub proof fn lemma_wht_linear(a: Seq<int>, b: Seq<int>)
    requires
        a.len() == b.len(),
    ensures
        wht_spec(seq_add(a, b)) == seq_add(wht_spec(a), wht_spec(b)),
{
    let l = a.len();
    assert forall|i: int| 0 <= i < l implies #[trigger] wht_spec(seq_add(a, b))[i]
        == wht_spec(a)[i] + wht_spec(b)[i] by {
        lemma_ssum_add(a, b, i as nat, 0, 0, l);
    }
    assert(wht_spec(seq_add(a, b)) =~= seq_add(wht_spec(a), wht_spec(b)));
}

/// The transform also respects element-wise differences.
pub proof fn lemma_wht_linear_sub(a: Seq<int>, b: Seq<int>)
    requires
        a.len() == b.len(),
    ensures
        wht_spec(seq_sub(a, b)) == seq_sub(wht_spec(a), wht_spec(b)),
{
    let l = a.len();
    assert forall|i: int| 0 <= i < l implies #[trigger] wht_spec(seq_sub(a, b))[i]
        == wht_spec(a)[i] - wht_spec(b)[i] by {
        lemma_ssum_sub(a, b, i as nat, 0, 0, l);
    }
    assert(wht_spec(seq_sub(a, b)) =~= seq_sub(wht_spec(a), wht_spec(b)));
}

/// The transform of a sequence of length `2n` is, on the lower half, the
/// sum of the transforms of its halves, and on the upper half their
/// difference: the outermost butterfly stage, read from the result side.
proof fn lemma_wht_split(s: Seq<int>, n: nat)
    requires
        s.len() == 2 * n,
        is_pow2(n),
    ensures
        forall|i: int| 0 <= i < n ==> #[trigger] wht_spec(s)[i]
            == wht_spec(s.subrange(0, n as int))[i] + wht_spec(s.subrange(n as int, 2 * (n as int)))[i],
        forall|i: int| 0 <= i < n ==> #[trigger] wht_spec(s)[n + i]
            == wht_spec(s.subrange(0, n as int))[i] - wht_spec(s.subrange(n as int, 2 * (n as int)))[i],
{
    let a = s.subrange(0, n as int);
    let b = s.subrange(n as int, 2 * (n as int));
    assert forall|i: int| 0 <= i < n implies #[trigger] wht_spec(s)[i]
        == wht_spec(a)[i] + wht_spec(b)[i] by {
        let r = i as nat;
        lemma_ssum_concat(s, r, 0, 0, n, n);
        lemma_ssum_toff_shift(s, r, 0, n, n, n);
        lemma_ssum_congruence(s, 0, a, 0, r, 0, n);
        lemma_ssum_congruence(s, n, b, 0, r, 0, n);
        assert(wht_spec(s)[i] == ssum(s, r, 0, 0, 2 * n));
    }
    assert forall|i: int| 0 <= i < n implies #[trigger] wht_spec(s)[n + i]
        == wht_spec(a)[i] - wht_spec(b)[i] by {
        let r = i as nat;
        lemma_ssum_concat(s, (r + n) as nat, 0, 0, n, n);
        lemma_ssum_row_shift(s, r, 0, 0, n, n);
        lemma_ssum_row_flip(s, r, 0, n, n, n);
        lemma_ssum_congruence(s, 0, a, 0, r, 0, n);
        lemma_ssum_congruence(s, n, b, 0, r, 0, n);
        assert(wht_spec(s)[n + i] == ssum(s, (r + n) as nat, 0, 0, 2 * n));
    }
}

/// Applying the transform twice to a power-of-two-length sequence scales
/// every element by the length: `WHT(WHT(x)) = n * x`.
pub proof fn lemma_wht_involution(s: Seq<int>)
    requires
        is_pow2(s.len() as nat),
    ensures
        wht_spec(wht_spec(s)).len() == s.len(),
        forall|i: int| 0 <= i < s.len() ==> #[trigger] wht_spec(wht_spec(s))[i]
            == s.len() * s[i],
    decreases s.len(),
{
    let l = s.len() as int;
    if l == 1 {
        assert forall|i: int| 0 <= i < 1 implies #[trigger] wht_spec(wht_spec(s))[i]
            == s.len() * s[i] by {
            reveal_with_fuel(ssum, 2);
            assert(wht_spec(s)[0] == sign(0, 0) * s[0]);
            assert(wht_spec(wht_spec(s))[0] == sign(0, 0) * wht_spec(s)[0]);
            assert(sign(0, 0) == 1);
        }
    } else {
        let n = (l / 2) as nat;
        assert(is_pow2(n));
        assert(l == 2 * n);
        let a = s.subrange(0, n as int);
        let b = s.subrange(n as int, l);
        let wa = wht_spec(a);
        let wb = wht_spec(b);
        let u = seq_add(wa, wb);
        let v = seq_sub(wa, wb);
        lemma_wht_split(s, n);
        assert forall|i: int| 0 <= i < n implies wht_spec(s).subrange(0, n as int)[i] == u[i] by {
            assert(wht_spec(s)[i] == wa[i] + wb[i]);
        }
        assert forall|i: int| 0 <= i < n implies wht_spec(s).subrange(n as int, l)[i] == v[i] by {
            assert(wht_spec(s)[n + i] == wa[i] - wb[i]);
        }
        assert(wht_spec(s).subrange(0, n as int) =~= u);
        assert(wht_spec(s).subrange(n as int, l) =~= v);
        lemma_wht_split(wht_spec(s), n);
        lemma_wht_linear(wa, wb);
        lemma_wht_linear_sub(wa, wb);
        lemma_wht_involution(a);
        lemma_wht_involution(b);
        assert forall|i: int| 0 <= i < l implies #[trigger] wht_spec(wht_spec(s))[i]
            == s.len() * s[i] by {
            if i < n {
                assert(wht_spec(wht_spec(s))[i] == wht_spec(u)[i] + wht_spec(v)[i]);
                assert(wht_spec(u)[i] == wht_spec(wa)[i] + wht_spec(wb)[i]);
                assert(wht_spec(v)[i] == wht_spec(wa)[i] - wht_spec(wb)[i]);
                assert(wht_spec(wa)[i] == n * a[i]);
                assert(2 * ((n as int) * a[i]) == (2 * (n as int)) * a[i]) by (nonlinear_arith);
                assert(s[i] == a[i]);
            } else {
                let k = i - n;
                assert(wht_spec(wht_spec(s))[n + k] == wht_spec(u)[k] - wht_spec(v)[k]);
                assert(wht_spec(u)[k] == wht_spec(wa)[k] + wht_spec(wb)[k]);
                assert(wht_spec(v)[k] == wht_spec(wa)[k] - wht_spec(wb)[k]);
                assert(wht_spec(wb)[k] == n * b[k]);
                assert(2 * ((n as int) * b[k]) == (2 * (n as int)) * b[k]) by (nonlinear_arith);
                assert(s[i] == b[k]);
            }
        }
    }
}

/// A butterfly stage acts block by block: staging a concatenation whose
/// first part is whole blocks equals staging the parts separately.  This
/// is why disjoint chunks of blocks may be handed to different workers
/// within a stage, for any chunking, with the same result.
pub proof fn lemma_stage_chunked(a: Seq<int>, b: Seq<int>, h: nat)
    requires
        1 <= h,
        a.len() as int % (2 * (h as int)) == 0,
        b.len() as int % (2 * (h as int)) == 0,
    ensures
        stage_spec(a + b, h) == stage_spec(a, h) + stage_spec(b, h),
{
    let la = a.len() as int;
    let m = 2 * (h as int);
    let s = a + b;
    assert forall|x: int| 0 <= x < s.len() implies #[trigger] stage_spec(s, h)[x]
        == (stage_spec(a, h) + stage_spec(b, h))[x] by {
        if x < la {
            lemma_block_in_range(a.len(), x as nat, (2 * h) as nat);
            if x % m < h as int {
                assert(s[x] == a[x]);
                assert(s[x + h] == a[x + h]);
            } else {
                assert(s[x] == a[x]);
                assert(s[x - h] == a[x - h]);
            }
        } else {
            let y = x - la;
            lemma_fundamental_div_mod(la, m);
            let k = la / m;
            assert(x == m * k + y);
            assert(x % m == y % m) by {
                lemma_fundamental_div_mod(y, m);
                assert(y == m * (y / m) + y % m);
                assert(x == m * (k + (y / m)) + y % m) by (nonlinear_arith)
                    requires x == m * k + y, y == m * (y / m) + y % m;
                lemma_fundamental_div_mod_converse(x, m, k + (y / m), y % m);
            }
            lemma_block_in_range(b.len(), y as nat, (2 * h) as nat);
            if y % m < h as int {
                assert(s[x] == b[y]);
                assert(y + h < b.len());
                assert(s[x + h] == b[y + h]);
            } else {
                assert(s[x] == b[y]);
                assert(s[x - h] == b[y - h]);
            }
        }
    }
    assert(stage_spec(a + b, h) =~= stage_spec(a, h) + stage_spec(b, h));
}

} // verus!
