//! The mathematical model of the Walsh-Hadamard transform.
//!
//! `wht_spec` is the direct-sum definition: entry `i` of the result is the
//! signed sum over `j` of `sign(i, j) * s[j]`.  The butterfly algorithm is
//! specified through `stage_val`: after all stages of stride below `h` have
//! run, position `x` holds the local transform of its size-`h` block.

use vstd::prelude::*;
use crate::parity::{bdp, sign, is_pow2, lemma_bdp_shift_col,
    lemma_bdp_shift_row, lemma_bdp_flip, lemma_bdp_le_1};
use vstd::arithmetic::div_mod::{lemma_fundamental_div_mod, lemma_fundamental_div_mod_converse,
    lemma_mod_multiples_basic, lemma_small_mod};
use vstd::math::abs;

verus! {

/// The integer values of a sequence of machine words.
pub open spec fn to_ints(s: Seq<i64>) -> Seq<int> {
    s.map(|k: int, x: i64| x as int)
}

/// Signed partial sum: the sum over `t < cnt` of `sign(r, toff + t) * s[base + t]`.
pub open spec fn ssum(s: Seq<int>, r: nat, toff: nat, base: nat, cnt: nat) -> int
    decreases cnt,
{
    if cnt == 0 {
        0
    } else {
        ssum(s, r, toff, base, (cnt - 1) as nat)
            + sign(r, (toff + cnt - 1) as nat) * s[base + cnt - 1]
    }
}

/// Sum of the absolute values of `s[base], ..., s[base + cnt - 1]`.
pub open spec fn asum(s: Seq<int>, base: nat, cnt: nat) -> int
    decreases cnt,
{
    if cnt == 0 {
        0
    } else {
        asum(s, base, (cnt - 1) as nat) + abs(s[base + cnt - 1])
    }
}

/// The Walsh-Hadamard transform of `s`, by direct summation: entry `i` is
/// the sum over `j` of `sign(i, j) * s[j]`, unnormalized, in natural order.
pub open spec fn wht_spec(s: Seq<int>) -> Seq<int> {
    Seq::new(s.len(), |i: int| ssum(s, i as nat, 0, 0, s.len()))
}

/// The value position `x` holds once the butterfly has run all stages of
/// stride below `h`: the size-`h` local transform of the block around `x`.
pub open spec fn stage_val(s: Seq<int>, x: nat, h: nat) -> int
    recommends 1 <= h,
{
    ssum(s, x % h, 0, (x / h) * h, h)
}

/// `cur` is `orig` with all butterfly stages of stride below `h` applied.
pub open spec fn staged(orig: Seq<int>, cur: Seq<int>, h: nat) -> bool {
    &&& cur.len() == orig.len()
    &&& forall|x: int| 0 <= x < cur.len() ==> #[trigger] cur[x] == stage_val(orig, x as nat, h)
}

/// One butterfly stage of stride `h`: each pair `(x, x + h)` inside a block
/// of size `2h` is replaced by its sum and difference.
pub open spec fn stage_spec(s: Seq<int>, h: nat) -> Seq<int>
    recommends 1 <= h,
{
    Seq::new(s.len(), |x: int|
        if x % (2 * h as int) < h as int {
            s[x] + s[x + h]
        } else {
            s[x - h] - s[x]
        })
}

/// Every sum and difference formed by the stride-`h` stage stays within `i64`.
pub open spec fn pairs_fit(s: Seq<int>, h: nat) -> bool {
    forall|x: int| 0 <= x < s.len() && #[trigger] (x % (2 * h as int)) < h as int ==> {
        &&& i64::MIN <= s[x] + s[x + h] <= i64::MAX
        &&& i64::MIN <= s[x] - s[x + h] <= i64::MAX
    }
}

/// Splitting a signed partial sum at `a`.
pub proof fn lemma_ssum_concat(s: Seq<int>, r: nat, toff: nat, base: nat, a: nat, b: nat)
    ensures
        ssum(s, r, toff, base, a + b)
            == ssum(s, r, toff, base, a) + ssum(s, r, (toff + a) as nat, (base + a) as nat, b),
    decreases b,
{
    if b > 0 {
        lemma_ssum_concat(s, r, toff, base, a, (b - 1) as nat);
    }
}

/// Shifting the column offset by a power of two `h` does not change a
/// signed partial sum whose row index lies below `h`.
pub proof fn lemma_ssum_toff_shift(s: Seq<int>, r: nat, toff: nat, base: nat, cnt: nat, h: nat)
    requires
        is_pow2(h),
        r < h,
    ensures
        ssum(s, r, (toff + h) as nat, base, cnt) == ssum(s, r, toff, base, cnt),
    decreases cnt,
{
    if cnt > 0 {
        lemma_ssum_toff_shift(s, r, toff, base, (cnt - 1) as nat, h);
        lemma_bdp_shift_col(r, (toff + cnt - 1) as nat, h);
    }
}

/// Shifting the row index by a power of two `h` does not change a signed
/// partial sum over columns below `h`.
pub proof fn lemma_ssum_row_shift(s: Seq<int>, r: nat, toff: nat, base: nat, cnt: nat, h: nat)
    requires
        is_pow2(h),
        r < h,
        toff + cnt <= h,
    ensures
        ssum(s, (r + h) as nat, toff, base, cnt) == ssum(s, r, toff, base, cnt),
    decreases cnt,
{
    if cnt > 0 {
        lemma_ssum_row_shift(s, r, toff, base, (cnt - 1) as nat, h);
        lemma_bdp_shift_row(r, (toff + cnt - 1) as nat, h);
    }
}

/// Shifting the row index and the column offset by the same power of two
/// `h` negates a signed partial sum confined below `h`.
pub proof fn lemma_ssum_row_flip(s: Seq<int>, r: nat, toff: nat, base: nat, cnt: nat, h: nat)
    requires
        is_pow2(h),
        r < h,
        toff + cnt <= h,
    ensures
        ssum(s, (r + h) as nat, (toff + h) as nat, base, cnt) == -ssum(s, r, toff, base, cnt),
    decreases cnt,
{
    if cnt > 0 {
        lemma_ssum_row_flip(s, r, toff, base, (cnt - 1) as nat, h);
        lemma_bdp_flip(r, (toff + cnt - 1) as nat, h);
        lemma_bdp_le_1(r, (toff + cnt - 1) as nat);
    }
}

/// A signed partial sum over equal segments of two sequences is equal.
pub proof fn lemma_ssum_congruence(
    s: Seq<int>, bs: nat, t: Seq<int>, bt: nat, r: nat, toff: nat, cnt: nat,
)
    requires
        forall|k: int| 0 <= k < cnt ==> #[trigger] s[bs + k] == t[bt + k],
    ensures
        ssum(s, r, toff, bs, cnt) == ssum(t, r, toff, bt, cnt),
    decreases cnt,
{
    if cnt > 0 {
        lemma_ssum_congruence(s, bs, t, bt, r, toff, (cnt - 1) as nat);
        assert(s[bs + (cnt - 1)] == t[bt + (cnt - 1)]);
    }
}

pub proof fn lemma_asum_nonneg(s: Seq<int>, base: nat, cnt: nat)
    ensures
        0 <= asum(s, base, cnt),
    decreases cnt,
{
    if cnt > 0 {
        lemma_asum_nonneg(s, base, (cnt - 1) as nat);
    }
}

pub proof fn lemma_asum_concat(s: Seq<int>, base: nat, a: nat, b: nat)
    ensures
        asum(s, base, a + b) == asum(s, base, a) + asum(s, (base + a) as nat, b),
    decreases b,
{
    if b > 0 {
        lemma_asum_concat(s, base, a, (b - 1) as nat);
    }
}

/// The absolute sum of an inner segment is at most the absolute sum of the
/// whole sequence.
pub proof fn lemma_asum_inner_bound(s: Seq<int>, base: nat, cnt: nat)
    requires
        base + cnt <= s.len(),
    ensures
        asum(s, base, cnt) <= asum(s, 0, s.len()),
{
    lemma_asum_concat(s, 0, base, cnt);
    lemma_asum_concat(s, 0, base + cnt, (s.len() - base - cnt) as nat);
    lemma_asum_nonneg(s, 0, base);
    lemma_asum_nonneg(s, (base + cnt) as nat, (s.len() - base - cnt) as nat);
}

pub proof fn lemma_asum_congruence(s: Seq<int>, bs: nat, t: Seq<int>, bt: nat, cnt: nat)
    requires
        forall|k: int| 0 <= k < cnt ==> #[trigger] s[bs + k] == t[bt + k],
    ensures
        asum(s, bs, cnt) == asum(t, bt, cnt),
    decreases cnt,
{
    if cnt > 0 {
        lemma_asum_congruence(s, bs, t, bt, (cnt - 1) as nat);
        assert(s[bs + (cnt - 1)] == t[bt + (cnt - 1)]);
    }
}

/// A signed partial sum is bounded by the absolute sum of its segment.
pub proof fn lemma_ssum_abs_bound(s: Seq<int>, r: nat, toff: nat, base: nat, cnt: nat)
    ensures
        -asum(s, base, cnt) <= ssum(s, r, toff, base, cnt) <= asum(s, base, cnt),
    decreases cnt,
{
    if cnt > 0 {
        lemma_ssum_abs_bound(s, r, toff, base, (cnt - 1) as nat);
        let t = (toff + cnt - 1) as nat;
        let v = s[base + cnt - 1];
        if bdp(r, t) == 0 {
            assert(sign(r, t) * v == v);
        } else {
            assert(sign(r, t) * v == -v);
        }
    }
}

/// A smaller power of two divides a larger one.
pub proof fn lemma_pow2_divides(a: nat, b: nat)
    requires
        is_pow2(a),
        is_pow2(b),
        a <= b,
    ensures
        b % a == 0,
    decreases b,
{
    if a == 1 {
        assert(b % 1 == 0);
    } else {
        lemma_pow2_divides(a / 2, b / 2);
        let k = (b / 2) as int / (a / 2) as int;
        lemma_fundamental_div_mod((b / 2) as int, (a / 2) as int);
        lemma_fundamental_div_mod(b as int, 2);
        lemma_fundamental_div_mod(a as int, 2);
        assert(b == 2 * ((a / 2) * k));
        assert(2 * (((a / 2) as int) * k) == (2 * ((a / 2) as int)) * k) by (nonlinear_arith);
        assert(b == (a as int) * k);
        lemma_mod_multiples_basic(k, a as int);
        assert((k * a as int) % (a as int) == 0);
        assert(k * (a as int) == (a as int) * k) by (nonlinear_arith);
    }
}

/// Between two powers of two `h < l`, the doubled stride `2h` still lies
/// below `l` and divides it.
pub proof fn lemma_pow2_double_le(h: nat, l: nat)
    requires
        is_pow2(h),
        is_pow2(l),
        h < l,
    ensures
        is_pow2(2 * h),
        2 * h <= l,
        l % (2 * h) == 0,
{
    assert((2 * h) / 2 == h);
    assert(is_pow2(2 * h));
    lemma_pow2_divides(h, l);
    lemma_fundamental_div_mod(l as int, h as int);
    let m = l as int / h as int;
    assert(l == (h as int) * m);
    assert(m >= 2) by (nonlinear_arith)
        requires l == (h as int) * m, l > h, h >= 1;
    assert((h as int) * m >= (h as int) * 2) by (nonlinear_arith)
        requires m >= 2, h >= 1;
    lemma_pow2_divides(2 * h, l);
}

/// Dividing one power of two by a smaller one yields a power of two, and
/// the quotient is exact.
pub proof fn lemma_pow2_div_pow2(l: nat, k: nat)
    requires
        is_pow2(l),
        is_pow2(k),
        k <= l,
    ensures
        is_pow2(l / k),
        l == k * (l / k),
    decreases k,
{
    if k == 1 {
        assert(l / 1 == l);
    } else {
        lemma_pow2_div_pow2(l / 2, k / 2);
        vstd::arithmetic::div_mod::lemma_div_denominator(l as int, 2, (k / 2) as int);
        assert(l as int / k as int == (l as int / 2) / ((k / 2) as int)) by {
            assert(2 * ((k / 2) as int) == k as int);
        }
        assert(l / k == (l / 2) / (k / 2));
        assert(l / 2 == (k / 2) * ((l / 2) / (k / 2)));
        let q = (l / 2) / (k / 2);
        assert(l == 2 * (((k / 2) as int) * q));
        assert(2 * (((k / 2) as int) * q) == (2 * ((k / 2) as int)) * q) by (nonlinear_arith);
        assert(l == (k as int) * q);
    }
}

/// The block of size `m` around `x` lies inside the sequence when `m`
/// divides the length.
pub proof fn lemma_block_in_range(len: nat, x: nat, m: nat)
    requires
        1 <= m,
        len % m == 0,
        x < len,
    ensures
        x % m < m,
        (x / m) * m <= x,
        (x / m) * m + m <= len,
        x == (x / m) * m + x % m,
{
    lemma_fundamental_div_mod(x as int, m as int);
    lemma_fundamental_div_mod(len as int, m as int);
    let q = x as int / m as int;
    let ql = len as int / m as int;
    assert(q < ql) by (nonlinear_arith)
        requires
            m >= 1,
            x < len,
            x as int == (m as int) * q + (x as int) % (m as int),
            0 <= (x as int) % (m as int) < m,
            len == (m as int) * ql,
            q >= 0;
    assert((m as int) * (q + 1) <= (m as int) * ql) by (nonlinear_arith)
        requires m >= 1, q + 1 <= ql;
    assert((m as int) * ql == len);
    assert((m as int) * (q + 1) == (m as int) * q + (m as int)) by (nonlinear_arith);
    assert(((x / m) as int) * (m as int) == (m as int) * q) by (nonlinear_arith)
        requires q == (x / m) as int;
}

/// The two positions of a butterfly pair at stride `h` hold, at stage `2h`,
/// the sum and the difference of their stage-`h` values.
pub proof fn lemma_pair_step(s: Seq<int>, x: nat, h: nat)
    requires
        is_pow2(h),
        s.len() % (2 * h) == 0,
        x < s.len(),
        x % (2 * h) < h,
    ensures
        x + h < s.len(),
        (x + h) % (2 * h) == x % (2 * h) + h,
        stage_val(s, x, 2 * h) == stage_val(s, x, h) + stage_val(s, (x + h) as nat, h),
        stage_val(s, (x + h) as nat, 2 * h) == stage_val(s, x, h) - stage_val(s, (x + h) as nat, h),
{
    let m = 2 * h;
    lemma_block_in_range(s.len(), x, m);
    let q = x / m;
    let r = x % m;
    let base = q * m;
    assert(x + h < base + m);
    assert(x + h < s.len());

    // Decompose the relevant positions against strides h and 2h.
    assert(q * (2 * h) == (2 * q) * h) by (nonlinear_arith);
    lemma_fundamental_div_mod_converse((x + h) as int, m as int, q as int, (r + h) as int);
    assert((x + h) % m == r + h);
    lemma_fundamental_div_mod_converse(x as int, h as int, (2 * q) as int, r as int);
    assert(x % h == r);
    assert((x / h) * h == base) by {
        assert(x as int / h as int == 2 * q as int);
        assert((2 * (q as int)) * (h as int) == (q as int) * (2 * (h as int))) by (nonlinear_arith);
    }
    assert((2 * (q as int) + 1) * (h as int) == (q as int) * (2 * (h as int)) + (h as int)) by (nonlinear_arith);
    lemma_fundamental_div_mod_converse((x + h) as int, h as int, 2 * q as int + 1, r as int);
    assert((x + h) % h == r);
    assert(((x + h) / h) * h == base + h) by {
        assert((x + h) as int / h as int == 2 * q as int + 1);
    }
    assert(((x + h) / (2 * h)) * (2 * h) == base) by {
        lemma_fundamental_div_mod_converse((x + h) as int, m as int, q as int, (r + h) as int);
    }

    // Both stage-2h values split into stage-h partial sums.
    assert(stage_val(s, x, m) == ssum(s, r, 0, base, m));
    lemma_ssum_concat(s, r, 0, base, h, h);
    lemma_ssum_toff_shift(s, r, 0, (base + h) as nat, h, h);
    assert(stage_val(s, x, h) == ssum(s, r, 0, base, h));
    assert(stage_val(s, (x + h) as nat, h) == ssum(s, r, 0, (base + h) as nat, h));

    assert(stage_val(s, (x + h) as nat, m) == ssum(s, (r + h) as nat, 0, base, m));
    lemma_ssum_concat(s, (r + h) as nat, 0, base, h, h);
    lemma_ssum_row_shift(s, r, 0, base, h, h);
    lemma_ssum_row_flip(s, r, 0, (base + h) as nat, h, h);
}

/// Every stage value is bounded by the absolute sum of the whole input.
pub proof fn lemma_stage_val_bound(s: Seq<int>, x: nat, h: nat)
    requires
        1 <= h,
        s.len() % h == 0,
        x < s.len(),
    ensures
        -asum(s, 0, s.len()) <= stage_val(s, x, h) <= asum(s, 0, s.len()),
{
    lemma_block_in_range(s.len(), x, h);
    let base = (x / h) * h;
    lemma_ssum_abs_bound(s, x % h, 0, base, h);
    lemma_asum_inner_bound(s, base, h);
    lemma_asum_nonneg(s, base, h);
}

/// Before any stage has run, the array is its own stage-1 view.
pub proof fn lemma_staged_init(orig: Seq<int>)
    ensures
        staged(orig, orig, 1),
{
    assert forall|x: int| 0 <= x < orig.len() implies #[trigger] orig[x]
        == stage_val(orig, x as nat, 1) by {
        let xn = x as nat;
        assert(xn % 1 == 0);
        assert(xn / 1 == xn);
        assert(stage_val(orig, xn, 1) == ssum(orig, 0, 0, xn, 1));
        reveal_with_fuel(ssum, 2);
        assert(ssum(orig, 0, 0, xn, 1) == sign(0, 0) * orig[x]);
        assert(sign(0, 0) == 1);
    }
}

/// Once the stride has reached the length, the array is the transform.
pub proof fn lemma_staged_final(orig: Seq<int>, cur: Seq<int>)
    requires
        staged(orig, cur, orig.len()),
        orig.len() >= 1,
    ensures
        cur == wht_spec(orig),
{
    let l = orig.len();
    assert forall|x: int| 0 <= x < l implies #[trigger] cur[x]
        == ssum(orig, x as nat, 0, 0, l) by {
        let xn = x as nat;
        lemma_small_mod(xn, l);
        assert(xn % l == xn);
        assert(xn / l == 0) by {
            vstd::arithmetic::div_mod::lemma_basic_div(x, l as int);
        }
        assert((xn / l) * l == 0);
        assert(cur[x] == stage_val(orig, xn, l));
    }
    assert(cur =~= wht_spec(orig));
}

/// Applying the stride-`h` stage advances a staged array to stage `2h`.
pub proof fn lemma_stage_advance(orig: Seq<int>, cur: Seq<int>, h: nat)
    requires
        staged(orig, cur, h),
        is_pow2(h),
        cur.len() % (2 * h) == 0,
    ensures
        staged(orig, stage_spec(cur, h), 2 * h),
{
    let nxt = stage_spec(cur, h);
    let l = cur.len();
    assert forall|x: int| 0 <= x < l implies #[trigger] nxt[x]
        == stage_val(orig, x as nat, 2 * h) by {
        let m = 2 * h;
        let xn = x as nat;
        if xn % m < h {
            lemma_pair_step(orig, xn, h);
            assert(nxt[x] == cur[x] + cur[x + h]);
        } else {
            let y = (xn - h) as nat;
            lemma_block_in_range(l, xn, m);
            let q = xn / m;
            let r = xn % m;
            lemma_fundamental_div_mod_converse(y as int, m as int, q as int, (r - h) as int);
            assert(y % m == r - h);
            lemma_pair_step(orig, y, h);
            assert(nxt[x] == cur[x - h] - cur[x]);
            assert(cur[x - h] == stage_val(orig, y, h));
        }
    }
}

/// A staged array whose input has a bounded absolute sum admits the next
/// stage without leaving `i64`.
pub proof fn lemma_stage_fit(orig: Seq<int>, cur: Seq<int>, h: nat)
    requires
        staged(orig, cur, h),
        is_pow2(h),
        cur.len() % (2 * h) == 0,
        asum(orig, 0, orig.len()) <= i64::MAX,
    ensures
        pairs_fit(cur, h),
{
    let l = cur.len();
    assert forall|x: int| 0 <= x < l && #[trigger] (x % (2 * h as int)) < h as int implies {
        &&& i64::MIN <= cur[x] + cur[x + h] <= i64::MAX
        &&& i64::MIN <= cur[x] - cur[x + h] <= i64::MAX
    } by {
        let xn = x as nat;
        assert(xn % (2 * h) == x % (2 * h as int));
        lemma_pair_step(orig, xn, h);
        lemma_stage_val_bound(orig, xn, 2 * h);
        lemma_stage_val_bound(orig, (xn + h) as nat, 2 * h);
        assert(cur[x] + cur[x + h] == stage_val(orig, xn, 2 * h));
        assert(cur[x] - cur[x + h] == stage_val(orig, (xn + h) as nat, 2 * h));
    }
}

} // verus!
