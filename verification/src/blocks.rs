//! Block-vectorized Walsh-Hadamard transform.
//!
//! The array is cut into fixed-size blocks; a closed-form kernel transforms
//! each block, the blocks move into lane slots of the scratch buffer, the
//! remaining butterfly stages run lane-wide (each lane operation acting on
//! all positions of the lane at once), and the lanes scatter back.  The
//! whole composition is a reassociation of the plain butterfly and computes
//! exactly `wht_spec` of the input.

use vstd::prelude::*;
use crate::parity::{is_pow2, is_power_of_two};
use crate::transform::{to_ints, wht_spec, asum, stage_val, staged,
    lemma_pair_step, lemma_stage_val_bound, lemma_ssum_congruence,
    lemma_asum_congruence, lemma_asum_inner_bound, lemma_pow2_div_pow2,
    lemma_staged_final, lemma_asum_nonneg};
use crate::kernels::{wht4, wht8};
use vstd::arithmetic::div_mod::lemma_fundamental_div_mod_converse;

verus! {

/// A lane of four consecutive elements: one transformed block, treated as a
/// single wide element by the outer butterfly stages.
#[derive(Clone, Copy)]
pub struct Lane4 {
    pub e: [i64; 4],
}

/// Doubling keeps a number a power of two.
pub proof fn lemma_pow2_double(n: nat)
    requires
        is_pow2(n),
    ensures
        is_pow2(2 * n),
{
    assert((2 * n) % 2 == 0);
    assert((2 * n) / 2 == n);
}

/// The first `nb` lanes hold, position by position, the stage-`hh` values
/// of the flattened array.
pub open spec fn lanes4_staged(o: Seq<int>, s: Seq<Lane4>, nb: int, hh: nat) -> bool {
    forall|b: int, p: int| 0 <= b < nb && 0 <= p < 4 ==>
        #[trigger] s[b].e@[p] as int == stage_val(o, (4 * b + p) as nat, hh)
}

/// A lane pair `(j, j + hl)` at lane stride `hl` is, on the flattened
/// array, a butterfly pair at stride `4 hl`: position `p` of the two lanes
/// combines to the stage-`8 hl` values, which stay within the absolute sum
/// of the input.
proof fn lemma_lane4_pair_step(o: Seq<int>, nb: nat, hl: nat, q: nat, i: nat, j: nat, p: nat)
    requires
        is_pow2(hl),
        o.len() == 4 * nb,
        nb % (2 * hl) == 0,
        q * (2 * hl) == i,
        i + 2 * hl <= nb,
        i <= j < i + hl,
        p < 4,
    ensures
        4 * (j + hl) + p < o.len(),
        stage_val(o, (4 * j + p) as nat, 8 * hl)
            == stage_val(o, (4 * j + p) as nat, 4 * hl)
                + stage_val(o, (4 * (j + hl) + p) as nat, 4 * hl),
        stage_val(o, (4 * (j + hl) + p) as nat, 8 * hl)
            == stage_val(o, (4 * j + p) as nat, 4 * hl)
                - stage_val(o, (4 * (j + hl) + p) as nat, 4 * hl),
        -asum(o, 0, o.len()) <= stage_val(o, (4 * j + p) as nat, 8 * hl) <= asum(o, 0, o.len()),
        -asum(o, 0, o.len()) <= stage_val(o, (4 * (j + hl) + p) as nat, 8 * hl)
            <= asum(o, 0, o.len()),
{
    let l = o.len();
    let hh = 4 * hl;
    lemma_pow2_double(hl);
    lemma_pow2_double(2 * hl);
    assert(is_pow2(hh)) by {
        assert(4 * (hl as int) == 2 * (2 * (hl as int)));
    }
    assert(l as int % (2 * (hh as int)) == 0) by {
        let k = nb as int / (2 * (hl as int));
        vstd::arithmetic::div_mod::lemma_fundamental_div_mod(nb as int, 2 * (hl as int));
        assert(nb as int == (2 * (hl as int)) * k);
        assert(4 * ((2 * (hl as int)) * k) == (8 * (hl as int)) * k) by (nonlinear_arith);
        lemma_fundamental_div_mod_converse(l as int, 8 * (hl as int), k, 0);
    }
    let x = (4 * j + p) as nat;
    assert(x as int == (q as int) * (8 * (hl as int)) + (4 * ((j - i) as int) + p)) by {
        assert((q as int) * (2 * (hl as int)) == i);
        assert(4 * ((q as int) * (2 * (hl as int))) == (q as int) * (8 * (hl as int)))
            by (nonlinear_arith);
    }
    lemma_fundamental_div_mod_converse(
        x as int, 8 * (hl as int), q as int, 4 * ((j - i) as int) + p as int);
    assert(x < l) by {
        assert((q as int + 1) * (8 * (hl as int))
            == (q as int) * (8 * (hl as int)) + 8 * (hl as int)) by (nonlinear_arith);
        assert((q as int + 1) * (2 * (hl as int))
            == (q as int) * (2 * (hl as int)) + 2 * (hl as int)) by (nonlinear_arith);
        assert((q as int + 1) * (2 * (hl as int)) <= nb as int);
        assert(((q as int + 1) * (2 * (hl as int))) * 4 == (q as int + 1) * (8 * (hl as int)))
            by (nonlinear_arith);
        assert(((q as int + 1) * (2 * (hl as int))) * 4 <= (nb as int) * 4) by (nonlinear_arith)
            requires (q as int + 1) * (2 * (hl as int)) <= nb as int;
    }
    assert(x % (2 * hh) < hh);
    lemma_pair_step(o, x, hh);
    lemma_stage_val_bound(o, x, 2 * hh);
    lemma_stage_val_bound(o, (x + hh) as nat, 2 * hh);
    assert(4 * (j + hl) + p == x + hh);
    assert(2 * hh == 8 * hl);
    assert(stage_val(o, (4 * (j + hl) + p) as nat, 8 * hl)
        == stage_val(o, (x + hh) as nat, 2 * hh));
}

/// Block-vectorized transform with block width 4, in place.
///
/// Step 1 applies the size-4 kernel to each contiguous block of 4; step 2
/// moves each transformed block into a lane of `scratch`; step 3 runs the
/// remaining butterfly stages over whole lanes; step 4 scatters the lanes
/// back.  The result equals `wht_spec` of the input, exactly as for `fwht`.
/// The contents of `scratch` are unspecified afterwards.
pub fn fwht4(data: &mut Vec<i64>, scratch: &mut Vec<Lane4>)
    requires
        is_pow2(old(data)@.len() as nat),
        old(data)@.len() % 4 == 0,
        old(scratch)@.len() >= old(data)@.len() / 4,
        asum(to_ints(old(data)@), 0, old(data)@.len() as nat) <= i64::MAX,
    ensures
        final(data)@.len() == old(data)@.len(),
        final(scratch)@.len() == old(scratch)@.len(),
        to_ints(final(data)@) == wht_spec(to_ints(old(data)@)),
{
    let ghost o = to_ints(data@);
    let l = data.len();
    let nb = l / 4;
    proof {
        reveal_with_fuel(is_pow2, 4);
        lemma_pow2_div_pow2(l as nat, 4);
        assert(l == 4 * nb);
        assert(is_pow2(nb as nat));
    }

    // Step 1 and 2: kernel each block of 4, then fill its lane.
    let mut b: usize = 0;
    while b < nb
        invariant
            data@.len() == l,
            o == to_ints(data@),
            o.len() == l,
            scratch@.len() == old(scratch)@.len(),
            scratch@.len() >= nb,
            l == 4 * nb,
            b <= nb,
            asum(o, 0, l as nat) <= i64::MAX,
            lanes4_staged(o, scratch@, b as int, 4),
        decreases nb - b,
    {
        let i0 = 4 * b;
        let mut c: [i64; 4] = [data[i0], data[i0 + 1], data[i0 + 2], data[i0 + 3]];
        let ghost cin = to_ints(c@);
        proof {
            assert(forall|k: int| 0 <= k < 4 ==> #[trigger] cin[k] == o[4 * (b as int) + k]);
            lemma_asum_congruence(cin, 0, o, (4 * b) as nat, 4);
            lemma_asum_inner_bound(o, (4 * b) as nat, 4);
            lemma_asum_nonneg(o, (4 * b) as nat, 4);
        }
        wht4(&mut c);
        scratch[b] = Lane4 { e: c };
        proof {
            assert forall|p: int| 0 <= p < 4 implies scratch@[b as int].e@[p] as int
                == stage_val(o, (4 * (b as int) + p) as nat, 4) by {
                let x = 4 * (b as int) + p;
                lemma_fundamental_div_mod_converse(x, 4, b as int, p);
                lemma_ssum_congruence(cin, 0, o, (4 * b) as nat, p as nat, 0, 4);
                assert(to_ints(c@)[p] == wht_spec(cin)[p]);
            }
        }
        b = b + 1;
    }

    // Step 3: the remaining stages, lane-wide over the scratch buffer.
    let mut hl: usize = 1;
    while hl < nb
        invariant
            data@.len() == l,
            o.len() == l,
            scratch@.len() == old(scratch)@.len(),
            scratch@.len() >= nb,
            l == 4 * nb,
            nb >= 1,
            is_pow2(nb as nat),
            is_pow2(hl as nat),
            1 <= hl <= nb,
            asum(o, 0, l as nat) <= i64::MAX,
            lanes4_staged(o, scratch@, nb as int, (4 * hl) as nat),
        decreases nb - hl,
    {
        proof {
            crate::transform::lemma_pow2_double_le(hl as nat, nb as nat);
        }
        let mut i: usize = 0;
        while i < nb
            invariant
                data@.len() == l,
                o.len() == l,
                scratch@.len() == old(scratch)@.len(),
                scratch@.len() >= nb,
                l == 4 * nb,
                is_pow2(hl as nat),
                1 <= hl,
                2 * hl <= nb,
                nb as int % (2 * (hl as int)) == 0,
                i <= nb,
                i as int % (2 * (hl as int)) == 0,
                asum(o, 0, l as nat) <= i64::MAX,
                lanes4_staged(o, scratch@, i as int, (8 * hl) as nat),
                forall|bb: int, p: int| i <= bb < nb && 0 <= p < 4 ==>
                    #[trigger] scratch@[bb].e@[p] as int
                        == stage_val(o, (4 * bb + p) as nat, (4 * hl) as nat),
            decreases nb - i,
        {
            proof {
                crate::transform::lemma_block_in_range(nb as nat, i as nat, (2 * hl) as nat);
            }
            let ghost q = i as nat / (2 * hl as nat);
            let mut j = i;
            while j < i + hl
                invariant
                    data@.len() == l,
                    o.len() == l,
                    scratch@.len() == old(scratch)@.len(),
                    scratch@.len() >= nb,
                    l == 4 * nb,
                    is_pow2(hl as nat),
                    1 <= hl,
                    i + 2 * (hl as int) <= nb,
                    nb as int % (2 * (hl as int)) == 0,
                    i as int % (2 * (hl as int)) == 0,
                    q == i as nat / (2 * hl as nat),
                    q * (2 * hl as nat) == i,
                    i <= j <= i + hl,
                    asum(o, 0, l as nat) <= i64::MAX,
                    lanes4_staged(o, scratch@, i as int, (8 * hl) as nat),
                    forall|bb: int, p: int| (i <= bb < j || i + hl <= bb < j + hl) && 0 <= p < 4 ==>
                        #[trigger] scratch@[bb].e@[p] as int
                            == stage_val(o, (4 * bb + p) as nat, (8 * hl) as nat),
                    forall|bb: int, p: int| (j <= bb < i + hl || j + hl <= bb < nb) && 0 <= p < 4 ==>
                        #[trigger] scratch@[bb].e@[p] as int
                            == stage_val(o, (4 * bb + p) as nat, (4 * hl) as nat),
                decreases i + hl - j,
            {
                proof {
                    lemma_lane4_pair_step(o, nb as nat, hl as nat, q, i as nat, j as nat, 0);
                    lemma_lane4_pair_step(o, nb as nat, hl as nat, q, i as nat, j as nat, 1);
                    lemma_lane4_pair_step(o, nb as nat, hl as nat, q, i as nat, j as nat, 2);
                    lemma_lane4_pair_step(o, nb as nat, hl as nat, q, i as nat, j as nat, 3);
                    assert(scratch@[j as int].e@[0] as int
                        == stage_val(o, (4 * (j as int) + 0) as nat, (4 * hl) as nat));
                    assert(scratch@[j as int].e@[1] as int
                        == stage_val(o, (4 * (j as int) + 1) as nat, (4 * hl) as nat));
                    assert(scratch@[j as int].e@[2] as int
                        == stage_val(o, (4 * (j as int) + 2) as nat, (4 * hl) as nat));
                    assert(scratch@[j as int].e@[3] as int
                        == stage_val(o, (4 * (j as int) + 3) as nat, (4 * hl) as nat));
                    assert(scratch@[j + hl].e@[0] as int
                        == stage_val(o, (4 * (j + hl as int) + 0) as nat, (4 * hl) as nat));
                    assert(scratch@[j + hl].e@[1] as int
                        == stage_val(o, (4 * (j + hl as int) + 1) as nat, (4 * hl) as nat));
                    assert(scratch@[j + hl].e@[2] as int
                        == stage_val(o, (4 * (j + hl as int) + 2) as nat, (4 * hl) as nat));
                    assert(scratch@[j + hl].e@[3] as int
                        == stage_val(o, (4 * (j + hl as int) + 3) as nat, (4 * hl) as nat));
                }
                let a = scratch[j];
                let c = scratch[j + hl];
                let s_lane = Lane4 {
                    e: [a.e[0] + c.e[0], a.e[1] + c.e[1], a.e[2] + c.e[2], a.e[3] + c.e[3]],
                };
                let d_lane = Lane4 {
                    e: [a.e[0] - c.e[0], a.e[1] - c.e[1], a.e[2] - c.e[2], a.e[3] - c.e[3]],
                };
                let ghost spre = scratch@;
                scratch[j] = s_lane;
                scratch[j + hl] = d_lane;
                proof {
                    assert forall|bb: int, p: int|
                        0 <= bb < nb && bb != j && bb != j + hl && 0 <= p < 4
                        implies #[trigger] scratch@[bb].e@[p] == spre[bb].e@[p] by {
                        assert(scratch@[bb] == spre[bb]);
                    }
                    assert forall|p: int| 0 <= p < 4 implies
                        scratch@[j as int].e@[p] as int
                            == stage_val(o, (4 * (j as int) + p) as nat, (8 * hl) as nat)
                        && scratch@[j + hl].e@[p] as int
                            == stage_val(o, (4 * (j + hl as int) + p) as nat, (8 * hl) as nat) by {
                        assert(scratch@[j as int].e@[p] == s_lane.e@[p]);
                        assert(scratch@[j + hl].e@[p] == d_lane.e@[p]);
                        assert(s_lane.e@[p] == spre[j as int].e@[p] + spre[j + hl].e@[p]);
                        assert(d_lane.e@[p] == spre[j as int].e@[p] - spre[j + hl].e@[p]);
                    }
                }
                j = j + 1;
            }
            i = i + hl + hl;
            proof {
                assert((q as int + 1) * (2 * (hl as int))
                    == (q as int) * (2 * (hl as int)) + 2 * (hl as int)) by (nonlinear_arith);
                lemma_fundamental_div_mod_converse(
                    i as int, 2 * (hl as int), q as int + 1, 0);
            }
        }
        hl = hl + hl;
    }
    proof {
        assert(hl == nb);
        assert(lanes4_staged(o, scratch@, nb as int, l as nat));
    }

    // Step 4: scatter the lanes back into `data`.
    let mut b2: usize = 0;
    while b2 < nb
        invariant
            data@.len() == l,
            o.len() == l,
            scratch@.len() == old(scratch)@.len(),
            scratch@.len() >= nb,
            l == 4 * nb,
            b2 <= nb,
            lanes4_staged(o, scratch@, nb as int, l as nat),
            forall|x: int| 0 <= x < 4 * b2 ==> #[trigger] to_ints(data@)[x]
                == stage_val(o, x as nat, l as nat),
        decreases nb - b2,
    {
        let i0 = 4 * b2;
        let lane = scratch[b2];
        let ghost dpre = data@;
        data[i0] = lane.e[0];
        data[i0 + 1] = lane.e[1];
        data[i0 + 2] = lane.e[2];
        data[i0 + 3] = lane.e[3];
        proof {
            assert forall|x: int| 0 <= x < 4 * (b2 as int) + 4 implies
                #[trigger] to_ints(data@)[x] == stage_val(o, x as nat, l as nat) by {
                if x < 4 * (b2 as int) {
                    assert(data@[x] == dpre[x]);
                    assert(to_ints(dpre)[x] == stage_val(o, x as nat, l as nat));
                } else {
                    let p = x - 4 * (b2 as int);
                    assert(scratch@[b2 as int].e@[p] as int
                        == stage_val(o, (4 * (b2 as int) + p) as nat, l as nat));
                    assert(lane.e@ == scratch@[b2 as int].e@);
                    assert(data@[x] == lane.e@[p]);
                }
            }
        }
        b2 = b2 + 1;
    }
    proof {
        assert(staged(o, to_ints(data@), l as nat));
        lemma_staged_final(o, to_ints(data@));
    }
}

/// A lane of eight consecutive elements: one transformed block, treated as
/// a single wide element by the outer butterfly stages.
#[derive(Clone, Copy)]
pub struct Lane8 {
    pub e: [i64; 8],
}

/// The first `nb` lanes hold, position by position, the stage-`hh` values
/// of the flattened array.
pub open spec fn lanes8_staged(o: Seq<int>, s: Seq<Lane8>, nb: int, hh: nat) -> bool {
    forall|b: int, p: int| 0 <= b < nb && 0 <= p < 8 ==>
        #[trigger] s[b].e@[p] as int == stage_val(o, (8 * b + p) as nat, hh)
}

/// A lane pair `(j, j + hl)` at lane stride `hl` is, on the flattened
/// array, a butterfly pair at stride `8 hl`: position `p` of the two lanes
/// combines to the stage-`16 hl` values, which stay within the absolute
/// sum of the input.
proof fn lemma_lane8_pair_step(o: Seq<int>, nb: nat, hl: nat, q: nat, i: nat, j: nat, p: nat)
    requires
        is_pow2(hl),
        o.len() == 8 * nb,
        nb % (2 * hl) == 0,
        q * (2 * hl) == i,
        i + 2 * hl <= nb,
        i <= j < i + hl,
        p < 8,
    ensures
        8 * (j + hl) + p < o.len(),
        stage_val(o, (8 * j + p) as nat, 16 * hl)
            == stage_val(o, (8 * j + p) as nat, 8 * hl)
                + stage_val(o, (8 * (j + hl) + p) as nat, 8 * hl),
        stage_val(o, (8 * (j + hl) + p) as nat, 16 * hl)
            == stage_val(o, (8 * j + p) as nat, 8 * hl)
                - stage_val(o, (8 * (j + hl) + p) as nat, 8 * hl),
        -asum(o, 0, o.len()) <= stage_val(o, (8 * j + p) as nat, 16 * hl) <= asum(o, 0, o.len()),
        -asum(o, 0, o.len()) <= stage_val(o, (8 * (j + hl) + p) as nat, 16 * hl)
            <= asum(o, 0, o.len()),
{
    let l = o.len();
    let hh = 8 * hl;
    lemma_pow2_double(hl);
    lemma_pow2_double(2 * hl);
    lemma_pow2_double(4 * hl);
    assert(is_pow2(hh)) by {
        assert(4 * (hl as int) == 2 * (2 * (hl as int)));
        assert(8 * (hl as int) == 2 * (4 * (hl as int)));
    }
    assert(l as int % (2 * (hh as int)) == 0) by {
        let k = nb as int / (2 * (hl as int));
        vstd::arithmetic::div_mod::lemma_fundamental_div_mod(nb as int, 2 * (hl as int));
        assert(nb as int == (2 * (hl as int)) * k);
        assert(8 * ((2 * (hl as int)) * k) == (16 * (hl as int)) * k) by (nonlinear_arith);
        lemma_fundamental_div_mod_converse(l as int, 16 * (hl as int), k, 0);
    }
    let x = (8 * j + p) as nat;
    assert(x as int == (q as int) * (16 * (hl as int)) + (8 * ((j - i) as int) + p)) by {
        assert((q as int) * (2 * (hl as int)) == i);
        assert(8 * ((q as int) * (2 * (hl as int))) == (q as int) * (16 * (hl as int)))
            by (nonlinear_arith);
    }
    lemma_fundamental_div_mod_converse(
        x as int, 16 * (hl as int), q as int, 8 * ((j - i) as int) + p as int);
    assert(x < l) by {
        assert((q as int + 1) * (16 * (hl as int))
            == (q as int) * (16 * (hl as int)) + 16 * (hl as int)) by (nonlinear_arith);
        assert((q as int + 1) * (2 * (hl as int))
            == (q as int) * (2 * (hl as int)) + 2 * (hl as int)) by (nonlinear_arith);
        assert((q as int + 1) * (2 * (hl as int)) <= nb as int);
        assert(((q as int + 1) * (2 * (hl as int))) * 8 == (q as int + 1) * (16 * (hl as int)))
            by (nonlinear_arith);
        assert(((q as int + 1) * (2 * (hl as int))) * 8 <= (nb as int) * 8) by (nonlinear_arith)
            requires (q as int + 1) * (2 * (hl as int)) <= nb as int;
    }
    assert(x % (2 * hh) < hh);
    lemma_pair_step(o, x, hh);
    lemma_stage_val_bound(o, x, 2 * hh);
    lemma_stage_val_bound(o, (x + hh) as nat, 2 * hh);
    assert(8 * (j + hl) + p == x + hh);
    assert(2 * hh == 16 * hl);
    assert(stage_val(o, (8 * (j + hl) + p) as nat, 16 * hl)
        == stage_val(o, (x + hh) as nat, 2 * hh));
}

/// Block-vectorized transform with block width 8, in place.
///
/// The same four-step composition as `fwht4`, with the size-8 kernel and
/// eight-wide lanes.  The result equals `wht_spec` of the input; the
/// contents of `scratch` are unspecified afterwards.
pub fn fwht8(data: &mut Vec<i64>, scratch: &mut Vec<Lane8>)
    requires
        is_pow2(old(data)@.len() as nat),
        old(data)@.len() % 8 == 0,
        old(scratch)@.len() >= old(data)@.len() / 8,
        asum(to_ints(old(data)@), 0, old(data)@.len() as nat) <= i64::MAX,
    ensures
        final(data)@.len() == old(data)@.len(),
        final(scratch)@.len() == old(scratch)@.len(),
        to_ints(final(data)@) == wht_spec(to_ints(old(data)@)),
{
    let ghost o = to_ints(data@);
    let l = data.len();
    let nb = l / 8;
    proof {
        reveal_with_fuel(is_pow2, 4);
        lemma_pow2_div_pow2(l as nat, 8);
        assert(l == 8 * nb);
        assert(is_pow2(nb as nat));
    }

    // Step 1 and 2: kernel each block of 8, then fill its lane.
    let mut b: usize = 0;
    while b < nb
        invariant
            data@.len() == l,
            o == to_ints(data@),
            o.len() == l,
            scratch@.len() == old(scratch)@.len(),
            scratch@.len() >= nb,
            l == 8 * nb,
            b <= nb,
            asum(o, 0, l as nat) <= i64::MAX,
            lanes8_staged(o, scratch@, b as int, 8),
        decreases nb - b,
    {
        let i0 = 8 * b;
        let mut c: [i64; 8] = [
            data[i0], data[i0 + 1], data[i0 + 2], data[i0 + 3],
            data[i0 + 4], data[i0 + 5], data[i0 + 6], data[i0 + 7],
        ];
        let ghost cin = to_ints(c@);
        proof {
            assert(forall|k: int| 0 <= k < 8 ==> #[trigger] cin[k] == o[8 * (b as int) + k]);
            lemma_asum_congruence(cin, 0, o, (8 * b) as nat, 8);
            lemma_asum_inner_bound(o, (8 * b) as nat, 8);
            lemma_asum_nonneg(o, (8 * b) as nat, 8);
        }
        wht8(&mut c);
        scratch[b] = Lane8 { e: c };
        proof {
            assert forall|p: int| 0 <= p < 8 implies scratch@[b as int].e@[p] as int
                == stage_val(o, (8 * (b as int) + p) as nat, 8) by {
                let x = 8 * (b as int) + p;
                lemma_fundamental_div_mod_converse(x, 8, b as int, p);
                lemma_ssum_congruence(cin, 0, o, (8 * b) as nat, p as nat, 0, 8);
                assert(to_ints(c@)[p] == wht_spec(cin)[p]);
            }
        }
        b = b + 1;
    }

    // Step 3: the remaining stages, lane-wide over the scratch buffer.
    let mut hl: usize = 1;
    while hl < nb
        invariant
            data@.len() == l,
            o.len() == l,
            scratch@.len() == old(scratch)@.len(),
            scratch@.len() >= nb,
            l == 8 * nb,
            nb >= 1,
            is_pow2(nb as nat),
            is_pow2(hl as nat),
            1 <= hl <= nb,
            asum(o, 0, l as nat) <= i64::MAX,
            lanes8_staged(o, scratch@, nb as int, (8 * hl) as nat),
        decreases nb - hl,
    {
        proof {
            crate::transform::lemma_pow2_double_le(hl as nat, nb as nat);
        }
        let mut i: usize = 0;
        while i < nb
            invariant
                data@.len() == l,
                o.len() == l,
                scratch@.len() == old(scratch)@.len(),
                scratch@.len() >= nb,
                l == 8 * nb,
                is_pow2(hl as nat),
                1 <= hl,
                2 * hl <= nb,
                nb as int % (2 * (hl as int)) == 0,
                i <= nb,
                i as int % (2 * (hl as int)) == 0,
                asum(o, 0, l as nat) <= i64::MAX,
                lanes8_staged(o, scratch@, i as int, (16 * hl) as nat),
                forall|bb: int, p: int| i <= bb < nb && 0 <= p < 8 ==>
                    #[trigger] scratch@[bb].e@[p] as int
                        == stage_val(o, (8 * bb + p) as nat, (8 * hl) as nat),
            decreases nb - i,
        {
            proof {
                crate::transform::lemma_block_in_range(nb as nat, i as nat, (2 * hl) as nat);
            }
            let ghost q = i as nat / (2 * hl as nat);
            let mut j = i;
            while j < i + hl
                invariant
                    data@.len() == l,
                    o.len() == l,
                    scratch@.len() == old(scratch)@.len(),
                    scratch@.len() >= nb,
                    l == 8 * nb,
                    is_pow2(hl as nat),
                    1 <= hl,
                    i + 2 * (hl as int) <= nb,
                    nb as int % (2 * (hl as int)) == 0,
                    i as int % (2 * (hl as int)) == 0,
                    q == i as nat / (2 * hl as nat),
                    q * (2 * hl as nat) == i,
                    i <= j <= i + hl,
                    asum(o, 0, l as nat) <= i64::MAX,
                    lanes8_staged(o, scratch@, i as int, (16 * hl) as nat),
                    forall|bb: int, p: int| (i <= bb < j || i + hl <= bb < j + hl) && 0 <= p < 8 ==>
                        #[trigger] scratch@[bb].e@[p] as int
                            == stage_val(o, (8 * bb + p) as nat, (16 * hl) as nat),
                    forall|bb: int, p: int| (j <= bb < i + hl || j + hl <= bb < nb) && 0 <= p < 8 ==>
                        #[trigger] scratch@[bb].e@[p] as int
                            == stage_val(o, (8 * bb + p) as nat, (8 * hl) as nat),
                decreases i + hl - j,
            {
                proof {
                    lemma_lane8_pair_step(o, nb as nat, hl as nat, q, i as nat, j as nat, 0);
                    lemma_lane8_pair_step(o, nb as nat, hl as nat, q, i as nat, j as nat, 1);
                    lemma_lane8_pair_step(o, nb as nat, hl as nat, q, i as nat, j as nat, 2);
                    lemma_lane8_pair_step(o, nb as nat, hl as nat, q, i as nat, j as nat, 3);
                    lemma_lane8_pair_step(o, nb as nat, hl as nat, q, i as nat, j as nat, 4);
                    lemma_lane8_pair_step(o, nb as nat, hl as nat, q, i as nat, j as nat, 5);
                    lemma_lane8_pair_step(o, nb as nat, hl as nat, q, i as nat, j as nat, 6);
                    lemma_lane8_pair_step(o, nb as nat, hl as nat, q, i as nat, j as nat, 7);
                    assert forall|p: int| 0 <= p < 8 implies
                        #[trigger] scratch@[j as int].e@[p] as int
                            == stage_val(o, (8 * (j as int) + p) as nat, (8 * hl) as nat)
                        && scratch@[j + hl].e@[p] as int
                            == stage_val(o, (8 * (j + hl as int) + p) as nat, (8 * hl) as nat)
                    by {
                    }
                }
                let a = scratch[j];
                let c = scratch[j + hl];
                let s_lane = Lane8 {
                    e: [
                        a.e[0] + c.e[0], a.e[1] + c.e[1], a.e[2] + c.e[2], a.e[3] + c.e[3],
                        a.e[4] + c.e[4], a.e[5] + c.e[5], a.e[6] + c.e[6], a.e[7] + c.e[7],
                    ],
                };
                let d_lane = Lane8 {
                    e: [
                        a.e[0] - c.e[0], a.e[1] - c.e[1], a.e[2] - c.e[2], a.e[3] - c.e[3],
                        a.e[4] - c.e[4], a.e[5] - c.e[5], a.e[6] - c.e[6], a.e[7] - c.e[7],
                    ],
                };
                let ghost spre = scratch@;
                scratch[j] = s_lane;
                scratch[j + hl] = d_lane;
                proof {
                    assert forall|bb: int, p: int|
                        0 <= bb < nb && bb != j && bb != j + hl && 0 <= p < 8
                        implies #[trigger] scratch@[bb].e@[p] == spre[bb].e@[p] by {
                        assert(scratch@[bb] == spre[bb]);
                    }
                    assert forall|p: int| 0 <= p < 8 implies
                        scratch@[j as int].e@[p] as int
                            == stage_val(o, (8 * (j as int) + p) as nat, (16 * hl) as nat)
                        && scratch@[j + hl].e@[p] as int
                            == stage_val(o, (8 * (j + hl as int) + p) as nat, (16 * hl) as nat) by {
                        assert(scratch@[j as int].e@[p] == s_lane.e@[p]);
                        assert(scratch@[j + hl].e@[p] == d_lane.e@[p]);
                        assert(s_lane.e@[p] == spre[j as int].e@[p] + spre[j + hl].e@[p]);
                        assert(d_lane.e@[p] == spre[j as int].e@[p] - spre[j + hl].e@[p]);
                    }
                }
                j = j + 1;
            }
            i = i + hl + hl;
            proof {
                assert((q as int + 1) * (2 * (hl as int))
                    == (q as int) * (2 * (hl as int)) + 2 * (hl as int)) by (nonlinear_arith);
                lemma_fundamental_div_mod_converse(
                    i as int, 2 * (hl as int), q as int + 1, 0);
            }
        }
        hl = hl + hl;
    }
    proof {
        assert(hl == nb);
        assert(lanes8_staged(o, scratch@, nb as int, l as nat));
    }

    // Step 4: scatter the lanes back into `data`.
    let mut b2: usize = 0;
    while b2 < nb
        invariant
            data@.len() == l,
            o.len() == l,
            scratch@.len() == old(scratch)@.len(),
            scratch@.len() >= nb,
            l == 8 * nb,
            b2 <= nb,
            lanes8_staged(o, scratch@, nb as int, l as nat),
            forall|x: int| 0 <= x < 8 * b2 ==> #[trigger] to_ints(data@)[x]
                == stage_val(o, x as nat, l as nat),
        decreases nb - b2,
    {
        let i0 = 8 * b2;
        let lane = scratch[b2];
        let ghost dpre = data@;
        data[i0] = lane.e[0];
        data[i0 + 1] = lane.e[1];
        data[i0 + 2] = lane.e[2];
        data[i0 + 3] = lane.e[3];
        data[i0 + 4] = lane.e[4];
        data[i0 + 5] = lane.e[5];
        data[i0 + 6] = lane.e[6];
        data[i0 + 7] = lane.e[7];
        proof {
            assert forall|x: int| 0 <= x < 8 * (b2 as int) + 8 implies
                #[trigger] to_ints(data@)[x] == stage_val(o, x as nat, l as nat) by {
                if x < 8 * (b2 as int) {
                    assert(data@[x] == dpre[x]);
                    assert(to_ints(dpre)[x] == stage_val(o, x as nat, l as nat));
                } else {
                    let p = x - 8 * (b2 as int);
                    assert(scratch@[b2 as int].e@[p] as int
                        == stage_val(o, (8 * (b2 as int) + p) as nat, l as nat));
                    assert(lane.e@ == scratch@[b2 as int].e@);
                    assert(data@[x] == lane.e@[p]);
                }
            }
        }
        b2 = b2 + 1;
    }
    proof {
        assert(staged(o, to_ints(data@), l as nat));
        lemma_staged_final(o, to_ints(data@));
    }
}

/// Runtime-checked front end to `fwht4`: a wrong shape (length not a
/// power of two, width not dividing it, scratch too small) is refused
/// before anything is written, never silently truncated.
pub fn fwht4_checked(data: &mut Vec<i64>, scratch: &mut Vec<Lane4>) -> (ok: bool)
    requires
        asum(to_ints(old(data)@), 0, old(data)@.len() as nat) <= i64::MAX,
    ensures
        ok == (is_pow2(old(data)@.len() as nat) && old(data)@.len() % 4 == 0
            && old(scratch)@.len() >= old(data)@.len() / 4),
        final(data)@.len() == old(data)@.len(),
        final(scratch)@.len() == old(scratch)@.len(),
        ok ==> to_ints(final(data)@) == wht_spec(to_ints(old(data)@)),
        !ok ==> final(data)@ == old(data)@,
{
    let l = data.len();
    if !(is_power_of_two(l) && l % 4 == 0 && scratch.len() >= l / 4) {
        return false;
    }
    fwht4(data, scratch);
    true
}

/// Runtime-checked front end to `fwht8`, refusing wrong shapes the same
/// way as `fwht4_checked`.
pub fn fwht8_checked(data: &mut Vec<i64>, scratch: &mut Vec<Lane8>) -> (ok: bool)
    requires
        asum(to_ints(old(data)@), 0, old(data)@.len() as nat) <= i64::MAX,
    ensures
        ok == (is_pow2(old(data)@.len() as nat) && old(data)@.len() % 8 == 0
            && old(scratch)@.len() >= old(data)@.len() / 8),
        final(data)@.len() == old(data)@.len(),
        final(scratch)@.len() == old(scratch)@.len(),
        ok ==> to_ints(final(data)@) == wht_spec(to_ints(old(data)@)),
        !ok ==> final(data)@ == old(data)@,
{
    let l = data.len();
    if !(is_power_of_two(l) && l % 8 == 0 && scratch.len() >= l / 8) {
        return false;
    }
    fwht8(data, scratch);
    true
}

} // verus!
