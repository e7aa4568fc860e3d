//! Closed-form Walsh-Hadamard kernels for blocks of size 2, 4 and 8.
//!
//! Each kernel is algebraically the full butterfly restricted to its block:
//! its result is `wht_spec` of the block, the same value `fwht` leaves in a
//! block of that length.

use vstd::prelude::*;
use crate::parity::bdp;
use crate::transform::{to_ints, wht_spec, ssum, asum};
use vstd::math::abs;

verus! {

/// The transform of a length-2 sequence, written out.
pub proof fn lemma_wht_vals2(s: Seq<int>)
    requires
        s.len() == 2,
    ensures
        wht_spec(s).len() == 2,
        wht_spec(s)[0] == s[0] + s[1],
        wht_spec(s)[1] == s[0] - s[1],
{
    reveal_with_fuel(ssum, 3);
    reveal_with_fuel(bdp, 3);
    assert(wht_spec(s)[0] == ssum(s, 0, 0, 0, 2));
    assert(wht_spec(s)[1] == ssum(s, 1, 0, 0, 2));
}

/// The transform of a length-4 sequence, written out.
pub proof fn lemma_wht_vals4(s: Seq<int>)
    requires
        s.len() == 4,
    ensures
        wht_spec(s).len() == 4,
        wht_spec(s)[0] == s[0] + s[1] + s[2] + s[3],
        wht_spec(s)[1] == s[0] - s[1] + s[2] - s[3],
        wht_spec(s)[2] == s[0] + s[1] - s[2] - s[3],
        wht_spec(s)[3] == s[0] - s[1] - s[2] + s[3],
{
    reveal_with_fuel(ssum, 5);
    reveal_with_fuel(bdp, 3);
    assert(wht_spec(s)[0] == ssum(s, 0, 0, 0, 4));
    assert(wht_spec(s)[1] == ssum(s, 1, 0, 0, 4));
    assert(wht_spec(s)[2] == ssum(s, 2, 0, 0, 4));
    assert(wht_spec(s)[3] == ssum(s, 3, 0, 0, 4));
}

/// The transform of a length-8 sequence, written out.
#[verifier::rlimit(60)]
pub proof fn lemma_wht_vals8(s: Seq<int>)
    requires
        s.len() == 8,
    ensures
        wht_spec(s).len() == 8,
        wht_spec(s)[0] == s[0] + s[1] + s[2] + s[3] + s[4] + s[5] + s[6] + s[7],
        wht_spec(s)[1] == s[0] - s[1] + s[2] - s[3] + s[4] - s[5] + s[6] - s[7],
        wht_spec(s)[2] == s[0] + s[1] - s[2] - s[3] + s[4] + s[5] - s[6] - s[7],
        wht_spec(s)[3] == s[0] - s[1] - s[2] + s[3] + s[4] - s[5] - s[6] + s[7],
        wht_spec(s)[4] == s[0] + s[1] + s[2] + s[3] - s[4] - s[5] - s[6] - s[7],
        wht_spec(s)[5] == s[0] - s[1] + s[2] - s[3] - s[4] + s[5] - s[6] + s[7],
        wht_spec(s)[6] == s[0] + s[1] - s[2] - s[3] - s[4] - s[5] + s[6] + s[7],
        wht_spec(s)[7] == s[0] - s[1] - s[2] + s[3] - s[4] + s[5] + s[6] - s[7],
{
    reveal_with_fuel(ssum, 9);
    reveal_with_fuel(bdp, 4);
    assert(wht_spec(s)[0] == ssum(s, 0, 0, 0, 8));
    assert(wht_spec(s)[1] == ssum(s, 1, 0, 0, 8));
    assert(wht_spec(s)[2] == ssum(s, 2, 0, 0, 8));
    assert(wht_spec(s)[3] == ssum(s, 3, 0, 0, 8));
    assert(wht_spec(s)[4] == ssum(s, 4, 0, 0, 8));
    assert(wht_spec(s)[5] == ssum(s, 5, 0, 0, 8));
    assert(wht_spec(s)[6] == ssum(s, 6, 0, 0, 8));
    assert(wht_spec(s)[7] == ssum(s, 7, 0, 0, 8));
}

/// Size-2 Walsh-Hadamard kernel, in place.
pub fn wht2(data: &mut [i64; 2])
    requires
        asum(to_ints(old(data)@), 0, 2) <= i64::MAX,
    ensures
        to_ints(final(data)@) == wht_spec(to_ints(old(data)@)),
{
    proof {
        reveal_with_fuel(asum, 3);
        lemma_wht_vals2(to_ints(data@));
    }
    let x0 = data[0] + data[1];
    let x1 = data[0] - data[1];
    *data = [x0, x1];
    assert(to_ints(data@) =~= wht_spec(to_ints(old(data)@)));
}

/// Size-4 Walsh-Hadamard kernel, in place.
pub fn wht4(data: &mut [i64; 4])
    requires
        asum(to_ints(old(data)@), 0, 4) <= i64::MAX,
    ensures
        to_ints(final(data)@) == wht_spec(to_ints(old(data)@)),
{
    proof {
        reveal_with_fuel(asum, 5);
        lemma_wht_vals4(to_ints(data@));
    }
    let x0 = data[0] + data[1] + data[2] + data[3];
    let x1 = data[0] - data[1] + data[2] - data[3];
    let x2 = data[0] + data[1] - data[2] - data[3];
    let x3 = data[0] - data[1] - data[2] + data[3];
    *data = [x0, x1, x2, x3];
    assert(to_ints(data@) =~= wht_spec(to_ints(old(data)@)));
}

/// Size-8 Walsh-Hadamard kernel, in place.
#[verifier::rlimit(100)]
pub fn wht8(data: &mut [i64; 8])
    requires
        asum(to_ints(old(data)@), 0, 8) <= i64::MAX,
    ensures
        to_ints(final(data)@) == wht_spec(to_ints(old(data)@)),
{
    let ghost s = to_ints(data@);
    proof {
        lemma_wht_vals8(s);
        reveal_with_fuel(asum, 9);
        assert(asum(s, 0, 8) == abs(s[0]) + abs(s[1]) + abs(s[2]) + abs(s[3]) + abs(s[4])
            + abs(s[5]) + abs(s[6]) + abs(s[7]));
        assert(-(abs(s[0]) as int) <= s[0] <= abs(s[0]) as int);
        assert(-(abs(s[1]) as int) <= s[1] <= abs(s[1]) as int);
        assert(-(abs(s[2]) as int) <= s[2] <= abs(s[2]) as int);
        assert(-(abs(s[3]) as int) <= s[3] <= abs(s[3]) as int);
        assert(-(abs(s[4]) as int) <= s[4] <= abs(s[4]) as int);
        assert(-(abs(s[5]) as int) <= s[5] <= abs(s[5]) as int);
        assert(-(abs(s[6]) as int) <= s[6] <= abs(s[6]) as int);
        assert(-(abs(s[7]) as int) <= s[7] <= abs(s[7]) as int);
    }
    let x0 = data[0] + data[1] + data[2] + data[3] + data[4] + data[5] + data[6] + data[7];
    let x1 = data[0] - data[1] + data[2] - data[3] + data[4] - data[5] + data[6] - data[7];
    let x2 = data[0] + data[1] - data[2] - data[3] + data[4] + data[5] - data[6] - data[7];
    let x3 = data[0] - data[1] - data[2] + data[3] + data[4] - data[5] - data[6] + data[7];
    let x4 = data[0] + data[1] + data[2] + data[3] - data[4] - data[5] - data[6] - data[7];
    let x5 = data[0] - data[1] + data[2] - data[3] - data[4] + data[5] - data[6] + data[7];
    let x6 = data[0] + data[1] - data[2] - data[3] - data[4] - data[5] + data[6] + data[7];
    let x7 = data[0] - data[1] - data[2] + data[3] - data[4] + data[5] + data[6] - data[7];
    *data = [x0, x1, x2, x3, x4, x5, x6, x7];
    assert(to_ints(data@) =~= wht_spec(to_ints(old(data)@)));
}

} // verus!
