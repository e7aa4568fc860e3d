//! Direct-summation reference transform: the O(n^2) evaluation of the
//! defining sums, kept as the semantic oracle for the fast variants.

use vstd::prelude::*;
use crate::parity::{bdp, sign, binary_dot_product, lemma_bdp_zero_right};
use crate::transform::{to_ints, wht_spec, ssum, asum, lemma_ssum_abs_bound,
    lemma_asum_inner_bound};

verus! {

/// Reference Walsh-Hadamard transform with a reusable scratch buffer, held
/// only to avoid reallocation across repeated calls.
pub struct Naive {
    scratch: Vec<i64>,
}

impl Naive {
    /// The scratch buffer's current contents; meaningless between calls.
    pub closed spec fn scratch_view(&self) -> Seq<i64> {
        self.scratch@
    }

    /// A fresh instance with an empty scratch buffer.
    pub fn new() -> (r: Naive)
        ensures
            r.scratch_view().len() == 0,
    {
        Naive { scratch: Vec::new() }
    }

    /// Pre-sizes the scratch buffer for inputs the length of `data`.  Only
    /// an allocation hint: the transform itself does not depend on it.
    pub fn init(&mut self, data: &[i64])
        ensures
            final(self).scratch_view().len() == 0,
    {
        self.scratch.clear();
        self.scratch.reserve(data.len());
    }

    /// Walsh-Hadamard transform of `data` by direct summation, written
    /// back into `data`: entry `i` becomes the sum over `j` of
    /// `sign(i, j) * data[j]`, with the sign decided by
    /// `binary_dot_product(i, j)`.
    pub fn process(&mut self, data: &mut Vec<i64>)
        requires
            asum(to_ints(old(data)@), 0, old(data)@.len() as nat) <= i64::MAX,
        ensures
            final(data)@.len() == old(data)@.len(),
            to_ints(final(data)@) == wht_spec(to_ints(old(data)@)),
    {
        let ghost o = to_ints(data@);
        let l = data.len();
        self.scratch.clear();
        let mut i: usize = 0;
        while i < l
            invariant
                data@.len() == l,
                o == to_ints(data@),
                o.len() == l,
                i <= l,
                self.scratch@.len() == i,
                asum(o, 0, l as nat) <= i64::MAX,
                forall|k: int| 0 <= k < i ==> #[trigger] self.scratch@[k] as int
                    == ssum(o, k as nat, 0, 0, l as nat),
            decreases l - i,
        {
            let ghost spre = self.scratch@;
            self.scratch.push(data[0]);
            proof {
                reveal_with_fuel(ssum, 2);
                lemma_bdp_zero_right(i as nat);
                assert(sign(i as nat, 0) == 1);
                assert(self.scratch@[i as int] as int == ssum(o, i as nat, 0, 0, 1));
            }
            let mut jj: usize = 1;
            while jj < l
                invariant
                    data@.len() == l,
                    o == to_ints(data@),
                    o.len() == l,
                    i < l,
                    1 <= jj <= l,
                    self.scratch@.len() == i + 1,
                    asum(o, 0, l as nat) <= i64::MAX,
                    self.scratch@[i as int] as int == ssum(o, i as nat, 0, 0, jj as nat),
                    forall|k: int| 0 <= k < i ==> #[trigger] self.scratch@[k] as int
                        == ssum(o, k as nat, 0, 0, l as nat),
                decreases l - jj,
            {
                proof {
                    lemma_ssum_abs_bound(o, i as nat, 0, 0, (jj + 1) as nat);
                    lemma_asum_inner_bound(o, 0, (jj + 1) as nat);
                    assert(ssum(o, i as nat, 0, 0, (jj + 1) as nat)
                        == ssum(o, i as nat, 0, 0, jj as nat) + sign(i as nat, jj as nat) * o[jj as int]);
                    if bdp(i as nat, jj as nat) == 0 {
                        assert(sign(i as nat, jj as nat) * o[jj as int] == o[jj as int]);
                    } else {
                        assert(sign(i as nat, jj as nat) * o[jj as int] == -o[jj as int]);
                    }
                }
                let ghost spre2 = self.scratch@;
                let s = binary_dot_product(i, jj);
                let cur = self.scratch[i];
                if s == 0 {
                    self.scratch[i] = cur + data[jj];
                } else {
                    self.scratch[i] = cur - data[jj];
                }
                proof {
                    assert(forall|k: int| 0 <= k < i ==> #[trigger] self.scratch@[k] == spre2[k]);
                }
                jj = jj + 1;
            }
            proof {
                assert(self.scratch@[i as int] as int == ssum(o, i as nat, 0, 0, l as nat));
            }
            i = i + 1;
        }
        let mut t: usize = 0;
        while t < l
            invariant
                data@.len() == l,
                o.len() == l,
                t <= l,
                self.scratch@.len() == l,
                forall|k: int| 0 <= k < l ==> #[trigger] self.scratch@[k] as int
                    == ssum(o, k as nat, 0, 0, l as nat),
                forall|x: int| 0 <= x < t ==> #[trigger] to_ints(data@)[x]
                    == ssum(o, x as nat, 0, 0, l as nat),
            decreases l - t,
        {
            let v = self.scratch[t];
            let ghost dpre = data@;
            data[t] = v;
            proof {
                assert(to_ints(data@)[t as int] == v as int);
                assert forall|x: int| 0 <= x < t implies #[trigger] to_ints(data@)[x]
                    == ssum(o, x as nat, 0, 0, l as nat) by {
                    assert(data@[x] == dpre[x]);
                    assert(to_ints(dpre)[x] == ssum(o, x as nat, 0, 0, l as nat));
                }
            }
            t = t + 1;
        }
        assert(to_ints(data@) =~= wht_spec(o));
    }
}

} // verus!
