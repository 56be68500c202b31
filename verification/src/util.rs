use vstd::prelude::*;

use crate::packed_idx::PackedIdx;

verus! {

/// Marks a condition which is expected to hold; returns it unchanged.
pub fn likely(b: bool) -> (r: bool)
    ensures
        r == b,
{
    b
}

/// Marks a condition which is expected not to hold; returns it unchanged.
pub fn unlikely(b: bool) -> (r: bool)
    ensures
        r == b,
{
    b
}

/// Bit `i` of `v` is set.
pub open spec fn bit_set(v: u64, i: u32) -> bool {
    (v >> i) & 1 == 1
}

/// The indices of the set bits of an integer, from the least significant.
pub trait IterOnes {
    fn iter_ones(self) -> Vec<u32>;
}

impl IterOnes for u64 {
    fn iter_ones(self) -> (r: Vec<u32>)
        ensures
            forall|i: u32| r@.contains(i) <==> i < 64 && bit_set(self, i),
            forall|a: int, b: int| 0 <= a < b < r.len() ==> r@[a] < r@[b],
    {
        let mut r: Vec<u32> = Vec::new();
        let mut i: u32 = 0;
        while i < 64
            invariant
                i <= 64,
                forall|j: u32| r@.contains(j) <==> j < i && bit_set(self, j),
                forall|a: int, b: int| 0 <= a < b < r.len() ==> r@[a] < r@[b],
                forall|a: int| 0 <= a < r.len() ==> r@[a] < i,
            decreases 64 - i,
        {
            let ghost before = r@;
            if (self >> i) & 1 == 1 {
                r.push(i);
            }
            proof {
                assert forall|j: u32| r@.contains(j) <==> j < i + 1 && bit_set(self, j) by {
                    if j == i && bit_set(self, j) {
                        assert(r@[r.len() - 1] == i);
                    }
                    if r@.contains(j) && !before.contains(j) {
                        let k = choose|k: int| 0 <= k < r.len() && r@[k] == j;
                        assert(k == r.len() - 1);
                    }
                    if before.contains(j) {
                        let k = choose|k: int| 0 <= k < before.len() && before[k] == j;
                        assert(r@[k] == j);
                    }
                }
            }
            i += 1;
        }
        r
    }
}

/// Drops the null positions from a list of positions.
pub trait FilterNullPackedIdx {
    fn filter_null(&self) -> Vec<PackedIdx>;
}

impl FilterNullPackedIdx for Vec<PackedIdx> {
    fn filter_null(&self) -> (r: Vec<PackedIdx>)
        ensures
            r@ == self@.filter(|p: PackedIdx| !p.is_null_spec()),
    {
        let mut r: Vec<PackedIdx> = Vec::new();
        let mut i: usize = 0;
        while i < self.len()
            invariant
                i <= self.len(),
                r@ == self@.take(i as int).filter(|p: PackedIdx| !p.is_null_spec()),
            decreases self.len() - i,
        {
            proof {
                reveal(Seq::filter);
                assert(self@.take(i + 1).drop_last() == self@.take(i as int));
            }
            if self[i].is_nonnull() {
                r.push(self[i]);
            }
            i += 1;
        }
        assert(self@.take(self.len() as int) == self@);
        r
    }
}

} // verus!
