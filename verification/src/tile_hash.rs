use vstd::prelude::*;

use core::marker::PhantomData;

use crate::groups::{C2, D3, D6, K4};

verus! {

/// The bits of a hash for boards with symmetry class C: six segments of ten
/// bits, one for each sixth of the plane about the center of a tile.
pub const C_MASK: u64 = 0x0fff_ffff_ffff_ffff;

/// The bits of a hash for boards with symmetry class V: three segments of
/// twenty bits, one for each third of the plane about a vertex.
pub const V_MASK: u64 = 0x0fff_ffff_ffff_ffff;

/// The bits of a hash for boards with symmetry class E: four segments of
/// sixteen bits, one for each quarter of the plane about the midpoint of an
/// edge.
pub const E_MASK: u64 = 0xffff_ffff_ffff_ffff;

/// A Zobrist hash value on which the symmetry group `G` acts by permuting
/// segments of its bits, the same way `G` permutes the regions of the board
/// that the segments stand for.
#[derive(Copy, Debug)]
pub struct HashGroup<G> {
    hash: u64,
    _p: PhantomData<G>,
}

impl<G> Clone for HashGroup<G> {
    fn clone(&self) -> (r: Self)
        ensures
            r == *self,
    {
        HashGroup { hash: self.hash, _p: PhantomData }
    }
}

impl<G> HashGroup<G> {
    /// The hash value.
    pub closed spec fn view_hash(self) -> u64 {
        self.hash
    }

    /// A hash group value is its hash value.
    pub broadcast proof fn lemma_view_hash_eq(self, other: Self)
        ensures
            #[trigger] self.view_hash() == #[trigger] other.view_hash() <==> self == other,
    {
    }

    /// Wraps a hash value.
    pub fn new(hash: u64) -> (r: Self)
        ensures
            r.view_hash() == hash,
    {
        HashGroup { hash, _p: PhantomData }
    }

    /// The zero hash.
    pub fn uninitialized() -> (r: Self)
        ensures
            r.view_hash() == 0,
    {
        HashGroup { hash: 0, _p: PhantomData }
    }

    /// The hash value.
    pub fn hash(&self) -> (r: u64)
        ensures
            r == self.view_hash(),
    {
        self.hash
    }
}

// ---------------------------------------------------------------------------
// D6: six segments of ten bits.
// ---------------------------------------------------------------------------

/// A hash value of class C uses only the low 60 bits.
pub open spec fn d6_valid(h: u64) -> bool {
    h >> 60u64 == 0
}

/// The six ten-bit segments of a class C hash.
pub open spec fn d6_segs(h: u64) -> Seq<u64> {
    seq![
        h & 0x3ff,
        (h >> 10u64) & 0x3ff,
        (h >> 20u64) & 0x3ff,
        (h >> 30u64) & 0x3ff,
        (h >> 40u64) & 0x3ff,
        (h >> 50u64) & 0x3ff,
    ]
}

/// The segment that `op` moves to segment `i`: `Rot(k)` moves segment `j` to
/// `j + k`, and `Rfl(k)` moves segment `j` to `k - j` (mod 6).
pub open spec fn d6_src(op: D6, i: int) -> int {
    match op {
        D6::Rot(k) => (i + 6 - k) % 6,
        D6::Rfl(k) => (k + 6 - i) % 6,
    }
}

/// The segments `s` after `op` permuted them.
pub open spec fn d6_permuted(op: D6, s: Seq<u64>) -> Seq<u64> {
    Seq::new(6, |i: int| s[d6_src(op, i)])
}

pub open spec fn d6_r1(h: u64) -> u64 {
    ((h << 10u64) | (h >> 50u64)) & C_MASK
}

pub open spec fn d6_s0(h: u64) -> u64 {
    let b14 = h & 0x000000ffc00003ff;
    let b26 = h & 0x0ffc0000000ffc00;
    let b35 = h & 0x0003ff003ff00000;
    let b26 = (b26 << 40u64) | (b26 >> 40u64);
    let b35 = ((b35 << 20u64) | (b35 >> 20u64)) & 0x0003ff003ff00000;
    b14 | b26 | b35
}

pub open spec fn d6_s1(h: u64) -> u64 {
    let b12 = h & 0x00000000000fffff;
    let b36 = h & 0x0ffc00003ff00000;
    let b45 = h & 0x0003ffffc0000000;
    let b12 = ((b12 << 10u64) | (b12 >> 10u64)) & 0x00000000000fffff;
    let b36 = (b36 << 30u64) | (b36 >> 30u64);
    let b45 = ((b45 << 10u64) | (b45 >> 10u64)) & 0x0003ffffc0000000;
    b12 | b36 | b45
}

pub open spec fn d6_s2(h: u64) -> u64 {
    let b13 = h & 0x000000003ff003ff;
    let b25 = h & 0x0003ff00000ffc00;
    let b46 = h & 0x0ffc00ffc0000000;
    let b13 = ((b13 << 20u64) | (b13 >> 20u64)) & 0x000000003ff003ff;
    let b46 = ((b46 << 20u64) | (b46 >> 20u64)) & 0x0ffc00ffc0000000;
    b13 | b25 | b46
}

pub open spec fn d6_s3(h: u64) -> u64 {
    let b14 = h & 0x000000ffc00003ff;
    let b23 = h & 0x000000003ffffc00;
    let b56 = h & 0x0fffff0000000000;
    let b14 = ((b14 << 30u64) | (b14 >> 30u64)) & 0x000000ffc00003ff;
    let b23 = ((b23 << 10u64) | (b23 >> 10u64)) & 0x000000003ffffc00;
    let b56 = ((b56 << 10u64) | (b56 >> 10u64)) & 0x0fffff0000000000;
    b14 | b23 | b56
}

pub open spec fn d6_s4(h: u64) -> u64 {
    let b15 = h & 0x0003ff00000003ff;
    let b24 = h & 0x000000ffc00ffc00;
    let b36 = h & 0x0ffc00003ff00000;
    let b15 = (b15 << 40u64) | (b15 >> 40u64);
    let b24 = ((b24 << 20u64) | (b24 >> 20u64)) & 0x000000ffc00ffc00;
    b15 | b24 | b36
}

pub open spec fn d6_s5(h: u64) -> u64 {
    let b16 = h & 0x0ffc0000000003ff;
    let b25 = h & 0x0003ff00000ffc00;
    let b34 = h & 0x000000fffff00000;
    let b16 = (b16 << 50u64) | (b16 >> 50u64);
    let b25 = (b25 << 30u64) | (b25 >> 30u64);
    let b34 = ((b34 << 10u64) | (b34 >> 10u64)) & 0x000000fffff00000;
    b16 | b25 | b34
}

/// The action of `op` on a class C hash.
pub open spec fn d6_hash_apply(op: D6, h: u64) -> u64 {
    match op {
        D6::Rot(k) => if k == 0 {
            h
        } else if k == 1 {
            d6_r1(h)
        } else if k == 2 {
            d6_r1(d6_r1(h))
        } else if k == 3 {
            d6_r1(d6_r1(d6_r1(h)))
        } else if k == 4 {
            d6_r1(d6_r1(d6_r1(d6_r1(h))))
        } else {
            d6_r1(d6_r1(d6_r1(d6_r1(d6_r1(h)))))
        },
        D6::Rfl(k) => if k == 0 {
            d6_s0(h)
        } else if k == 1 {
            d6_s1(h)
        } else if k == 2 {
            d6_s2(h)
        } else if k == 3 {
            d6_s3(h)
        } else if k == 4 {
            d6_s4(h)
        } else {
            d6_s5(h)
        },
    }
}

proof fn lemma_d6_xor_bits(a: u64, b: u64)
    by (bit_vector)
    requires
        a >> 60u64 == 0,
        b >> 60u64 == 0,
    ensures
        d6_r1(a) >> 60u64 == 0,
        d6_r1(b) >> 60u64 == 0,
        d6_r1(a ^ b) == d6_r1(a) ^ d6_r1(b),
        d6_s0(a ^ b) == d6_s0(a) ^ d6_s0(b),
        d6_s1(a ^ b) == d6_s1(a) ^ d6_s1(b),
        d6_s2(a ^ b) == d6_s2(a) ^ d6_s2(b),
        d6_s3(a ^ b) == d6_s3(a) ^ d6_s3(b),
        d6_s4(a ^ b) == d6_s4(a) ^ d6_s4(b),
        d6_s5(a ^ b) == d6_s5(a) ^ d6_s5(b),
        (a ^ b) >> 60u64 == 0,
{
}

/// The action of a symmetry on class C hashes commutes with xor, so it
/// carries a Zobrist hash to the xor of the images of its parts.
pub proof fn lemma_d6_hash_xor(g: D6, a: u64, b: u64)
    requires
        d6_valid(a),
        d6_valid(b),
    ensures
        d6_hash_apply(g, a ^ b) == d6_hash_apply(g, a) ^ d6_hash_apply(g, b),
        d6_valid(a ^ b),
{
    lemma_d6_xor_bits(a, b);
    let a1 = d6_r1(a);
    let b1 = d6_r1(b);
    lemma_d6_xor_bits(a1, b1);
    let a2 = d6_r1(a1);
    let b2 = d6_r1(b1);
    lemma_d6_xor_bits(a2, b2);
    let a3 = d6_r1(a2);
    let b3 = d6_r1(b2);
    lemma_d6_xor_bits(a3, b3);
    let a4 = d6_r1(a3);
    let b4 = d6_r1(b3);
    lemma_d6_xor_bits(a4, b4);
}

/// The segment that `make_invariant(op)` copies to segment `i`: of each pair
/// of segments that `op` swaps, the lower one.
pub open spec fn d6_rep(op: D6, i: int) -> int {
    match op {
        D6::Rot(_) => 0,
        D6::Rfl(_) => if i <= d6_src(op, i) {
            i
        } else {
            d6_src(op, i)
        },
    }
}

pub open spec fn d6_make_r1(h: u64) -> u64 {
    let b = h & 0x3ff;
    let b = b | (b << 10u64);
    b | (b << 20u64) | (b << 40u64)
}

pub open spec fn d6_make_s0(h: u64) -> u64 {
    let b14 = h & 0x000000ffc00003ff;
    let b26 = h & 0x00000000000ffc00;
    let b35 = h & 0x000000003ff00000;
    b14 | (b26 | (b26 << 40u64)) | (b35 | (b35 << 20u64))
}

pub open spec fn d6_make_s1(h: u64) -> u64 {
    let b12 = h & 0x00000000000003ff;
    let b36 = h & 0x000000003ff00000;
    let b45 = h & 0x000000ffc0000000;
    (b12 | (b12 << 10u64)) | (b36 | (b36 << 30u64)) | (b45 | (b45 << 10u64))
}

pub open spec fn d6_make_s2(h: u64) -> u64 {
    let b13 = h & 0x00000000000003ff;
    let b25 = h & 0x0003ff00000ffc00;
    let b46 = h & 0x000000ffc0000000;
    (b13 | (b13 << 20u64)) | b25 | (b46 | (b46 << 20u64))
}

pub open spec fn d6_make_s3(h: u64) -> u64 {
    let b14 = h & 0x00000000000003ff;
    let b23 = h & 0x00000000000ffc00;
    let b56 = h & 0x0003ff0000000000;
    (b14 | (b14 << 30u64)) | (b23 | (b23 << 10u64)) | (b56 | (b56 << 10u64))
}

pub open spec fn d6_make_s4(h: u64) -> u64 {
    let b15 = h & 0x00000000000003ff;
    let b24 = h & 0x00000000000ffc00;
    let b36 = h & 0x0ffc00003ff00000;
    (b15 | (b15 << 40u64)) | (b24 | (b24 << 20u64)) | b36
}

pub open spec fn d6_make_s5(h: u64) -> u64 {
    let b16 = h & 0x00000000000003ff;
    let b25 = h & 0x00000000000ffc00;
    let b34 = h & 0x000000003ff00000;
    (b16 | (b16 << 50u64)) | (b25 | (b25 << 30u64)) | (b34 | (b34 << 10u64))
}

/// The hash made invariant under `op`, for `op` a reflection or the rotation
/// `Rot(1)` (which makes it invariant under every rotation).
pub open spec fn d6_hash_make_invariant(op: D6, h: u64) -> u64 {
    match op {
        D6::Rot(_) => d6_make_r1(h),
        D6::Rfl(k) => if k == 0 {
            d6_make_s0(h)
        } else if k == 1 {
            d6_make_s1(h)
        } else if k == 2 {
            d6_make_s2(h)
        } else if k == 3 {
            d6_make_s3(h)
        } else if k == 4 {
            d6_make_s4(h)
        } else {
            d6_make_s5(h)
        },
    }
}

/// The operations for which `make_invariant` is defined.
pub open spec fn d6_invariable(op: D6) -> bool {
    op == D6::Rot(1) || (op.wf() && op is Rfl)
}

proof fn lemma_d6_r1_bits(h: u64)
    by (bit_vector)
    requires
        h >> 60u64 == 0,
    ensures
        d6_r1(h) >> 60u64 == 0,
        d6_r1(h) & 0x3ff == (h >> 50u64) & 0x3ff,
        (d6_r1(h) >> 10u64) & 0x3ff == h & 0x3ff,
        (d6_r1(h) >> 20u64) & 0x3ff == (h >> 10u64) & 0x3ff,
        (d6_r1(h) >> 30u64) & 0x3ff == (h >> 20u64) & 0x3ff,
        (d6_r1(h) >> 40u64) & 0x3ff == (h >> 30u64) & 0x3ff,
        (d6_r1(h) >> 50u64) & 0x3ff == (h >> 40u64) & 0x3ff,
{
}

proof fn lemma_d6_rfl_bits(h: u64)
    by (bit_vector)
    ensures
        d6_s0(h) >> 60u64 == 0,
        d6_s0(h) & 0x3ff == h & 0x3ff,
        (d6_s0(h) >> 10u64) & 0x3ff == (h >> 50u64) & 0x3ff,
        (d6_s0(h) >> 20u64) & 0x3ff == (h >> 40u64) & 0x3ff,
        (d6_s0(h) >> 30u64) & 0x3ff == (h >> 30u64) & 0x3ff,
        (d6_s0(h) >> 40u64) & 0x3ff == (h >> 20u64) & 0x3ff,
        (d6_s0(h) >> 50u64) & 0x3ff == (h >> 10u64) & 0x3ff,
        d6_s1(h) >> 60u64 == 0,
        d6_s1(h) & 0x3ff == (h >> 10u64) & 0x3ff,
        (d6_s1(h) >> 10u64) & 0x3ff == h & 0x3ff,
        (d6_s1(h) >> 20u64) & 0x3ff == (h >> 50u64) & 0x3ff,
        (d6_s1(h) >> 30u64) & 0x3ff == (h >> 40u64) & 0x3ff,
        (d6_s1(h) >> 40u64) & 0x3ff == (h >> 30u64) & 0x3ff,
        (d6_s1(h) >> 50u64) & 0x3ff == (h >> 20u64) & 0x3ff,
        d6_s2(h) >> 60u64 == 0,
        d6_s2(h) & 0x3ff == (h >> 20u64) & 0x3ff,
        (d6_s2(h) >> 10u64) & 0x3ff == (h >> 10u64) & 0x3ff,
        (d6_s2(h) >> 20u64) & 0x3ff == h & 0x3ff,
        (d6_s2(h) >> 30u64) & 0x3ff == (h >> 50u64) & 0x3ff,
        (d6_s2(h) >> 40u64) & 0x3ff == (h >> 40u64) & 0x3ff,
        (d6_s2(h) >> 50u64) & 0x3ff == (h >> 30u64) & 0x3ff,
        d6_s3(h) >> 60u64 == 0,
        d6_s3(h) & 0x3ff == (h >> 30u64) & 0x3ff,
        (d6_s3(h) >> 10u64) & 0x3ff == (h >> 20u64) & 0x3ff,
        (d6_s3(h) >> 20u64) & 0x3ff == (h >> 10u64) & 0x3ff,
        (d6_s3(h) >> 30u64) & 0x3ff == h & 0x3ff,
        (d6_s3(h) >> 40u64) & 0x3ff == (h >> 50u64) & 0x3ff,
        (d6_s3(h) >> 50u64) & 0x3ff == (h >> 40u64) & 0x3ff,
        d6_s4(h) >> 60u64 == 0,
        d6_s4(h) & 0x3ff == (h >> 40u64) & 0x3ff,
        (d6_s4(h) >> 10u64) & 0x3ff == (h >> 30u64) & 0x3ff,
        (d6_s4(h) >> 20u64) & 0x3ff == (h >> 20u64) & 0x3ff,
        (d6_s4(h) >> 30u64) & 0x3ff == (h >> 10u64) & 0x3ff,
        (d6_s4(h) >> 40u64) & 0x3ff == h & 0x3ff,
        (d6_s4(h) >> 50u64) & 0x3ff == (h >> 50u64) & 0x3ff,
        d6_s5(h) >> 60u64 == 0,
        d6_s5(h) & 0x3ff == (h >> 50u64) & 0x3ff,
        (d6_s5(h) >> 10u64) & 0x3ff == (h >> 40u64) & 0x3ff,
        (d6_s5(h) >> 20u64) & 0x3ff == (h >> 30u64) & 0x3ff,
        (d6_s5(h) >> 30u64) & 0x3ff == (h >> 20u64) & 0x3ff,
        (d6_s5(h) >> 40u64) & 0x3ff == (h >> 10u64) & 0x3ff,
        (d6_s5(h) >> 50u64) & 0x3ff == h & 0x3ff,
{
}

proof fn lemma_d6_make_bits(h: u64)
    by (bit_vector)
    ensures
        d6_make_r1(h) >> 60u64 == 0,
        d6_make_r1(h) & 0x3ff == h & 0x3ff,
        (d6_make_r1(h) >> 10u64) & 0x3ff == h & 0x3ff,
        (d6_make_r1(h) >> 20u64) & 0x3ff == h & 0x3ff,
        (d6_make_r1(h) >> 30u64) & 0x3ff == h & 0x3ff,
        (d6_make_r1(h) >> 40u64) & 0x3ff == h & 0x3ff,
        (d6_make_r1(h) >> 50u64) & 0x3ff == h & 0x3ff,
        d6_make_s0(h) >> 60u64 == 0,
        d6_make_s0(h) & 0x3ff == h & 0x3ff,
        (d6_make_s0(h) >> 10u64) & 0x3ff == (h >> 10u64) & 0x3ff,
        (d6_make_s0(h) >> 20u64) & 0x3ff == (h >> 20u64) & 0x3ff,
        (d6_make_s0(h) >> 30u64) & 0x3ff == (h >> 30u64) & 0x3ff,
        (d6_make_s0(h) >> 40u64) & 0x3ff == (h >> 20u64) & 0x3ff,
        (d6_make_s0(h) >> 50u64) & 0x3ff == (h >> 10u64) & 0x3ff,
        d6_make_s1(h) >> 60u64 == 0,
        d6_make_s1(h) & 0x3ff == h & 0x3ff,
        (d6_make_s1(h) >> 10u64) & 0x3ff == h & 0x3ff,
        (d6_make_s1(h) >> 20u64) & 0x3ff == (h >> 20u64) & 0x3ff,
        (d6_make_s1(h) >> 30u64) & 0x3ff == (h >> 30u64) & 0x3ff,
        (d6_make_s1(h) >> 40u64) & 0x3ff == (h >> 30u64) & 0x3ff,
        (d6_make_s1(h) >> 50u64) & 0x3ff == (h >> 20u64) & 0x3ff,
        d6_make_s2(h) >> 60u64 == 0,
        d6_make_s2(h) & 0x3ff == h & 0x3ff,
        (d6_make_s2(h) >> 10u64) & 0x3ff == (h >> 10u64) & 0x3ff,
        (d6_make_s2(h) >> 20u64) & 0x3ff == h & 0x3ff,
        (d6_make_s2(h) >> 30u64) & 0x3ff == (h >> 30u64) & 0x3ff,
        (d6_make_s2(h) >> 40u64) & 0x3ff == (h >> 40u64) & 0x3ff,
        (d6_make_s2(h) >> 50u64) & 0x3ff == (h >> 30u64) & 0x3ff,
        d6_make_s3(h) >> 60u64 == 0,
        d6_make_s3(h) & 0x3ff == h & 0x3ff,
        (d6_make_s3(h) >> 10u64) & 0x3ff == (h >> 10u64) & 0x3ff,
        (d6_make_s3(h) >> 20u64) & 0x3ff == (h >> 10u64) & 0x3ff,
        (d6_make_s3(h) >> 30u64) & 0x3ff == h & 0x3ff,
        (d6_make_s3(h) >> 40u64) & 0x3ff == (h >> 40u64) & 0x3ff,
        (d6_make_s3(h) >> 50u64) & 0x3ff == (h >> 40u64) & 0x3ff,
        d6_make_s4(h) >> 60u64 == 0,
        d6_make_s4(h) & 0x3ff == h & 0x3ff,
        (d6_make_s4(h) >> 10u64) & 0x3ff == (h >> 10u64) & 0x3ff,
        (d6_make_s4(h) >> 20u64) & 0x3ff == (h >> 20u64) & 0x3ff,
        (d6_make_s4(h) >> 30u64) & 0x3ff == (h >> 10u64) & 0x3ff,
        (d6_make_s4(h) >> 40u64) & 0x3ff == h & 0x3ff,
        (d6_make_s4(h) >> 50u64) & 0x3ff == (h >> 50u64) & 0x3ff,
        d6_make_s5(h) >> 60u64 == 0,
        d6_make_s5(h) & 0x3ff == h & 0x3ff,
        (d6_make_s5(h) >> 10u64) & 0x3ff == (h >> 10u64) & 0x3ff,
        (d6_make_s5(h) >> 20u64) & 0x3ff == (h >> 20u64) & 0x3ff,
        (d6_make_s5(h) >> 30u64) & 0x3ff == (h >> 20u64) & 0x3ff,
        (d6_make_s5(h) >> 40u64) & 0x3ff == (h >> 10u64) & 0x3ff,
        (d6_make_s5(h) >> 50u64) & 0x3ff == h & 0x3ff,
{
}

proof fn lemma_d6_ext_bits(a: u64, b: u64)
    by (bit_vector)
    requires
        a >> 60u64 == 0,
        b >> 60u64 == 0,
        a & 0x3ff == b & 0x3ff,
        (a >> 10u64) & 0x3ff == (b >> 10u64) & 0x3ff,
        (a >> 20u64) & 0x3ff == (b >> 20u64) & 0x3ff,
        (a >> 30u64) & 0x3ff == (b >> 30u64) & 0x3ff,
        (a >> 40u64) & 0x3ff == (b >> 40u64) & 0x3ff,
        (a >> 50u64) & 0x3ff == (b >> 50u64) & 0x3ff,
    ensures
        a == b,
{
}

/// Two class C hashes with the same segments are equal.
pub proof fn lemma_d6_ext(a: u64, b: u64)
    requires
        d6_valid(a),
        d6_valid(b),
        d6_segs(a) == d6_segs(b),
    ensures
        a == b,
{
    assert(d6_segs(a)[0] == d6_segs(b)[0]);
    assert(d6_segs(a)[1] == d6_segs(b)[1]);
    assert(d6_segs(a)[2] == d6_segs(b)[2]);
    assert(d6_segs(a)[3] == d6_segs(b)[3]);
    assert(d6_segs(a)[4] == d6_segs(b)[4]);
    assert(d6_segs(a)[5] == d6_segs(b)[5]);
    lemma_d6_ext_bits(a, b);
}

proof fn lemma_d6_r1_segs(h: u64)
    requires
        d6_valid(h),
    ensures
        d6_valid(d6_r1(h)),
        d6_segs(d6_r1(h)) == d6_permuted(D6::Rot(1), d6_segs(h)),
{
    lemma_d6_r1_bits(h);
    assert(d6_segs(d6_r1(h)) =~= d6_permuted(D6::Rot(1), d6_segs(h)));
}

/// Each symmetry permutes the segments of a class C hash.
#[verifier::spinoff_prover]
#[verifier::rlimit(40)]
pub proof fn lemma_d6_apply_segs(op: D6, h: u64)
    requires
        op.wf(),
        d6_valid(h),
    ensures
        d6_valid(d6_hash_apply(op, h)),
        d6_segs(d6_hash_apply(op, h)) == d6_permuted(op, d6_segs(h)),
{
    let s = d6_segs(h);
    match op {
        D6::Rot(k) => {
            if k == 0 {
                assert(d6_segs(h) =~= d6_permuted(op, s));
            } else {
                let h1 = d6_r1(h);
                let h2 = d6_r1(h1);
                let h3 = d6_r1(h2);
                let h4 = d6_r1(h3);
                let h5 = d6_r1(h4);
                lemma_d6_r1_segs(h);
                lemma_d6_r1_segs(h1);
                lemma_d6_r1_segs(h2);
                lemma_d6_r1_segs(h3);
                lemma_d6_r1_segs(h4);
                if k == 1 {
                } else if k == 2 {
                    assert(d6_segs(h2) =~= d6_permuted(op, s));
                } else if k == 3 {
                    assert(d6_segs(h3) =~= d6_permuted(op, s));
                } else if k == 4 {
                    assert(d6_segs(h4) =~= d6_permuted(op, s));
                } else {
                    assert(d6_segs(h5) =~= d6_permuted(op, s));
                }
            }
        },
        D6::Rfl(k) => {
            lemma_d6_rfl_bits(h);
            assert(d6_segs(d6_hash_apply(op, h)) =~= d6_permuted(op, s));
        },
    }
}

/// `make_invariant` copies, to each segment, its representative under `op`.
pub proof fn lemma_d6_make_segs(op: D6, h: u64)
    requires
        d6_invariable(op),
    ensures
        d6_valid(d6_hash_make_invariant(op, h)),
        d6_segs(d6_hash_make_invariant(op, h)) == Seq::new(6, |i: int| d6_segs(h)[d6_rep(op, i)]),
{
    lemma_d6_make_bits(h);
    assert(d6_segs(d6_hash_make_invariant(op, h)) =~= Seq::new(
        6,
        |i: int| d6_segs(h)[d6_rep(op, i)],
    ));
}

proof fn lemma_mod6(x: int, y: int)
    requires
        -12 <= x < 24,
        y == x % 6,
    ensures
        0 <= y < 6,
        x < 0 ==> (x >= -6 ==> y == x + 6) && (x < -6 ==> y == x + 12),
        0 <= x < 6 ==> y == x,
        6 <= x < 12 ==> y == x - 6,
        12 <= x < 18 ==> y == x - 12,
        18 <= x ==> y == x - 18,
{
}

proof fn lemma_d6_src_compose(a: D6, b: D6, i: int)
    requires
        a.wf(),
        b.wf(),
        0 <= i < 6,
    ensures
        d6_src(a.spec_mul(b), i) == d6_src(b, d6_src(a, i)),
        0 <= d6_src(a, i) < 6,
{
    let (ka, ra) = match a {
        D6::Rot(k) => (k as int, true),
        D6::Rfl(k) => (k as int, false),
    };
    let (kb, rb) = match b {
        D6::Rot(k) => (k as int, true),
        D6::Rfl(k) => (k as int, false),
    };
    lemma_mod6(ka + kb, (ka + kb) % 6);
    lemma_mod6(ka + 6 - kb, (ka + 6 - kb) % 6);
    lemma_mod6(i + 6 - ka, (i + 6 - ka) % 6);
    lemma_mod6(ka + 6 - i, (ka + 6 - i) % 6);
    let j = d6_src(a, i);
    lemma_mod6(j + 6 - kb, (j + 6 - kb) % 6);
    lemma_mod6(kb + 6 - j, (kb + 6 - j) % 6);
    let kab = match a.spec_mul(b) {
        D6::Rot(k) => k as int,
        D6::Rfl(k) => k as int,
    };
    lemma_mod6(i + 6 - kab, (i + 6 - kab) % 6);
    lemma_mod6(kab + 6 - i, (kab + 6 - i) % 6);
}

/// The action of D6 on class C hashes composes like the group: applying
/// `a * b` is applying `b` and then `a`, and the identity changes nothing.
pub proof fn lemma_d6_hash_action(a: D6, b: D6, h: u64)
    requires
        a.wf(),
        b.wf(),
        d6_valid(h),
    ensures
        d6_hash_apply(a.spec_mul(b), h) == d6_hash_apply(a, d6_hash_apply(b, h)),
        d6_hash_apply(D6::Rot(0), h) == h,
{
    let ab = a.spec_mul(b);
    let hb = d6_hash_apply(b, h);
    lemma_d6_apply_segs(b, h);
    lemma_d6_apply_segs(a, hb);
    lemma_d6_apply_segs(ab, h);
    assert forall|i: int| 0 <= i < 6 implies d6_src(ab, i) == d6_src(b, d6_src(a, i)) by {
        lemma_d6_src_compose(a, b, i);
    }
    assert(d6_segs(d6_hash_apply(ab, h)) =~= d6_segs(d6_hash_apply(a, hb)));
    lemma_d6_ext(d6_hash_apply(ab, h), d6_hash_apply(a, hb));
}

/// A hash made invariant under `op` is left unchanged by `op`; one made
/// invariant under `Rot(1)` is left unchanged by every rotation.
pub proof fn lemma_d6_make_invariant(op: D6, h: u64)
    requires
        d6_invariable(op),
    ensures
        d6_valid(d6_hash_make_invariant(op, h)),
        op is Rfl ==> d6_hash_apply(op, d6_hash_make_invariant(op, h)) == d6_hash_make_invariant(op, h),
        op is Rot ==> forall|k: u8|
            k < 6 ==> d6_hash_apply(D6::Rot(k), d6_hash_make_invariant(op, h))
                == d6_hash_make_invariant(op, h),
{
    let m = d6_hash_make_invariant(op, h);
    lemma_d6_make_segs(op, h);
    if op is Rfl {
        lemma_d6_apply_segs(op, m);
        assert(d6_segs(d6_hash_apply(op, m)) =~= d6_segs(m));
        lemma_d6_ext(d6_hash_apply(op, m), m);
    } else {
        assert forall|k: u8| k < 6 implies d6_hash_apply(D6::Rot(k), m) == m by {
            lemma_d6_apply_segs(D6::Rot(k), m);
            assert(d6_segs(d6_hash_apply(D6::Rot(k), m)) =~= d6_segs(m));
            lemma_d6_ext(d6_hash_apply(D6::Rot(k), m), m);
        }
    }
}

impl HashGroup<D6> {
    fn r1(h: u64) -> (r: u64)
        ensures
            r == d6_r1(h),
    {
        ((h << 10) | (h >> 50)) & C_MASK
    }

    fn s0(h: u64) -> (r: u64)
        ensures
            r == d6_s0(h),
    {
        let b14 = h & 0x000000ffc00003ff;
        let b26 = h & 0x0ffc0000000ffc00;
        let b35 = h & 0x0003ff003ff00000;
        let b26 = (b26 << 40) | (b26 >> 40);
        let b35 = ((b35 << 20) | (b35 >> 20)) & 0x0003ff003ff00000;
        b14 | b26 | b35
    }

    fn s1(h: u64) -> (r: u64)
        ensures
            r == d6_s1(h),
    {
        let b12 = h & 0x00000000000fffff;
        let b36 = h & 0x0ffc00003ff00000;
        let b45 = h & 0x0003ffffc0000000;
        let b12 = ((b12 << 10) | (b12 >> 10)) & 0x00000000000fffff;
        let b36 = (b36 << 30) | (b36 >> 30);
        let b45 = ((b45 << 10) | (b45 >> 10)) & 0x0003ffffc0000000;
        b12 | b36 | b45
    }

    fn s2(h: u64) -> (r: u64)
        ensures
            r == d6_s2(h),
    {
        let b13 = h & 0x000000003ff003ff;
        let b25 = h & 0x0003ff00000ffc00;
        let b46 = h & 0x0ffc00ffc0000000;
        let b13 = ((b13 << 20) | (b13 >> 20)) & 0x000000003ff003ff;
        let b46 = ((b46 << 20) | (b46 >> 20)) & 0x0ffc00ffc0000000;
        b13 | b25 | b46
    }

    fn s3(h: u64) -> (r: u64)
        ensures
            r == d6_s3(h),
    {
        let b14 = h & 0x000000ffc00003ff;
        let b23 = h & 0x000000003ffffc00;
        let b56 = h & 0x0fffff0000000000;
        let b14 = ((b14 << 30) | (b14 >> 30)) & 0x000000ffc00003ff;
        let b23 = ((b23 << 10) | (b23 >> 10)) & 0x000000003ffffc00;
        let b56 = ((b56 << 10) | (b56 >> 10)) & 0x0fffff0000000000;
        b14 | b23 | b56
    }

    fn s4(h: u64) -> (r: u64)
        ensures
            r == d6_s4(h),
    {
        let b15 = h & 0x0003ff00000003ff;
        let b24 = h & 0x000000ffc00ffc00;
        let b36 = h & 0x0ffc00003ff00000;
        let b15 = (b15 << 40) | (b15 >> 40);
        let b24 = ((b24 << 20) | (b24 >> 20)) & 0x000000ffc00ffc00;
        b15 | b24 | b36
    }

    fn s5(h: u64) -> (r: u64)
        ensures
            r == d6_s5(h),
    {
        let b16 = h & 0x0ffc0000000003ff;
        let b25 = h & 0x0003ff00000ffc00;
        let b34 = h & 0x000000fffff00000;
        let b16 = (b16 << 50) | (b16 >> 50);
        let b25 = (b25 << 30) | (b25 >> 30);
        let b34 = ((b34 << 10) | (b34 >> 10)) & 0x000000fffff00000;
        b16 | b25 | b34
    }

    /// The hash of the board after applying `op` to it.
    pub fn apply(&self, op: &D6) -> (r: Self)
        requires
            op.wf(),
        ensures
            r.view_hash() == d6_hash_apply(*op, self.view_hash()),
    {
        let h = self.hash;
        let r = match *op {
            D6::Rot(k) => if k == 0 {
                h
            } else if k == 1 {
                Self::r1(h)
            } else if k == 2 {
                Self::r1(Self::r1(h))
            } else if k == 3 {
                Self::r1(Self::r1(Self::r1(h)))
            } else if k == 4 {
                Self::r1(Self::r1(Self::r1(Self::r1(h))))
            } else {
                Self::r1(Self::r1(Self::r1(Self::r1(Self::r1(h)))))
            },
            D6::Rfl(k) => if k == 0 {
                Self::s0(h)
            } else if k == 1 {
                Self::s1(h)
            } else if k == 2 {
                Self::s2(h)
            } else if k == 3 {
                Self::s3(h)
            } else if k == 4 {
                Self::s4(h)
            } else {
                Self::s5(h)
            },
        };
        Self::new(r)
    }

    fn make_r1(h: u64) -> (r: u64)
        ensures
            r == d6_make_r1(h),
    {
        // Repeat the first 10 bits across the remaining 50 bits, leaving the
        // end zeroed out.
        let b = h & 0x3ff;
        let b = b | (b << 10);
        b | (b << 20) | (b << 40)
    }

    fn make_s0(h: u64) -> (r: u64)
        ensures
            r == d6_make_s0(h),
    {
        let b14 = h & 0x000000ffc00003ff;
        let b26 = h & 0x00000000000ffc00;
        let b35 = h & 0x000000003ff00000;
        b14 | (b26 | (b26 << 40)) | (b35 | (b35 << 20))
    }

    fn make_s1(h: u64) -> (r: u64)
        ensures
            r == d6_make_s1(h),
    {
        let b12 = h & 0x00000000000003ff;
        let b36 = h & 0x000000003ff00000;
        let b45 = h & 0x000000ffc0000000;
        (b12 | (b12 << 10)) | (b36 | (b36 << 30)) | (b45 | (b45 << 10))
    }

    fn make_s2(h: u64) -> (r: u64)
        ensures
            r == d6_make_s2(h),
    {
        let b13 = h & 0x00000000000003ff;
        let b25 = h & 0x0003ff00000ffc00;
        let b46 = h & 0x000000ffc0000000;
        (b13 | (b13 << 20)) | b25 | (b46 | (b46 << 20))
    }

    fn make_s3(h: u64) -> (r: u64)
        ensures
            r == d6_make_s3(h),
    {
        let b14 = h & 0x00000000000003ff;
        let b23 = h & 0x00000000000ffc00;
        let b56 = h & 0x0003ff0000000000;
        (b14 | (b14 << 30)) | (b23 | (b23 << 10)) | (b56 | (b56 << 10))
    }

    fn make_s4(h: u64) -> (r: u64)
        ensures
            r == d6_make_s4(h),
    {
        let b15 = h & 0x00000000000003ff;
        let b24 = h & 0x00000000000ffc00;
        let b36 = h & 0x0ffc00003ff00000;
        (b15 | (b15 << 40)) | (b24 | (b24 << 20)) | b36
    }

    fn make_s5(h: u64) -> (r: u64)
        ensures
            r == d6_make_s5(h),
    {
        let b16 = h & 0x00000000000003ff;
        let b25 = h & 0x00000000000ffc00;
        let b34 = h & 0x000000003ff00000;
        (b16 | (b16 << 50)) | (b25 | (b25 << 30)) | (b34 | (b34 << 10))
    }

    /// A hash which `op` leaves unchanged, made by copying segments of this
    /// one. `op` must be a reflection, or `Rot(1)`, for which the hash is
    /// made invariant under every rotation (no other rotation can be used).
    pub fn make_invariant(&self, op: &D6) -> (r: Self)
        requires
            d6_invariable(*op),
        ensures
            r.view_hash() == d6_hash_make_invariant(*op, self.view_hash()),
    {
        let h = self.hash;
        let r = match *op {
            D6::Rot(_) => Self::make_r1(h),
            D6::Rfl(k) => if k == 0 {
                Self::make_s0(h)
            } else if k == 1 {
                Self::make_s1(h)
            } else if k == 2 {
                Self::make_s2(h)
            } else if k == 3 {
                Self::make_s3(h)
            } else if k == 4 {
                Self::make_s4(h)
            } else {
                Self::make_s5(h)
            },
        };
        Self::new(r)
    }
}


// ---------------------------------------------------------------------------
// D3: three segments of twenty bits.
// ---------------------------------------------------------------------------

/// A hash value of class V uses only the low 60 bits.
pub open spec fn d3_valid(h: u64) -> bool {
    h >> 60u64 == 0
}

/// The three twenty-bit segments of a class V hash.
pub open spec fn d3_segs(h: u64) -> Seq<u64> {
    seq![h & 0xfffff, (h >> 20u64) & 0xfffff, (h >> 40u64) & 0xfffff]
}

/// The segment that `op` moves to segment `i`: `Rot(k)` moves segment `j` to
/// `j + k`, and `Rfl(k)` moves segment `j` to `k - j` (mod 3).
pub open spec fn d3_src(op: D3, i: int) -> int {
    match op {
        D3::Rot(k) => (i + 3 - k) % 3,
        D3::Rfl(k) => (k + 3 - i) % 3,
    }
}

/// The segments `s` after `op` permuted them.
pub open spec fn d3_permuted(op: D3, s: Seq<u64>) -> Seq<u64> {
    Seq::new(3, |i: int| s[d3_src(op, i)])
}

pub open spec fn d3_r1(h: u64) -> u64 {
    ((h << 20u64) | (h >> 40u64)) & V_MASK
}

pub open spec fn d3_s0(h: u64) -> u64 {
    let b1 = h & 0x00000000000fffff;
    let b2 = h & 0x000000fffff00000;
    let b3 = h & 0x0fffff0000000000;
    b1 | (b2 << 20u64) | (b3 >> 20u64)
}

pub open spec fn d3_s1(h: u64) -> u64 {
    let b1 = h & 0x00000000000fffff;
    let b2 = h & 0x000000fffff00000;
    let b3 = h & 0x0fffff0000000000;
    (b1 << 20u64) | (b2 >> 20u64) | b3
}

pub open spec fn d3_s2(h: u64) -> u64 {
    let b13 = h & 0x0fffff00000fffff;
    let b2 = h & 0x000000fffff00000;
    ((b13 << 40u64) | (b13 >> 40u64)) | b2
}

/// The action of `op` on a class V hash.
pub open spec fn d3_hash_apply(op: D3, h: u64) -> u64 {
    match op {
        D3::Rot(k) => if k == 0 {
            h
        } else if k == 1 {
            d3_r1(h)
        } else {
            d3_r1(d3_r1(h))
        },
        D3::Rfl(k) => if k == 0 {
            d3_s0(h)
        } else if k == 1 {
            d3_s1(h)
        } else {
            d3_s2(h)
        },
    }
}

proof fn lemma_d3_xor_bits(a: u64, b: u64)
    by (bit_vector)
    requires
        a >> 60u64 == 0,
        b >> 60u64 == 0,
    ensures
        d3_r1(a) >> 60u64 == 0,
        d3_r1(b) >> 60u64 == 0,
        d3_r1(a ^ b) == d3_r1(a) ^ d3_r1(b),
        d3_s0(a ^ b) == d3_s0(a) ^ d3_s0(b),
        d3_s1(a ^ b) == d3_s1(a) ^ d3_s1(b),
        d3_s2(a ^ b) == d3_s2(a) ^ d3_s2(b),
        (a ^ b) >> 60u64 == 0,
        d3_r1(0) == 0,
        d3_s0(0) == 0,
        d3_s1(0) == 0,
        d3_s2(0) == 0,
{
}

/// The action of a symmetry on class V hashes commutes with xor, so it
/// carries a Zobrist hash to the xor of the images of its parts.
pub proof fn lemma_d3_hash_xor(g: D3, a: u64, b: u64)
    requires
        d3_valid(a),
        d3_valid(b),
    ensures
        d3_hash_apply(g, a ^ b) == d3_hash_apply(g, a) ^ d3_hash_apply(g, b),
        d3_valid(a ^ b),
        d3_hash_apply(g, 0) == 0,
{
    lemma_d3_xor_bits(a, b);
    lemma_d3_xor_bits(d3_r1(a), d3_r1(b));
}

/// The segment that `make_invariant(op)` copies to segment `i`.
pub open spec fn d3_rep(op: D3, i: int) -> int {
    match op {
        D3::Rot(_) => 0,
        D3::Rfl(_) => if i <= d3_src(op, i) {
            i
        } else {
            d3_src(op, i)
        },
    }
}

pub open spec fn d3_make_r1(h: u64) -> u64 {
    let b = h & 0xfffff;
    b | (b << 20u64) | (b << 40u64)
}

pub open spec fn d3_make_s0(h: u64) -> u64 {
    let b1 = h & 0x00000000000fffff;
    let b23 = h & 0x000000fffff00000;
    b1 | (b23 | (b23 << 20u64))
}

pub open spec fn d3_make_s1(h: u64) -> u64 {
    let b12 = h & 0x00000000000fffff;
    let b3 = h & 0x0fffff0000000000;
    (b12 | (b12 << 20u64)) | b3
}

pub open spec fn d3_make_s2(h: u64) -> u64 {
    let b13 = h & 0x00000000000fffff;
    let b2 = h & 0x000000fffff00000;
    (b13 | (b13 << 40u64)) | b2
}

/// The hash made invariant under `op`, a reflection or the rotation `Rot(1)`.
pub open spec fn d3_hash_make_invariant(op: D3, h: u64) -> u64 {
    match op {
        D3::Rot(_) => d3_make_r1(h),
        D3::Rfl(k) => if k == 0 {
            d3_make_s0(h)
        } else if k == 1 {
            d3_make_s1(h)
        } else {
            d3_make_s2(h)
        },
    }
}

/// The operations for which `make_invariant` is defined.
pub open spec fn d3_invariable(op: D3) -> bool {
    op == D3::Rot(1) || (op.wf() && op is Rfl)
}

proof fn lemma_d3_bits(h: u64)
    by (bit_vector)
    requires
        h >> 60u64 == 0,
    ensures
        d3_r1(h) >> 60u64 == 0,
        d3_r1(h) & 0xfffff == (h >> 40u64) & 0xfffff,
        (d3_r1(h) >> 20u64) & 0xfffff == h & 0xfffff,
        (d3_r1(h) >> 40u64) & 0xfffff == (h >> 20u64) & 0xfffff,
        d3_s0(h) >> 60u64 == 0,
        d3_s0(h) & 0xfffff == h & 0xfffff,
        (d3_s0(h) >> 20u64) & 0xfffff == (h >> 40u64) & 0xfffff,
        (d3_s0(h) >> 40u64) & 0xfffff == (h >> 20u64) & 0xfffff,
        d3_s1(h) >> 60u64 == 0,
        d3_s1(h) & 0xfffff == (h >> 20u64) & 0xfffff,
        (d3_s1(h) >> 20u64) & 0xfffff == h & 0xfffff,
        (d3_s1(h) >> 40u64) & 0xfffff == (h >> 40u64) & 0xfffff,
        d3_s2(h) >> 60u64 == 0,
        d3_s2(h) & 0xfffff == (h >> 40u64) & 0xfffff,
        (d3_s2(h) >> 20u64) & 0xfffff == (h >> 20u64) & 0xfffff,
        (d3_s2(h) >> 40u64) & 0xfffff == h & 0xfffff,
        d3_make_r1(h) >> 60u64 == 0,
        d3_make_r1(h) & 0xfffff == h & 0xfffff,
        (d3_make_r1(h) >> 20u64) & 0xfffff == h & 0xfffff,
        (d3_make_r1(h) >> 40u64) & 0xfffff == h & 0xfffff,
        d3_make_s0(h) >> 60u64 == 0,
        d3_make_s0(h) & 0xfffff == h & 0xfffff,
        (d3_make_s0(h) >> 20u64) & 0xfffff == (h >> 20u64) & 0xfffff,
        (d3_make_s0(h) >> 40u64) & 0xfffff == (h >> 20u64) & 0xfffff,
        d3_make_s1(h) >> 60u64 == 0,
        d3_make_s1(h) & 0xfffff == h & 0xfffff,
        (d3_make_s1(h) >> 20u64) & 0xfffff == h & 0xfffff,
        (d3_make_s1(h) >> 40u64) & 0xfffff == (h >> 40u64) & 0xfffff,
        d3_make_s2(h) >> 60u64 == 0,
        d3_make_s2(h) & 0xfffff == h & 0xfffff,
        (d3_make_s2(h) >> 20u64) & 0xfffff == (h >> 20u64) & 0xfffff,
        (d3_make_s2(h) >> 40u64) & 0xfffff == h & 0xfffff,
{
}

proof fn lemma_d3_ext_bits(a: u64, b: u64)
    by (bit_vector)
    requires
        a >> 60u64 == 0,
        b >> 60u64 == 0,
        a & 0xfffff == b & 0xfffff,
        (a >> 20u64) & 0xfffff == (b >> 20u64) & 0xfffff,
        (a >> 40u64) & 0xfffff == (b >> 40u64) & 0xfffff,
    ensures
        a == b,
{
}

/// Two class V hashes with the same segments are equal.
pub proof fn lemma_d3_ext(a: u64, b: u64)
    requires
        d3_valid(a),
        d3_valid(b),
        d3_segs(a) == d3_segs(b),
    ensures
        a == b,
{
    assert(d3_segs(a)[0] == d3_segs(b)[0]);
    assert(d3_segs(a)[1] == d3_segs(b)[1]);
    assert(d3_segs(a)[2] == d3_segs(b)[2]);
    lemma_d3_ext_bits(a, b);
}

/// Each symmetry permutes the segments of a class V hash.
pub proof fn lemma_d3_apply_segs(op: D3, h: u64)
    requires
        op.wf(),
        d3_valid(h),
    ensures
        d3_valid(d3_hash_apply(op, h)),
        d3_segs(d3_hash_apply(op, h)) == d3_permuted(op, d3_segs(h)),
{
    let s = d3_segs(h);
    lemma_d3_bits(h);
    lemma_d3_bits(d3_r1(h));
    assert(d3_segs(d3_hash_apply(op, h)) =~= d3_permuted(op, s));
}

/// `make_invariant` copies, to each segment, its representative under `op`.
pub proof fn lemma_d3_make_segs(op: D3, h: u64)
    requires
        d3_invariable(op),
        d3_valid(h),
    ensures
        d3_valid(d3_hash_make_invariant(op, h)),
        d3_segs(d3_hash_make_invariant(op, h)) == Seq::new(3, |i: int| d3_segs(h)[d3_rep(op, i)]),
{
    lemma_d3_bits(h);
    assert(d3_segs(d3_hash_make_invariant(op, h)) =~= Seq::new(
        3,
        |i: int| d3_segs(h)[d3_rep(op, i)],
    ));
}

proof fn lemma_mod3(x: int, y: int)
    requires
        -6 <= x < 12,
        y == x % 3,
    ensures
        0 <= y < 3,
        x < -3 ==> y == x + 6,
        -3 <= x < 0 ==> y == x + 3,
        0 <= x < 3 ==> y == x,
        3 <= x < 6 ==> y == x - 3,
        6 <= x < 9 ==> y == x - 6,
        9 <= x ==> y == x - 9,
{
}

proof fn lemma_d3_src_compose(a: D3, b: D3, i: int)
    requires
        a.wf(),
        b.wf(),
        0 <= i < 3,
    ensures
        d3_src(a.spec_mul(b), i) == d3_src(b, d3_src(a, i)),
        0 <= d3_src(a, i) < 3,
{
    let ka = match a {
        D3::Rot(k) => k as int,
        D3::Rfl(k) => k as int,
    };
    let kb = match b {
        D3::Rot(k) => k as int,
        D3::Rfl(k) => k as int,
    };
    lemma_mod3(ka + kb, (ka + kb) % 3);
    lemma_mod3(ka + 3 - kb, (ka + 3 - kb) % 3);
    lemma_mod3(i + 3 - ka, (i + 3 - ka) % 3);
    lemma_mod3(ka + 3 - i, (ka + 3 - i) % 3);
    let j = d3_src(a, i);
    lemma_mod3(j + 3 - kb, (j + 3 - kb) % 3);
    lemma_mod3(kb + 3 - j, (kb + 3 - j) % 3);
    let kab = match a.spec_mul(b) {
        D3::Rot(k) => k as int,
        D3::Rfl(k) => k as int,
    };
    lemma_mod3(i + 3 - kab, (i + 3 - kab) % 3);
    lemma_mod3(kab + 3 - i, (kab + 3 - i) % 3);
}

/// The action of D3 on class V hashes composes like the group, and the
/// identity changes nothing.
pub proof fn lemma_d3_hash_action(a: D3, b: D3, h: u64)
    requires
        a.wf(),
        b.wf(),
        d3_valid(h),
    ensures
        d3_hash_apply(a.spec_mul(b), h) == d3_hash_apply(a, d3_hash_apply(b, h)),
        d3_hash_apply(D3::Rot(0), h) == h,
{
    let ab = a.spec_mul(b);
    let hb = d3_hash_apply(b, h);
    lemma_d3_apply_segs(b, h);
    lemma_d3_apply_segs(a, hb);
    lemma_d3_apply_segs(ab, h);
    assert forall|i: int| 0 <= i < 3 implies d3_src(ab, i) == d3_src(b, d3_src(a, i)) by {
        lemma_d3_src_compose(a, b, i);
    }
    assert(d3_segs(d3_hash_apply(ab, h)) =~= d3_segs(d3_hash_apply(a, hb)));
    lemma_d3_ext(d3_hash_apply(ab, h), d3_hash_apply(a, hb));
}

/// A hash made invariant under `op` is left unchanged by `op`; one made
/// invariant under `Rot(1)` is left unchanged by every rotation.
pub proof fn lemma_d3_make_invariant(op: D3, h: u64)
    requires
        d3_invariable(op),
        d3_valid(h),
    ensures
        d3_valid(d3_hash_make_invariant(op, h)),
        op is Rfl ==> d3_hash_apply(op, d3_hash_make_invariant(op, h)) == d3_hash_make_invariant(op, h),
        op is Rot ==> forall|k: u8|
            k < 3 ==> d3_hash_apply(D3::Rot(k), d3_hash_make_invariant(op, h))
                == d3_hash_make_invariant(op, h),
{
    let m = d3_hash_make_invariant(op, h);
    lemma_d3_make_segs(op, h);
    if op is Rfl {
        lemma_d3_apply_segs(op, m);
        assert(d3_segs(d3_hash_apply(op, m)) =~= d3_segs(m));
        lemma_d3_ext(d3_hash_apply(op, m), m);
    } else {
        assert forall|k: u8| k < 3 implies d3_hash_apply(D3::Rot(k), m) == m by {
            lemma_d3_apply_segs(D3::Rot(k), m);
            assert(d3_segs(d3_hash_apply(D3::Rot(k), m)) =~= d3_segs(m));
            lemma_d3_ext(d3_hash_apply(D3::Rot(k), m), m);
        }
    }
}

impl HashGroup<D3> {
    fn r1(h: u64) -> (r: u64)
        ensures
            r == d3_r1(h),
    {
        ((h << 20) | (h >> 40)) & V_MASK
    }

    fn s0(h: u64) -> (r: u64)
        ensures
            r == d3_s0(h),
    {
        let b1 = h & 0x00000000000fffff;
        let b2 = h & 0x000000fffff00000;
        let b3 = h & 0x0fffff0000000000;
        b1 | (b2 << 20) | (b3 >> 20)
    }

    fn s1(h: u64) -> (r: u64)
        ensures
            r == d3_s1(h),
    {
        let b1 = h & 0x00000000000fffff;
        let b2 = h & 0x000000fffff00000;
        let b3 = h & 0x0fffff0000000000;
        (b1 << 20) | (b2 >> 20) | b3
    }

    fn s2(h: u64) -> (r: u64)
        ensures
            r == d3_s2(h),
    {
        let b13 = h & 0x0fffff00000fffff;
        let b2 = h & 0x000000fffff00000;
        ((b13 << 40) | (b13 >> 40)) | b2
    }

    /// The hash of the board after applying `op` to it.
    pub fn apply(&self, op: &D3) -> (r: Self)
        requires
            op.wf(),
        ensures
            r.view_hash() == d3_hash_apply(*op, self.view_hash()),
    {
        let h = self.hash;
        let r = match *op {
            D3::Rot(k) => if k == 0 {
                h
            } else if k == 1 {
                Self::r1(h)
            } else {
                Self::r1(Self::r1(h))
            },
            D3::Rfl(k) => if k == 0 {
                Self::s0(h)
            } else if k == 1 {
                Self::s1(h)
            } else {
                Self::s2(h)
            },
        };
        Self::new(r)
    }

    /// A hash which `op` leaves unchanged, made by copying segments of this
    /// one. `op` must be a reflection, or `Rot(1)`, for which the hash is
    /// made invariant under every rotation.
    pub fn make_invariant(&self, op: &D3) -> (r: Self)
        requires
            d3_invariable(*op),
        ensures
            r.view_hash() == d3_hash_make_invariant(*op, self.view_hash()),
    {
        let h = self.hash;
        let r = match *op {
            D3::Rot(_) => {
                // Repeat the first 20 bits across the next 40 bits.
                let b = h & 0xfffff;
                b | (b << 20) | (b << 40)
            },
            D3::Rfl(k) => if k == 0 {
                let b1 = h & 0x00000000000fffff;
                let b23 = h & 0x000000fffff00000;
                b1 | (b23 | (b23 << 20))
            } else if k == 1 {
                let b12 = h & 0x00000000000fffff;
                let b3 = h & 0x0fffff0000000000;
                (b12 | (b12 << 20)) | b3
            } else {
                let b13 = h & 0x00000000000fffff;
                let b2 = h & 0x000000fffff00000;
                (b13 | (b13 << 40)) | b2
            },
        };
        Self::new(r)
    }
}

// ---------------------------------------------------------------------------
// K4: four segments of sixteen bits.
// ---------------------------------------------------------------------------

/// Every 64-bit value is a class E hash.
pub open spec fn k4_valid(h: u64) -> bool {
    true
}

/// The four sixteen-bit segments of a class E hash.
pub open spec fn k4_segs(h: u64) -> Seq<u64> {
    seq![h & 0xffff, (h >> 16u64) & 0xffff, (h >> 32u64) & 0xffff, (h >> 48u64) & 0xffff]
}

/// The segment that `op` moves to segment `i`: the left factor swaps the two
/// halves, the right factor swaps the segments within each half.
pub open spec fn k4_src(op: K4, i: int) -> int {
    let j = if op.left.0 == 1 {
        (i + 2) % 4
    } else {
        i
    };
    if op.right.0 == 1 {
        if j % 2 == 0 {
            j + 1
        } else {
            j - 1
        }
    } else {
        j
    }
}

/// The segments `s` after `op` permuted them.
pub open spec fn k4_permuted(op: K4, s: Seq<u64>) -> Seq<u64> {
    Seq::new(4, |i: int| s[k4_src(op, i)])
}

pub open spec fn k4_a(h: u64) -> u64 {
    (h >> 32u64) | (h << 32u64)
}

pub open spec fn k4_b(h: u64) -> u64 {
    let b13 = h & 0x0000ffff0000ffff;
    let b24 = h & 0xffff0000ffff0000;
    (b13 << 16u64) | (b24 >> 16u64)
}

pub open spec fn k4_c(h: u64) -> u64 {
    ((h & 0xffff) << 48u64) | ((h & 0xffff_0000) << 16u64) | ((h >> 16u64) & 0xffff_0000) | (h
        >> 48u64)
}

/// The action of `op` on a class E hash.
pub open spec fn k4_hash_apply(op: K4, h: u64) -> u64 {
    if op.left.0 == 0 && op.right.0 == 0 {
        h
    } else if op.left.0 == 1 && op.right.0 == 0 {
        k4_a(h)
    } else if op.left.0 == 0 {
        k4_b(h)
    } else {
        k4_c(h)
    }
}

proof fn lemma_k4_xor_bits(a: u64, b: u64)
    by (bit_vector)
    ensures
        k4_a(a ^ b) == k4_a(a) ^ k4_a(b),
        k4_b(a ^ b) == k4_b(a) ^ k4_b(b),
        k4_c(a ^ b) == k4_c(a) ^ k4_c(b),
        k4_a(0) == 0,
        k4_b(0) == 0,
        k4_c(0) == 0,
{
}

/// The action of a symmetry on class E hashes commutes with xor, so it
/// carries a Zobrist hash to the xor of the images of its parts.
pub proof fn lemma_k4_hash_xor(g: K4, a: u64, b: u64)
    ensures
        k4_hash_apply(g, a ^ b) == k4_hash_apply(g, a) ^ k4_hash_apply(g, b),
        k4_hash_apply(g, 0) == 0,
{
    lemma_k4_xor_bits(a, b);
}

/// The segment that `make_invariant(op)` copies to segment `i`.
pub open spec fn k4_rep(op: K4, i: int) -> int {
    if i <= k4_src(op, i) {
        i
    } else {
        k4_src(op, i)
    }
}

pub open spec fn k4_make_a(h: u64) -> u64 {
    let b12 = h & 0x0000_0000_ffff_ffff;
    b12 | (b12 << 32u64)
}

pub open spec fn k4_make_b(h: u64) -> u64 {
    let b13 = h & 0x0000_ffff_0000_ffff;
    b13 | (b13 << 16u64)
}

pub open spec fn k4_make_c(h: u64) -> u64 {
    let b1 = h & 0xffff;
    let b2 = h & 0xffff_0000;
    b1 | b2 | (b2 << 16u64) | (b1 << 48u64)
}

/// The hash made invariant under `op`, which is not the identity.
pub open spec fn k4_hash_make_invariant(op: K4, h: u64) -> u64 {
    if op.left.0 == 1 && op.right.0 == 0 {
        k4_make_a(h)
    } else if op.left.0 == 0 {
        k4_make_b(h)
    } else {
        k4_make_c(h)
    }
}

/// The operations for which `make_invariant` is defined.
pub open spec fn k4_invariable(op: K4) -> bool {
    op.wf() && !(op.left.0 == 0 && op.right.0 == 0)
}

proof fn lemma_k4_bits(h: u64)
    by (bit_vector)
    ensures
        k4_a(h) & 0xffff == (h >> 32u64) & 0xffff,
        (k4_a(h) >> 16u64) & 0xffff == (h >> 48u64) & 0xffff,
        (k4_a(h) >> 32u64) & 0xffff == h & 0xffff,
        (k4_a(h) >> 48u64) & 0xffff == (h >> 16u64) & 0xffff,
        k4_b(h) & 0xffff == (h >> 16u64) & 0xffff,
        (k4_b(h) >> 16u64) & 0xffff == h & 0xffff,
        (k4_b(h) >> 32u64) & 0xffff == (h >> 48u64) & 0xffff,
        (k4_b(h) >> 48u64) & 0xffff == (h >> 32u64) & 0xffff,
        k4_c(h) & 0xffff == (h >> 48u64) & 0xffff,
        (k4_c(h) >> 16u64) & 0xffff == (h >> 32u64) & 0xffff,
        (k4_c(h) >> 32u64) & 0xffff == (h >> 16u64) & 0xffff,
        (k4_c(h) >> 48u64) & 0xffff == h & 0xffff,
        k4_make_a(h) & 0xffff == h & 0xffff,
        (k4_make_a(h) >> 16u64) & 0xffff == (h >> 16u64) & 0xffff,
        (k4_make_a(h) >> 32u64) & 0xffff == h & 0xffff,
        (k4_make_a(h) >> 48u64) & 0xffff == (h >> 16u64) & 0xffff,
        k4_make_b(h) & 0xffff == h & 0xffff,
        (k4_make_b(h) >> 16u64) & 0xffff == h & 0xffff,
        (k4_make_b(h) >> 32u64) & 0xffff == (h >> 32u64) & 0xffff,
        (k4_make_b(h) >> 48u64) & 0xffff == (h >> 32u64) & 0xffff,
        k4_make_c(h) & 0xffff == h & 0xffff,
        (k4_make_c(h) >> 16u64) & 0xffff == (h >> 16u64) & 0xffff,
        (k4_make_c(h) >> 32u64) & 0xffff == (h >> 16u64) & 0xffff,
        (k4_make_c(h) >> 48u64) & 0xffff == h & 0xffff,
{
}

proof fn lemma_k4_ext_bits(a: u64, b: u64)
    by (bit_vector)
    requires
        a & 0xffff == b & 0xffff,
        (a >> 16u64) & 0xffff == (b >> 16u64) & 0xffff,
        (a >> 32u64) & 0xffff == (b >> 32u64) & 0xffff,
        (a >> 48u64) & 0xffff == (b >> 48u64) & 0xffff,
    ensures
        a == b,
{
}

/// Two class E hashes with the same segments are equal.
pub proof fn lemma_k4_ext(a: u64, b: u64)
    requires
        k4_segs(a) == k4_segs(b),
    ensures
        a == b,
{
    assert(k4_segs(a)[0] == k4_segs(b)[0]);
    assert(k4_segs(a)[1] == k4_segs(b)[1]);
    assert(k4_segs(a)[2] == k4_segs(b)[2]);
    assert(k4_segs(a)[3] == k4_segs(b)[3]);
    lemma_k4_ext_bits(a, b);
}

/// Each symmetry permutes the segments of a class E hash.
pub proof fn lemma_k4_apply_segs(op: K4, h: u64)
    requires
        op.wf(),
    ensures
        k4_segs(k4_hash_apply(op, h)) == k4_permuted(op, k4_segs(h)),
{
    lemma_k4_bits(h);
    assert(k4_segs(k4_hash_apply(op, h)) =~= k4_permuted(op, k4_segs(h)));
}

/// `make_invariant` copies, to each segment, its representative under `op`.
pub proof fn lemma_k4_make_segs(op: K4, h: u64)
    requires
        k4_invariable(op),
    ensures
        k4_segs(k4_hash_make_invariant(op, h)) == Seq::new(4, |i: int| k4_segs(h)[k4_rep(op, i)]),
{
    lemma_k4_bits(h);
    assert(k4_segs(k4_hash_make_invariant(op, h)) =~= Seq::new(
        4,
        |i: int| k4_segs(h)[k4_rep(op, i)],
    ));
}

/// The action of K4 on class E hashes composes like the group, and the
/// identity changes nothing.
pub proof fn lemma_k4_hash_action(a: K4, b: K4, h: u64)
    requires
        a.wf(),
        b.wf(),
    ensures
        k4_hash_apply(a.spec_mul(b), h) == k4_hash_apply(a, k4_hash_apply(b, h)),
        k4_hash_apply(K4::identity_spec(), h) == h,
{
    let ab = a.spec_mul(b);
    let hb = k4_hash_apply(b, h);
    lemma_k4_apply_segs(b, h);
    lemma_k4_apply_segs(a, hb);
    lemma_k4_apply_segs(ab, h);
    assert(k4_segs(k4_hash_apply(ab, h)) =~= k4_segs(k4_hash_apply(a, hb)));
    lemma_k4_ext(k4_hash_apply(ab, h), k4_hash_apply(a, hb));
}

/// A hash made invariant under `op` is left unchanged by `op`.
pub proof fn lemma_k4_make_invariant(op: K4, h: u64)
    requires
        k4_invariable(op),
    ensures
        k4_hash_apply(op, k4_hash_make_invariant(op, h)) == k4_hash_make_invariant(op, h),
{
    let m = k4_hash_make_invariant(op, h);
    lemma_k4_make_segs(op, h);
    lemma_k4_apply_segs(op, m);
    assert(k4_segs(k4_hash_apply(op, m)) =~= k4_segs(m));
    lemma_k4_ext(k4_hash_apply(op, m), m);
}

impl HashGroup<K4> {
    fn a(h: u64) -> (r: u64)
        ensures
            r == k4_a(h),
    {
        (h >> 32) | (h << 32)
    }

    fn b(h: u64) -> (r: u64)
        ensures
            r == k4_b(h),
    {
        let b13 = h & 0x0000ffff0000ffff;
        let b24 = h & 0xffff0000ffff0000;
        (b13 << 16) | (b24 >> 16)
    }

    fn c(h: u64) -> (r: u64)
        ensures
            r == k4_c(h),
    {
        // Reverse the order of the four 16-bit segments.
        ((h & 0xffff) << 48) | ((h & 0xffff_0000) << 16) | ((h >> 16) & 0xffff_0000) | (h >> 48)
    }

    /// The hash of the board after applying `op` to it.
    pub fn apply(&self, op: &K4) -> (r: Self)
        requires
            op.wf(),
        ensures
            r.view_hash() == k4_hash_apply(*op, self.view_hash()),
    {
        let h = self.hash;
        let r = if op.left.0 == 0 && op.right.0 == 0 {
            h
        } else if op.left.0 == 1 && op.right.0 == 0 {
            Self::a(h)
        } else if op.left.0 == 0 {
            Self::b(h)
        } else {
            Self::c(h)
        };
        Self::new(r)
    }

    /// A hash which `op` leaves unchanged, made by copying segments of this
    /// one. `op` must not be the identity.
    pub fn make_invariant(&self, op: &K4) -> (r: Self)
        requires
            k4_invariable(*op),
        ensures
            r.view_hash() == k4_hash_make_invariant(*op, self.view_hash()),
    {
        let h = self.hash;
        let r = if op.left.0 == 1 && op.right.0 == 0 {
            let b12 = h & 0x0000_0000_ffff_ffff;
            b12 | (b12 << 32)
        } else if op.left.0 == 0 {
            let b13 = h & 0x0000_ffff_0000_ffff;
            b13 | (b13 << 16)
        } else {
            let b1 = h & 0xffff;
            let b2 = h & 0xffff_0000;
            b1 | b2 | (b2 << 16) | (b1 << 48)
        };
        Self::new(r)
    }
}

// ---------------------------------------------------------------------------
// C2: two segments of thirty-two bits.
// ---------------------------------------------------------------------------

/// Every 64-bit value is a hash of class CV, CE or EV.
pub open spec fn c2_valid(h: u64) -> bool {
    true
}

pub open spec fn c2_a(h: u64) -> u64 {
    (h >> 32u64) | (h << 32u64)
}

pub open spec fn c2_make_a(h: u64) -> u64 {
    let b12 = h & 0x0000_0000_ffff_ffff;
    b12 | (b12 << 32u64)
}

/// The action of `op` on a hash of class CV, CE or EV: the nontrivial
/// element swaps the two halves.
pub open spec fn c2_hash_apply(op: C2, h: u64) -> u64 {
    if op.0 == 1 {
        c2_a(h)
    } else {
        h
    }
}

proof fn lemma_c2_xor_bits(a: u64, b: u64)
    by (bit_vector)
    ensures
        c2_a(a ^ b) == c2_a(a) ^ c2_a(b),
        c2_a(0) == 0,
{
}

/// The action of a symmetry on class CV, CE and EV hashes commutes with
/// xor, so it carries a Zobrist hash to the xor of the images of its parts.
pub proof fn lemma_c2_hash_xor(g: C2, a: u64, b: u64)
    ensures
        c2_hash_apply(g, a ^ b) == c2_hash_apply(g, a) ^ c2_hash_apply(g, b),
        c2_hash_apply(g, 0) == 0,
{
    lemma_c2_xor_bits(a, b);
}

proof fn lemma_c2_bits(h: u64)
    by (bit_vector)
    ensures
        c2_a(c2_a(h)) == h,
        c2_a(c2_make_a(h)) == c2_make_a(h),
        c2_make_a(h) & 0xffff_ffff == h & 0xffff_ffff,
{
}

/// The action of C2 on hashes composes like the group, and the identity
/// changes nothing.
pub proof fn lemma_c2_hash_action(a: C2, b: C2, h: u64)
    requires
        a.wf(),
        b.wf(),
    ensures
        c2_hash_apply(a.spec_mul(b), h) == c2_hash_apply(a, c2_hash_apply(b, h)),
        c2_hash_apply(C2(0), h) == h,
{
    lemma_c2_bits(h);
}

/// A hash made invariant under the nontrivial element is left unchanged by
/// it.
pub proof fn lemma_c2_make_invariant(h: u64)
    ensures
        c2_hash_apply(C2(1), c2_make_a(h)) == c2_make_a(h),
{
    lemma_c2_bits(h);
}

impl HashGroup<C2> {
    /// The hash of the board after applying `op` to it.
    pub fn apply(&self, op: &C2) -> (r: Self)
        requires
            op.wf(),
        ensures
            r.view_hash() == c2_hash_apply(*op, self.view_hash()),
    {
        let h = self.hash;
        if op.0 == 1 {
            Self::new((h >> 32) | (h << 32))
        } else {
            Self::new(h)
        }
    }

    /// A hash which the nontrivial element leaves unchanged, made by copying
    /// the low half of this one into its high half. `op` must be the
    /// nontrivial element.
    pub fn make_invariant(&self, op: &C2) -> (r: Self)
        requires
            op.0 == 1,
        ensures
            r.view_hash() == c2_make_a(self.view_hash()),
    {
        let b12 = self.hash & 0x0000_0000_ffff_ffff;
        Self::new(b12 | (b12 << 32))
    }
}

} // verus!
