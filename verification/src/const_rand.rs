use vstd::prelude::*;

verus! {

/// The xoroshiro128+ pseudo-random number generator, whose state is two
/// 64-bit words.
#[derive(Clone, Copy, Debug)]
pub struct Xoroshiro128 {
    pub state: [u64; 2],
}

/// `x` rotated left by `n` bits, for `0 < n < 64`.
pub open spec fn rotl(x: u64, n: u64) -> u64 {
    (x << n) | (x >> ((64 - n) as u64))
}

/// The state following `(s0, s1)`.
pub open spec fn xoroshiro_next_state(s0: u64, s1: u64) -> (u64, u64) {
    let t = s0 ^ s1;
    (rotl(s0, 55) ^ t ^ (t << 14u64), rotl(t, 36))
}

/// The number drawn from the state `(s0, s1)`: their wrapping sum.
pub open spec fn xoroshiro_output(s0: u64, s1: u64) -> u64 {
    ((s0 + s1) % 0x1_0000_0000_0000_0000) as u64
}

/// The state after `k` draws from the state `(s0, s1)`.
pub open spec fn xoroshiro_state(s0: u64, s1: u64, k: nat) -> (u64, u64)
    decreases k,
{
    if k == 0 {
        (s0, s1)
    } else {
        let prev = xoroshiro_state(s0, s1, (k - 1) as nat);
        xoroshiro_next_state(prev.0, prev.1)
    }
}

/// The number drawn at the `k`-th draw (counting from zero) from the state
/// `(s0, s1)`.
pub open spec fn xoroshiro_nth(s0: u64, s1: u64, k: nat) -> u64 {
    let st = xoroshiro_state(s0, s1, k);
    xoroshiro_output(st.0, st.1)
}

impl Xoroshiro128 {
    /// A generator whose state is the first two words of `seed`, which must
    /// hold at least two words.
    pub fn from_seed(seed: &[u64]) -> (r: Self)
        requires
            seed@.len() >= 2,
        ensures
            r.state[0] == seed@[0],
            r.state[1] == seed@[1],
    {
        Xoroshiro128 { state: [seed[0], seed[1]] }
    }

    /// Draws the next number: returns the following generator state and the
    /// number drawn.
    pub fn next_u64(&self) -> (r: (Self, u64))
        ensures
            r.1 == xoroshiro_output(self.state[0], self.state[1]),
            (r.0.state[0], r.0.state[1]) == xoroshiro_next_state(self.state[0], self.state[1]),
    {
        let s0 = self.state[0];
        let s1 = self.state[1];
        let result = s0.wrapping_add(s1);
        let s1 = s0 ^ s1;
        let rot_s0 = (s0 << 55u64) | (s0 >> 9u64);
        let rot_s1 = (s1 << 36u64) | (s1 >> 28u64);
        (Xoroshiro128 { state: [rot_s0 ^ s1 ^ (s1 << 14u64), rot_s1] }, result)
    }
}

} // verus!
