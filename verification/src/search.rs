use vstd::prelude::*;

use core::marker::PhantomData;

verus! {

/// Counters of a game tree search.
#[derive(Clone, Copy, Debug, PartialEq, Eq, Structural)]
pub struct Metrics {
    pub n_states: u64,
    pub n_hits: u64,
    pub n_misses: u64,
    pub n_leaves: u64,
}

impl Metrics {
    /// All counters at zero.
    pub fn new() -> (r: Self)
        ensures
            r == (Metrics { n_states: 0, n_hits: 0, n_misses: 0, n_leaves: 0 }),
    {
        Metrics { n_states: 0, n_hits: 0, n_misses: 0, n_leaves: 0 }
    }

    /// The counters of two searches added up.
    pub fn add(self, rhs: Self) -> (r: Self)
        requires
            self.n_states + rhs.n_states <= u64::MAX,
            self.n_hits + rhs.n_hits <= u64::MAX,
            self.n_misses + rhs.n_misses <= u64::MAX,
            self.n_leaves + rhs.n_leaves <= u64::MAX,
        ensures
            r.n_states == self.n_states + rhs.n_states,
            r.n_hits == self.n_hits + rhs.n_hits,
            r.n_misses == self.n_misses + rhs.n_misses,
            r.n_leaves == self.n_leaves + rhs.n_leaves,
    {
        Metrics {
            n_states: self.n_states + rhs.n_states,
            n_hits: self.n_hits + rhs.n_hits,
            n_misses: self.n_misses + rhs.n_misses,
            n_leaves: self.n_leaves + rhs.n_leaves,
        }
    }
}

/// Options of a parallel search: the number of threads, and the depth of
/// the units of work handed to them.
#[derive(Clone, Copy, Debug, PartialEq, Eq, Structural)]
pub struct ParSearchOptions {
    pub n_threads: u32,
    pub unit_depth: u32,
}

impl ParSearchOptions {
    pub fn with_n_threads(&self, n_threads: u32) -> (r: Self)
        ensures
            r == (ParSearchOptions { n_threads, ..*self }),
    {
        ParSearchOptions { n_threads, ..*self }
    }

    pub fn with_unit_depth(&self, unit_depth: u32) -> (r: Self)
        ensures
            r == (ParSearchOptions { unit_depth, ..*self }),
    {
        ParSearchOptions { unit_depth, ..*self }
    }
}

impl Default for ParSearchOptions {
    /// Four threads, with units of work three moves deep.
    fn default() -> (r: Self)
        ensures
            r == (ParSearchOptions { n_threads: 4, unit_depth: 3 }),
    {
        ParSearchOptions { n_threads: 4, unit_depth: 3 }
    }
}

/// The little-endian number of eight bytes.
pub open spec fn le_u64(b: Seq<u8>) -> int {
    b[0] + 0x100 * b[1] + 0x1_0000 * b[2] + 0x100_0000 * b[3] + 0x1_0000_0000 * b[4]
        + 0x100_0000_0000 * b[5] + 0x1_0000_0000_0000 * b[6] + 0x100_0000_0000_0000 * b[7]
}

/// A hasher for keys that are hashes already: it takes the eight bytes it is
/// given, in little-endian order, as the hash.
#[derive(Debug)]
pub struct PassThroughHasher {
    state: u64,
}

impl PassThroughHasher {
    pub closed spec fn state_spec(self) -> u64 {
        self.state
    }

    /// Takes the eight bytes of a hash, which must be the only bytes this
    /// hasher is given.
    pub fn write(&mut self, bytes: &[u8])
        requires
            bytes@.len() == 8,
            old(self).state_spec() == 0,
        ensures
            final(self).state_spec() == le_u64(bytes@),
    {
        self.state = bytes[0] as u64 + 0x100 * (bytes[1] as u64) + 0x1_0000 * (bytes[2] as u64)
            + 0x100_0000 * (bytes[3] as u64) + 0x1_0000_0000 * (bytes[4] as u64) + 0x100_0000_0000
            * (bytes[5] as u64) + 0x1_0000_0000_0000 * (bytes[6] as u64) + 0x100_0000_0000_0000
            * (bytes[7] as u64);
    }

    /// The hash.
    pub fn finish(&self) -> (r: u64)
        ensures
            r == self.state_spec(),
    {
        self.state
    }
}

/// Builds `PassThroughHasher`s.
#[derive(Clone, Copy, Debug)]
pub struct BuildPassThroughHasher;

impl BuildPassThroughHasher {
    /// A hasher that has been given no bytes yet.
    pub fn build_hasher(&self) -> (r: PassThroughHasher)
        ensures
            r.state_spec() == 0,
    {
        PassThroughHasher { state: 0 }
    }
}

/// A solver of Onoro games, which solves the view of the game with solver
/// `S`.
#[derive(Debug)]
pub struct OnoroSolver<S> {
    solver: S,
}

impl<S> OnoroSolver<S> {
    pub closed spec fn solver_spec(self) -> S {
        self.solver
    }

    pub fn new(solver: S) -> (r: Self)
        ensures
            r.solver_spec() == solver,
    {
        OnoroSolver { solver }
    }
}

/// A player of games of type `G` at a terminal.
#[derive(Debug)]
pub struct OnoroPlayer<G> {
    _phantom: PhantomData<G>,
}

impl<G> OnoroPlayer<G> {
    pub fn new() -> (r: Self) {
        OnoroPlayer { _phantom: PhantomData }
    }
}

} // verus!
