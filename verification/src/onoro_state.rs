use vstd::prelude::*;

verus! {

/// The turn counter and flags of a game, packed into one byte:
///
/// ```text
/// [0]: black's turn?
/// [1]: overflow for black's turn (always clear)
/// [2]: finished?
/// [3]: unused (always clear)
/// [4..=7]: turn
/// ```
///
/// The turn counter stops incrementing after the first phase, so 4 bits are
/// enough for games of up to 16 pawns.
#[derive(Clone, Copy, Debug, PartialEq, Eq, Structural)]
pub struct OnoroState {
    data: u8,
}

impl OnoroState {
    pub closed spec fn raw(self) -> u8 {
        self.data
    }

    /// The turn counter.
    pub open spec fn turn_spec(self) -> nat {
        (self.raw() / 16) as nat
    }

    /// Whether it is black's turn.
    pub open spec fn black_turn_spec(self) -> bool {
        self.raw() % 2 == 1
    }

    /// Whether the game is finished.
    pub open spec fn finished_spec(self) -> bool {
        (self.raw() / 4) % 2 == 1
    }

    /// The unused bits are clear.
    pub open spec fn wf(self) -> bool {
        (self.raw() / 2) % 2 == 0 && (self.raw() / 8) % 2 == 0
    }

    /// Two well-formed states with the same turn counter and flags are the
    /// same state. So swapping the player to move twice gives back the state.
    pub proof fn lemma_state_ext(a: Self, b: Self)
        requires
            a.wf(),
            b.wf(),
            a.turn_spec() == b.turn_spec(),
            a.black_turn_spec() == b.black_turn_spec(),
            a.finished_spec() == b.finished_spec(),
        ensures
            a == b,
    {
        let (x, y) = (a.data, b.data);
        assert(((x / 2) % 2 == 0 && (x / 8) % 2 == 0 && (y / 2) % 2 == 0 && (y / 8) % 2 == 0
            && x / 16 == y / 16 && (x % 2 == 1) == (y % 2 == 1) && ((x / 4) % 2 == 1) == ((y / 4)
            % 2 == 1)) ==> x == y) by (bit_vector);
    }

    /// The state before the first pawn is placed: the turn counter is 0xf, so
    /// that it becomes 0 after the first pawn, and it is black's turn.
    pub fn new() -> (r: Self)
        ensures
            r.wf(),
            r.turn_spec() == 15,
            r.black_turn_spec(),
            !r.finished_spec(),
    {
        OnoroState { data: 0xf1 }
    }

    pub fn turn(&self) -> (r: u32)
        ensures
            r == self.turn_spec(),
            r < 16,
    {
        let d: u8 = self.data;
        assert(d >> 4 == d / 16) by (bit_vector);
        (d >> 4) as u32
    }

    /// Increments the turn and swaps which player's turn it is. This is used
    /// only in the first phase, where the turn count increments.
    pub fn inc_turn(&mut self)
        requires
            old(self).wf(),
        ensures
            final(self).wf(),
            final(self).turn_spec() == (old(self).turn_spec() + 1) % 16,
            final(self).black_turn_spec() == !old(self).black_turn_spec(),
            final(self).finished_spec() == old(self).finished_spec(),
    {
        let d: u8 = self.data;
        let w: u16 = d as u16 + 0x11;
        let r: u8 = (w & 0xf5) as u8;
        assert(((d / 2) % 2 == 0 && (d / 8) % 2 == 0) ==> {
            let r = ((((d as u16) + 0x11u16) as u16) & 0xf5u16) as u8;
            &&& (r / 2) % 2 == 0
            &&& (r / 8) % 2 == 0
            &&& r / 16 == (d / 16 + 1) % 16
            &&& (r % 2 == 1) == !(d % 2 == 1)
            &&& ((r / 4) % 2 == 1) == ((d / 4) % 2 == 1)
        }) by (bit_vector);
        self.data = r;
    }

    pub fn black_turn(&self) -> (r: bool)
        ensures
            r == self.black_turn_spec(),
    {
        let d: u8 = self.data;
        assert((d & 1 != 0) == (d % 2 == 1)) by (bit_vector);
        (d & 1) != 0
    }

    /// Only swaps which player's turn it is. This is used in the second
    /// phase, when the turn counter stops incrementing.
    pub fn swap_player_turn(&mut self)
        requires
            old(self).wf(),
        ensures
            final(self).wf(),
            final(self).turn_spec() == old(self).turn_spec(),
            final(self).black_turn_spec() == !old(self).black_turn_spec(),
            final(self).finished_spec() == old(self).finished_spec(),
    {
        let d: u8 = self.data;
        let r: u8 = d ^ 1;
        assert({
            let r = d ^ 1u8;
            &&& ((d / 2) % 2 == 0 ==> (r / 2) % 2 == 0)
            &&& ((d / 8) % 2 == 0 ==> (r / 8) % 2 == 0)
            &&& r / 16 == d / 16
            &&& (r % 2 == 1) == !(d % 2 == 1)
            &&& ((r / 4) % 2 == 1) == ((d / 4) % 2 == 1)
        }) by (bit_vector);
        self.data = r;
    }

    pub fn finished(&self) -> (r: bool)
        ensures
            r == self.finished_spec(),
    {
        let d: u8 = self.data;
        assert((d & 4 != 0) == ((d / 4) % 2 == 1)) by (bit_vector);
        (d & 4) != 0
    }

    /// Marks the game finished if `finished` is set; the game must not be
    /// finished already.
    pub fn set_finished(&mut self, finished: bool)
        requires
            old(self).wf(),
            !old(self).finished_spec(),
        ensures
            final(self).wf(),
            final(self).turn_spec() == old(self).turn_spec(),
            final(self).black_turn_spec() == old(self).black_turn_spec(),
            final(self).finished_spec() == finished,
    {
        if finished {
            let d: u8 = self.data;
            let r: u8 = d | 4;
            assert({
                let r = d | 4u8;
                &&& ((d / 2) % 2 == 0 ==> (r / 2) % 2 == 0)
                &&& ((d / 8) % 2 == 0 ==> (r / 8) % 2 == 0)
                &&& r / 16 == d / 16
                &&& (r % 2 == 1) == (d % 2 == 1)
                &&& (r / 4) % 2 == 1
            }) by (bit_vector);
            self.data = r;
        }
    }
}

} // verus!
