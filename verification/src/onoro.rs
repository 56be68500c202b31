use vstd::prelude::*;

use crate::packed_idx::PackedIdx;

verus! {

/// The color of a pawn, and of the player who owns it.
#[derive(Clone, Copy, Debug, PartialEq, Eq, Structural)]
pub enum PawnColor {
    Black,
    White,
}

/// The contents of a tile.
#[derive(Clone, Copy, Debug, PartialEq, Eq, Structural)]
pub enum TileState {
    Empty,
    Black,
    White,
}

impl PawnColor {
    pub open spec fn opposite_spec(self) -> PawnColor {
        match self {
            PawnColor::Black => PawnColor::White,
            PawnColor::White => PawnColor::Black,
        }
    }

    /// The other color.
    pub fn opposite(&self) -> (r: PawnColor)
        ensures
            r == self.opposite_spec(),
    {
        match *self {
            PawnColor::Black => PawnColor::White,
            PawnColor::White => PawnColor::Black,
        }
    }
}

impl TileState {
    /// The tile holding a pawn of `color`.
    pub fn from_color(color: PawnColor) -> (r: TileState)
        ensures
            r == tile_of_color(color),
    {
        match color {
            PawnColor::Black => TileState::Black,
            PawnColor::White => TileState::White,
        }
    }
}

pub open spec fn tile_of_color(color: PawnColor) -> TileState {
    match color {
        PawnColor::Black => TileState::Black,
        PawnColor::White => TileState::White,
    }
}

/// A move: placing a new pawn in the first phase, or moving the pawn with
/// index `from_idx` in the second phase.
#[derive(Clone, Copy, Debug, PartialEq, Eq, Structural)]
pub enum Move {
    Phase1Move {
        /// Position to place the pawn at.
        to: PackedIdx,
    },
    Phase2Move {
        /// Position to move the pawn to.
        to: PackedIdx,
        /// Index of the pawn to move.
        from_idx: u32,
    },
}

impl Move {
    /// The first-phase move which places a pawn at `pos`.
    pub fn make_phase1(pos: PackedIdx) -> (r: Move)
        ensures
            r == (Move::Phase1Move { to: pos }),
    {
        Move::Phase1Move { to: pos }
    }
}

/// A pawn on the board.
#[derive(Clone, Copy, Debug, PartialEq, Eq, Structural)]
pub struct Pawn {
    pub pos: PackedIdx,
    pub color: PawnColor,
    pub board_idx: u8,
}

impl Pawn {
    pub fn pos(&self) -> (r: PackedIdx)
        ensures
            r == self.pos,
    {
        self.pos
    }

    pub fn color(&self) -> (r: PawnColor)
        ensures
            r == self.color,
    {
        self.color
    }
}

/// A position type of a game of Onoro, with coordinates that are only
/// meaningful relative to other positions.
pub trait OnoroIndex: Sized {
    /// The x-coordinate of the position, as a mathematical integer.
    spec fn x_spec(&self) -> int;

    /// The y-coordinate of the position, as a mathematical integer.
    spec fn y_spec(&self) -> int;

    /// The position with coordinates (x, y), on a board of 4-bit
    /// coordinates.
    fn from_coords(x: u32, y: u32) -> (r: Self)
        requires
            x < 16,
            y < 16,
        ensures
            r.x_spec() == x,
            r.y_spec() == y,
    ;

    fn x(&self) -> (r: i32)
        ensures
            r == self.x_spec(),
    ;

    fn y(&self) -> (r: i32)
        ensures
            r == self.y_spec(),
    ;
}

impl OnoroIndex for PackedIdx {
    open spec fn x_spec(&self) -> int {
        self.sx()
    }

    open spec fn y_spec(&self) -> int {
        self.sy()
    }

    fn from_coords(x: u32, y: u32) -> (r: Self) {
        PackedIdx::new(x, y)
    }

    fn x(&self) -> (r: i32) {
        PackedIdx::x(self) as i32
    }

    fn y(&self) -> (r: i32) {
        PackedIdx::y(self) as i32
    }
}

/// A move type of a game of Onoro, which can place a pawn.
pub trait OnoroMove<Index: OnoroIndex>: Sized {
    /// The first-phase move which places a pawn at `pos`.
    fn make_phase1(pos: Index) -> Self;
}

impl OnoroMove<PackedIdx> for Move {
    fn make_phase1(pos: PackedIdx) -> (r: Self)
        ensures
            r == (Move::Phase1Move { to: pos }),
    {
        Move::Phase1Move { to: pos }
    }
}

/// A pawn type of a game of Onoro.
pub trait OnoroPawn<Index: OnoroIndex> {
    /// The position of this pawn on the board.
    fn pos(&self) -> Index;

    /// The color of this pawn.
    fn color(&self) -> PawnColor;
}

impl OnoroPawn<PackedIdx> for Pawn {
    fn pos(&self) -> (r: PackedIdx)
        ensures
            r == self.pos,
    {
        self.pos
    }

    fn color(&self) -> (r: PawnColor)
        ensures
            r == self.color,
    {
        self.color
    }
}

} // verus!
