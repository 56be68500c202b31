use vstd::prelude::*;

use crate::hex_pos::HexPos;

verus! {

/// A compact `HexPos`, used to save memory. It can be converted to a `HexPos`
/// for computation.
#[derive(Clone, Copy, Debug, PartialEq, Eq, Structural)]
pub struct PackedHexPos {
    pub x: u16,
    pub y: u16,
}

impl PackedHexPos {
    pub fn new(x: u16, y: u16) -> (r: Self)
        ensures
            r.x == x,
            r.y == y,
    {
        PackedHexPos { x, y }
    }

    pub fn x(&self) -> (r: u16)
        ensures
            r == self.x,
    {
        self.x
    }

    pub fn y(&self) -> (r: u16)
        ensures
            r == self.y,
    {
        self.y
    }

    /// Converts a position whose coordinates fit in 16 bits.
    pub fn from_hex_pos(pos: &HexPos) -> (r: Self)
        requires
            pos.x <= u16::MAX,
            pos.y <= u16::MAX,
        ensures
            r.x == pos.x,
            r.y == pos.y,
    {
        PackedHexPos { x: pos.x as u16, y: pos.y as u16 }
    }

    pub fn to_hex_pos(&self) -> (r: HexPos)
        ensures
            r.x == self.x,
            r.y == self.y,
    {
        HexPos::new(self.x as u32, self.y as u32)
    }
}

} // verus!
