use vstd::prelude::*;

use crate::hex_pos::{HexPos, HexPosOffset};

verus! {

/// A board position with 4-bit x and y coordinates packed into one byte:
/// the low nibble is x, the high nibble is y.
#[derive(Clone, Copy, PartialEq, Eq, Debug, Structural)]
pub struct PackedIdx {
    bytes: u8,
}

/// An offset which can be added to a `PackedIdx`, packed the same way. Adding
/// wraps around in a byte, so negative offsets borrow from the y-nibble.
#[derive(Clone, Copy, PartialEq, Eq, Debug, Structural)]
pub struct IdxOffset {
    bytes: u8,
}

/// The byte which packs the coordinates (x, y).
pub open spec fn pack_spec(x: int, y: int) -> int {
    x + 16 * y
}

impl PackedIdx {
    /// The raw byte of this position.
    pub closed spec fn raw(self) -> int {
        self.bytes as int
    }

    /// The x-coordinate of this position.
    pub open spec fn sx(self) -> int {
        self.raw() % 16
    }

    /// The y-coordinate of this position.
    pub open spec fn sy(self) -> int {
        self.raw() / 16
    }

    /// The raw byte is a byte.
    pub broadcast proof fn lemma_raw(self)
        ensures
            0 <= #[trigger] self.raw() < 256,
    {
    }

    /// Adding an offset which moves nothing gives back the position.
    pub proof fn lemma_add_identity(p: Self, z: IdxOffset, r: Self)
        requires
            z.raw() == 0,
            r.raw() == (p.raw() + z.raw()) % 256,
        ensures
            r == p,
    {
        p.lemma_raw();
    }

    /// The position with coordinates (x, y).
    pub closed spec fn at(x: int, y: int) -> PackedIdx {
        PackedIdx { bytes: pack_spec(x, y) as u8 }
    }

    /// The position built from coordinates has those coordinates.
    pub broadcast proof fn lemma_at(x: int, y: int)
        requires
            0 <= x < 16,
            0 <= y < 16,
        ensures
            #[trigger] PackedIdx::at(x, y).sx() == x,
            PackedIdx::at(x, y).sy() == y,
    {
    }

    /// The coordinates determine the position.
    pub proof fn lemma_coords_eq(self, other: Self)
        ensures
            (self.sx() == other.sx() && self.sy() == other.sy()) <==> self == other,
    {
        assert(self.raw() == 16 * self.sy() + self.sx());
        assert(other.raw() == 16 * other.sy() + other.sx());
    }

    /// Builds the position (x, y).
    pub fn new(x: u32, y: u32) -> (r: Self)
        requires
            x < 16,
            y < 16,
        ensures
            r.sx() == x,
            r.sy() == y,
            r.raw() == pack_spec(x as int, y as int),
    {
        let b: u8 = (x + y * 16) as u8;
        PackedIdx { bytes: b }
    }

    /// An offset to apply to `y - x` so it is never negative on a board of
    /// width `N`.
    pub fn xy_offset<const N: usize>() -> (r: u32)
        requires
            N <= 16,
        ensures
            r == N,
    {
        N as u32
    }

    /// The position with raw byte 0, at (0, 0). Since the board keeps every
    /// pawn off of its border, this is never the position of a pawn.
    pub fn null() -> (r: Self)
        ensures
            r.raw() == 0,
            r.sx() == 0,
            r.sy() == 0,
    {
        PackedIdx { bytes: 0 }
    }

    pub open spec fn is_null_spec(self) -> bool {
        self.raw() == 0
    }

    pub fn is_null(&self) -> (r: bool)
        ensures
            r == self.is_null_spec(),
    {
        self.bytes == 0
    }

    pub fn is_nonnull(&self) -> (r: bool)
        ensures
            r == !self.is_null_spec(),
    {
        self.bytes != 0
    }

    pub fn x(&self) -> (r: u32)
        ensures
            r == self.sx(),
            r < 16,
    {
        let b: u8 = self.bytes;
        let r: u8 = b & 0x0f;
        assert(b & 0x0f == b % 16) by (bit_vector);
        r as u32
    }

    pub fn y(&self) -> (r: u32)
        ensures
            r == self.sy(),
            r < 16,
    {
        let b: u8 = self.bytes;
        let r: u8 = b >> 4;
        assert(b >> 4 == b / 16) by (bit_vector);
        r as u32
    }

    /// The coordinate along the bisector of the x- and y-axes, `y + N - x`,
    /// which is never negative on a board of width `N = 16`.
    pub fn xy<const N: usize>(&self) -> (r: u32)
        requires
            N <= 16,
            self.sx() <= self.sy() + N,
        ensures
            r == self.sy() + N - self.sx(),
    {
        self.y() + Self::xy_offset::<N>() - self.x()
    }

    /// The underlying byte of this position.
    pub fn bytes(&self) -> (r: u8)
        ensures
            r == self.raw(),
    {
        self.bytes
    }

    /// Adds the raw bytes of two positions, wrapping around on overflow.
    pub fn unsafe_add(&self, other: &PackedIdx) -> (r: PackedIdx)
        ensures
            r.raw() == (self.raw() + other.raw()) % 256,
    {
        PackedIdx { bytes: self.bytes.wrapping_add(other.bytes) }
    }

    /// Reinterprets an offset as a position.
    pub fn from_idx_offset(offset: IdxOffset) -> (r: Self)
        ensures
            r.raw() == offset.raw(),
    {
        PackedIdx { bytes: offset.bytes }
    }

    /// Moves this position by `offset`, wrapping around in a byte.
    pub fn add_offset(&self, offset: &IdxOffset) -> (r: PackedIdx)
        ensures
            r.raw() == (self.raw() + offset.raw()) % 256,
    {
        PackedIdx { bytes: self.bytes.wrapping_add(offset.bytes) }
    }

    /// The offset from `other` to `self`, where `self` is not below or left of
    /// `other`.
    pub fn sub(&self, other: &PackedIdx) -> (r: IdxOffset)
        requires
            self.sx() >= other.sx(),
            self.sy() >= other.sy(),
        ensures
            r.raw() == pack_spec(self.sx() - other.sx(), self.sy() - other.sy()),
    {
        proof {
            assert(self.raw() == 16 * self.sy() + self.sx());
            assert(other.raw() == 16 * other.sy() + other.sx());
        }
        IdxOffset { bytes: self.bytes - other.bytes }
    }

    /// Two positions are adjacent when they are neighboring tiles.
    pub fn adjacent(&self, other: &PackedIdx) -> (r: bool)
        ensures
            r == crate::hex_pos::adjacent_spec(self.sx(), self.sy(), other.sx(), other.sy()),
    {
        let x1 = self.x() as i32;
        let y1 = self.y() as i32;
        let x2 = other.x() as i32;
        let y2 = other.y() as i32;
        let dx = x2 - x1;
        let dy = y2 - y1;
        (dx == 1 && dy == 0) || (dx == 1 && dy == 1) || (dx == 0 && dy == 1) || (dx == -1 && dy
            == 0) || (dx == -1 && dy == -1) || (dx == 0 && dy == -1)
    }

    /// Converts a position, which must lie on a board of width 16.
    pub fn from_hex_pos(pos: &HexPos) -> (r: PackedIdx)
        requires
            pos.x < 16,
            pos.y < 16,
        ensures
            r.sx() == pos.x,
            r.sy() == pos.y,
    {
        Self::new(pos.x, pos.y)
    }

    /// Converts a position if it lies on a board of width 16.
    pub fn maybe_from(pos: &HexPos) -> (r: Option<PackedIdx>)
        ensures
            r.is_some() <==> (pos.x < 16 && pos.y < 16),
            r.is_some() ==> r.unwrap().sx() == pos.x && r.unwrap().sy() == pos.y,
    {
        if pos.x < 16 && pos.y < 16 {
            Some(Self::new(pos.x, pos.y))
        } else {
            None
        }
    }

    /// This position as a `HexPos`.
    pub fn to_hex_pos(&self) -> (r: HexPos)
        ensures
            r.x == self.sx(),
            r.y == self.sy(),
    {
        HexPos::new(self.x(), self.y())
    }

    /// This position as a `HexPosOffset` about (0, 0).
    pub fn to_hex_offset(&self) -> (r: HexPosOffset)
        ensures
            r.x == self.sx(),
            r.y == self.sy(),
            r.small(),
    {
        HexPosOffset::new(self.x() as i32, self.y() as i32)
    }
}

impl core::ops::Add<IdxOffset> for PackedIdx {
    type Output = PackedIdx;

    fn add(self, rhs: IdxOffset) -> (r: PackedIdx)
        ensures
            r.raw() == (self.raw() + rhs.raw()) % 256,
    {
        self.add_offset(&rhs)
    }
}

impl vstd::std_specs::ops::AddSpecImpl<IdxOffset> for PackedIdx {
    open spec fn obeys_add_spec() -> bool {
        false
    }

    open spec fn add_req(self, rhs: IdxOffset) -> bool {
        true
    }

    closed spec fn add_spec(self, rhs: IdxOffset) -> PackedIdx {
        PackedIdx { bytes: ((self.bytes + rhs.bytes) % 256) as u8 }
    }
}

impl IdxOffset {
    /// The raw byte of this offset.
    pub closed spec fn raw(self) -> int {
        self.bytes as int
    }

    pub broadcast proof fn lemma_raw(self)
        ensures
            0 <= #[trigger] self.raw() < 256,
    {
    }

    /// Offsets with the same raw byte are the same offset; so the identity
    /// is `new(0, 0)`.
    pub broadcast proof fn lemma_raw_eq(self, other: Self)
        ensures
            #[trigger] self.raw() == #[trigger] other.raw() <==> self == other,
    {
    }

    /// Adding the offset which moves nothing gives back the offset.
    pub proof fn lemma_add_identity(o: Self, z: Self, r: Self)
        requires
            z.raw() == 0,
            r.raw() == (o.raw() + z.raw()) % 256,
        ensures
            r == o,
    {
        o.lemma_raw();
    }

    /// The offset by `dx` along the x-axis and `dy` along the y-axis.
    pub fn new(dx: i32, dy: i32) -> (r: Self)
        ensures
            r.raw() == pack_spec(dx as int, dy as int) % 256,
    {
        let bx = Self::by_x(dx);
        let by = Self::by_y(dy);
        let r = IdxOffset { bytes: bx.bytes.wrapping_add(by.bytes) };
        proof {
            vstd::arithmetic::div_mod::lemma_add_mod_noop(dx as int, 16 * dy, 256);
        }
        r
    }

    pub fn from_bytes(bytes: u8) -> (r: Self)
        ensures
            r.raw() == bytes,
    {
        IdxOffset { bytes }
    }

    /// The offset by `dx` along the x-axis. A negative `dx` borrows from the
    /// y-nibble, which is paid back when it is added to a position whose
    /// x-coordinate is at least `-dx`.
    pub fn by_x(dx: i32) -> (r: Self)
        ensures
            r.raw() == dx % 256,
    {
        let b: u8 = dx as u8;
        assert(b == dx as u8);
        proof {
            lemma_i32_as_u8(dx);
        }
        IdxOffset { bytes: b }
    }

    /// The offset by `dy` along the y-axis.
    pub fn by_y(dy: i32) -> (r: Self)
        ensures
            r.raw() == (16 * dy) % 256,
    {
        let b: u8 = dy as u8;
        proof {
            lemma_i32_as_u8(dy);
            vstd::arithmetic::div_mod::lemma_mul_mod_noop_right(16, dy as int, 256);
        }
        IdxOffset { bytes: b.wrapping_mul(16) }
    }

    /// The offset which moves nothing.
    pub fn identity() -> (r: Self)
        ensures
            r.raw() == 0,
    {
        Self::new(0, 0)
    }

    /// Adds two offsets.
    pub fn add(&self, other: &IdxOffset) -> (r: IdxOffset)
        ensures
            r.raw() == (self.raw() + other.raw()) % 256,
    {
        IdxOffset { bytes: self.bytes.wrapping_add(other.bytes) }
    }

    /// Converts a relative position to an offset.
    pub fn from_hex_offset(offset: &HexPosOffset) -> (r: IdxOffset)
        ensures
            r.raw() == pack_spec(offset.x as int, offset.y as int) % 256,
    {
        Self::new(offset.x, offset.y)
    }
}

/// Truncating a signed integer to a byte keeps its residue modulo 256.
proof fn lemma_i32_as_u8(v: i32)
    ensures
        (v as u8) as int == (v as int) % 256,
{
    assert((v as u8) == (v & 0xff) as u8) by (bit_vector);
    assert(v & 0xff >= 0 && v & 0xff < 256) by (bit_vector);
    assert(((v & 0xff) as int) == (v as int) % 256) by {
        assert(v == (v & 0xff) + 256 * (v >> 8)) by (bit_vector);
    }
}

/// Adding the offset `(dx, dy)` to a position moves it by `(dx, dy)` as long
/// as the result stays on the board.
#[verifier::spinoff_prover]
#[verifier::rlimit(40)]
pub proof fn lemma_add_offset_coords(p: PackedIdx, dx: int, dy: int, r: int)
    requires
        0 <= p.sx() + dx < 16,
        0 <= p.sy() + dy < 16,
        r == (p.raw() + pack_spec(dx, dy) % 256) % 256,
    ensures
        r % 16 == p.sx() + dx,
        r / 16 == p.sy() + dy,
{
    p.lemma_raw();
    vstd::arithmetic::div_mod::lemma_add_mod_noop(p.raw(), pack_spec(dx, dy), 256);
    assert(p.raw() == 16 * p.sy() + p.sx());
    let t = (p.sx() + dx) + 16 * (p.sy() + dy);
    assert(p.raw() + pack_spec(dx, dy) == t);
    vstd::arithmetic::div_mod::lemma_small_mod(t as nat, 256);
    vstd::arithmetic::div_mod::lemma_fundamental_div_mod_converse(t, 16, p.sy() + dy, p.sx()
        + dx);
}

} // verus!
