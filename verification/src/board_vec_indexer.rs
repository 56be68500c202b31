use vstd::prelude::*;

use crate::hex_pos::HexPos;
use crate::packed_idx::PackedIdx;

verus! {

broadcast use PackedIdx::lemma_raw;

/// The least and greatest of some numbers.
#[derive(Clone, Copy, Debug, PartialEq, Eq, Structural)]
pub struct MinAndMax {
    pub min: u32,
    pub max: u32,
}

impl MinAndMax {
    pub open spec fn min_spec(self) -> u32 {
        self.min
    }

    pub open spec fn max_spec(self) -> u32 {
        self.max
    }

    /// `m` after also taking `v` into account.
    pub open spec fn acc_spec(self, v: u32) -> MinAndMax {
        MinAndMax {
            min: if v < self.min {
                v
            } else {
                self.min
            },
            max: if v > self.max {
                v
            } else {
                self.max
            },
        }
    }

    pub fn new(min: u32, max: u32) -> (r: Self)
        ensures
            r.min_spec() == min,
            r.max_spec() == max,
    {
        MinAndMax { min, max }
    }

    /// The bounds of no number at all: the greatest `u32` as least and 0 as
    /// greatest, so that any number replaces both.
    pub fn default() -> (r: Self)
        ensures
            r.min_spec() == u32::MAX,
            r.max_spec() == 0,
    {
        MinAndMax { min: u32::MAX, max: 0 }
    }

    pub fn min(&self) -> (r: u32)
        ensures
            r == self.min_spec(),
    {
        self.min
    }

    pub fn max(&self) -> (r: u32)
        ensures
            r == self.max_spec(),
    {
        self.max
    }

    /// The width of the range.
    pub fn delta(&self) -> (r: u32)
        requires
            self.min_spec() <= self.max_spec(),
        ensures
            r == self.max_spec() - self.min_spec(),
    {
        self.max - self.min
    }

    /// The bounds after also taking `value` into account.
    pub fn acc(self, value: u32) -> (r: Self)
        ensures
            r == self.acc_spec(value),
    {
        MinAndMax {
            min: if value < self.min {
                value
            } else {
                self.min
            },
            max: if value > self.max {
                value
            } else {
                self.max
            },
        }
    }
}

/// The ranges of the x-, y- and (y - x + N)-coordinates of some positions.
#[derive(Clone, Copy, Debug, PartialEq, Eq, Structural)]
pub struct CoordLimits {
    pub x: MinAndMax,
    pub y: MinAndMax,
    pub xy: MinAndMax,
}

impl CoordLimits {
    pub open spec fn x_spec(self) -> MinAndMax {
        self.x
    }

    pub open spec fn y_spec(self) -> MinAndMax {
        self.y
    }

    pub open spec fn xy_spec(self) -> MinAndMax {
        self.xy
    }

    pub fn new(x: MinAndMax, y: MinAndMax, xy: MinAndMax) -> (r: Self)
        ensures
            r.x_spec() == x,
            r.y_spec() == y,
            r.xy_spec() == xy,
    {
        CoordLimits { x, y, xy }
    }

    pub fn x(&self) -> (r: MinAndMax)
        ensures
            r == self.x_spec(),
    {
        self.x
    }

    pub fn y(&self) -> (r: MinAndMax)
        ensures
            r == self.y_spec(),
    {
        self.y
    }

    pub fn xy(&self) -> (r: MinAndMax)
        ensures
            r == self.xy_spec(),
    {
        self.xy
    }
}

/// The (y - x)-coordinate of `p`, offset by `n` so that it is positive.
pub open spec fn xy_coord(p: PackedIdx, n: int) -> int {
    p.sy() + n - p.sx()
}

/// The non-null positions among the first `k` of `s` lie on a board of width
/// `n`.
pub open spec fn poses_within(s: Seq<PackedIdx>, k: int, n: int) -> bool {
    forall|i: int| 0 <= i < k && !(#[trigger] s[i]).is_null_spec() ==> s[i].sx() < n && s[i].sy() < n
}

/// The coordinate limits of the non-null positions among the first `k` of
/// `s`, on a board of width `n`.
pub open spec fn limits_spec(s: Seq<PackedIdx>, k: int, n: int) -> CoordLimits
    decreases k,
{
    if k <= 0 {
        CoordLimits {
            x: MinAndMax { min: u32::MAX, max: 0 },
            y: MinAndMax { min: u32::MAX, max: 0 },
            xy: MinAndMax { min: u32::MAX, max: 0 },
        }
    } else {
        let prev = limits_spec(s, k - 1, n);
        let p = s[k - 1];
        if p.is_null_spec() {
            prev
        } else {
            CoordLimits {
                x: prev.x.acc_spec(p.sx() as u32),
                y: prev.y.acc_spec(p.sy() as u32),
                xy: prev.xy.acc_spec(xy_coord(p, n) as u32),
            }
        }
    }
}

/// The ranges of the x-, y- and (y - x + N)-coordinates of the positions
/// that are not null.
pub fn packed_positions_coord_limits<const N: usize>(pawn_poses: &Vec<PackedIdx>) -> (r:
    CoordLimits)
    requires
        N <= 16,
        poses_within(pawn_poses@, pawn_poses@.len() as int, N as int),
    ensures
        r == limits_spec(pawn_poses@, pawn_poses@.len() as int, N as int),
{
    let mut lim = CoordLimits {
        x: MinAndMax::default(),
        y: MinAndMax::default(),
        xy: MinAndMax::default(),
    };
    let mut i: usize = 0;
    while i < pawn_poses.len()
        invariant
            N <= 16,
            poses_within(pawn_poses@, pawn_poses@.len() as int, N as int),
            i <= pawn_poses.len(),
            lim == limits_spec(pawn_poses@, i as int, N as int),
        decreases pawn_poses.len() - i,
    {
        let p = pawn_poses[i];
        if p.is_nonnull() {
            lim = CoordLimits {
                x: lim.x.acc(p.x()),
                y: lim.y.acc(p.y()),
                xy: lim.xy.acc(p.xy::<N>()),
            };
        }
        i += 1;
    }
    lim
}

/// The limits bound the coordinates of every non-null position among the
/// first `k` of `s`, and each least limit is at most the greatest one when
/// there is such a position.
pub proof fn lemma_limits_bound(s: Seq<PackedIdx>, k: int, n: int, i: int)
    requires
        0 <= i < k <= s.len(),
        0 <= n <= 16,
        !s[i].is_null_spec(),
        poses_within(s, k, n),
    ensures
        limits_spec(s, k, n).x.min <= s[i].sx() <= limits_spec(s, k, n).x.max,
        limits_spec(s, k, n).y.min <= s[i].sy() <= limits_spec(s, k, n).y.max,
        limits_spec(s, k, n).xy.min <= xy_coord(s[i], n) <= limits_spec(s, k, n).xy.max,
    decreases k,
{
    s[k - 1].lemma_raw();
    if i < k - 1 {
        lemma_limits_bound(s, k - 1, n, i);
    }
}

/// The least limits are coordinates of some non-null position, when there is
/// one.
pub proof fn lemma_limits_attained(s: Seq<PackedIdx>, k: int, n: int)
    requires
        0 <= k <= s.len(),
        0 <= n <= 16,
        poses_within(s, k, n),
        exists|i: int| 0 <= i < k && !(#[trigger] s[i]).is_null_spec(),
    ensures
        exists|i: int|
            0 <= i < k && !(#[trigger] s[i]).is_null_spec() && s[i].sx() == limits_spec(s, k, n).x.min,
        exists|i: int|
            0 <= i < k && !(#[trigger] s[i]).is_null_spec() && s[i].sy() == limits_spec(s, k, n).y.min,
        exists|i: int|
            0 <= i < k && !(#[trigger] s[i]).is_null_spec() && xy_coord(s[i], n) == limits_spec(
                s,
                k,
                n,
            ).xy.max,
        limits_spec(s, k, n).x.max < 16,
        limits_spec(s, k, n).y.max < 16,
        limits_spec(s, k, n).xy.max < 32,
    decreases k,
{
    s[k - 1].lemma_raw();
    let p = s[k - 1];
    if exists|i: int| 0 <= i < k - 1 && !(#[trigger] s[i]).is_null_spec() {
        lemma_limits_attained(s, k - 1, n);
    } else {
        assert(!p.is_null_spec());
        assert forall|i: int| 0 <= i < k - 1 implies (#[trigger] s[i]).is_null_spec() by {}
        lemma_limits_empty(s, k - 1, n);
    }
}

proof fn lemma_limits_empty(s: Seq<PackedIdx>, k: int, n: int)
    requires
        0 <= k <= s.len(),
        forall|i: int| 0 <= i < k ==> (#[trigger] s[i]).is_null_spec(),
    ensures
        limits_spec(s, k, n) == limits_spec(s, 0, n),
    decreases k,
{
    if k > 0 {
        lemma_limits_empty(s, k - 1, n);
    }
}

/// The choice of basis for the coordinates of the smallest parallelogram
/// around the pawns: the two axes along which the pawns spread the least.
#[derive(Clone, Copy, Debug, PartialEq, Eq, Structural)]
pub enum Basis {
    /// Columns along +x, rows along +y.
    XvY,
    /// Columns along +x+y, rows along -x.
    XvXY,
    /// Columns along +x-y, rows along +x.
    XYvY,
}

/// The basis, the corner of the parallelogram (one tile outside of the
/// pawns), its width in tiles and whether its tiles take more than 64 bits.
#[derive(Clone, Copy, Debug, PartialEq, Eq, Structural)]
pub struct DetermineBasisOutput {
    pub basis: Basis,
    pub corner: HexPos,
    pub width: u8,
    pub use_u128: bool,
}

/// Limits which bound some pawns on a board of width `n`: each range is
/// non-empty and lies where the pawns of such a board can be.
pub open spec fn limits_wf(l: CoordLimits, n: int) -> bool {
    &&& 1 <= l.x.min <= l.x.max < 16
    &&& 1 <= l.y.min <= l.y.max < 16
    &&& l.xy.min <= l.xy.max < 32
    &&& l.x.min + l.xy.max >= n
    &&& l.y.min + n >= l.xy.min
}

/// The output `determine_basis` gives: the axis along which the pawns spread
/// the most is left out, preferring to leave out (y - x), then y, then x.
pub open spec fn basis_spec(l: CoordLimits, n: int) -> DetermineBasisOutput {
    let dx = l.x.max - l.x.min;
    let dy = l.y.max - l.y.min;
    let dxy = l.xy.max - l.xy.min;
    let m = if dx > dy {
        if dx > dxy {
            dx
        } else {
            dxy
        }
    } else {
        if dy > dxy {
            dy
        } else {
            dxy
        }
    };
    if dxy == m {
        DetermineBasisOutput {
            basis: Basis::XvY,
            corner: HexPos { x: (l.x.min - 1) as u32, y: (l.y.min - 1) as u32 },
            width: (dx + 3) as u8,
            use_u128: (dx + 3) * (dy + 3) > 64,
        }
    } else if dy == m {
        DetermineBasisOutput {
            basis: Basis::XYvY,
            corner: HexPos { x: (l.x.min - 1) as u32, y: (l.x.min + l.xy.max - n) as u32 },
            width: (dxy + 3) as u8,
            use_u128: (dxy + 3) * (dx + 3) > 64,
        }
    } else {
        DetermineBasisOutput {
            basis: Basis::XvXY,
            corner: HexPos { x: (l.y.min + n - l.xy.min) as u32, y: (l.y.min - 1) as u32 },
            width: (dy + 3) as u8,
            use_u128: (dy + 3) * (dxy + 3) > 64,
        }
    }
}

/// Chooses the basis of the smallest parallelogram around pawns with the
/// limits `coord_limits`, and its corner one tile outside of the pawns, so
/// that the pawns and a perimeter of one tile can be indexed.
pub fn determine_basis<const N: usize>(coord_limits: CoordLimits) -> (r: DetermineBasisOutput)
    requires
        N <= 16,
        limits_wf(coord_limits, N as int),
    ensures
        r == basis_spec(coord_limits, N as int),
{
    let x = coord_limits.x();
    let y = coord_limits.y();
    let xy = coord_limits.xy();

    let dx = x.delta();
    let dy = y.delta();
    let dxy = xy.delta();
    assert((dx + 3) * (dy + 3) <= 35 * 35 && (dxy + 3) * (dx + 3) <= 35 * 35 && (dy + 3) * (dxy + 3)
        <= 35 * 35) by (nonlinear_arith)
        requires
            dx < 32,
            dy < 32,
            dxy < 32,
    ;

    let max = if dx > dy {
        if dx > dxy {
            dx
        } else {
            dxy
        }
    } else {
        if dy > dxy {
            dy
        } else {
            dxy
        }
    };
    if dxy == max {
        let corner = HexPos::new(x.min() - 1, y.min() - 1);
        DetermineBasisOutput {
            basis: Basis::XvY,
            corner,
            width: (dx + 3) as u8,
            use_u128: (dx + 3) * (dy + 3) > 64,
        }
    } else if dy == max {
        let corner = HexPos::new(x.min() - 1, x.min() + xy.max() - PackedIdx::xy_offset::<N>());
        DetermineBasisOutput {
            basis: Basis::XYvY,
            corner,
            width: (dxy + 3) as u8,
            use_u128: (dxy + 3) * (dx + 3) > 64,
        }
    } else {
        let corner = HexPos::new(y.min() + PackedIdx::xy_offset::<N>() - xy.min(), y.min() - 1);
        DetermineBasisOutput {
            basis: Basis::XvXY,
            corner,
            width: (dy + 3) as u8,
            use_u128: (dy + 3) * (dxy + 3) > 64,
        }
    }
}

/// The number of rows of the parallelogram that `determine_basis` chooses:
/// the spread along its second axis, plus a perimeter of one tile.
pub open spec fn basis_height(l: CoordLimits, n: int) -> int {
    let dx = l.x.max - l.x.min;
    let dy = l.y.max - l.y.min;
    let dxy = l.xy.max - l.xy.min;
    match basis_spec(l, n).basis {
        Basis::XvY => dy + 3,
        Basis::XYvY => dx + 3,
        Basis::XvXY => dxy + 3,
    }
}

/// The limits of pawns off of the border of a board of width `n` are well
/// formed.
pub proof fn lemma_limits_wf(s: Seq<PackedIdx>, k: int, n: int)
    requires
        0 <= k <= s.len(),
        3 <= n <= 16,
        poses_within(s, k, n),
        forall|i: int|
            0 <= i < k && !(#[trigger] s[i]).is_null_spec() ==> 1 <= s[i].sx() && 1 <= s[i].sy(),
        exists|i: int| 0 <= i < k && !(#[trigger] s[i]).is_null_spec(),
    ensures
        limits_wf(limits_spec(s, k, n), n),
{
    let l = limits_spec(s, k, n);
    lemma_limits_attained(s, k, n);
    let ix = choose|i: int| 0 <= i < k && !(#[trigger] s[i]).is_null_spec() && s[i].sx() == l.x.min;
    let iy = choose|i: int| 0 <= i < k && !(#[trigger] s[i]).is_null_spec() && s[i].sy() == l.y.min;
    lemma_limits_bound(s, k, n, ix);
    lemma_limits_bound(s, k, n, iy);
}

/// The coordinates of every pawn in the basis that `determine_basis`
/// chooses lie inside its parallelogram, off of its perimeter.
pub proof fn lemma_basis_margin(s: Seq<PackedIdx>, k: int, n: int, i: int)
    requires
        0 <= i < k <= s.len(),
        3 <= n <= 16,
        poses_within(s, k, n),
        !s[i].is_null_spec(),
        limits_wf(limits_spec(s, k, n), n),
    ensures
        ({
            let l = limits_spec(s, k, n);
            let o = basis_spec(l, n);
            let c = hex_coords_spec(o.basis, o.corner, s[i].sx(), s[i].sy());
            &&& 1 <= c.0 <= o.width - 2
            &&& 1 <= c.1 <= basis_height(l, n) - 2
        }),
{
    lemma_limits_bound(s, k, n, i);
}

/// The coordinates of the tile (x, y) in the basis, relative to the corner.
pub open spec fn hex_coords_spec(basis: Basis, corner: HexPos, x: int, y: int) -> (int, int) {
    let (cx, cy) = (corner.x as int, corner.y as int);
    match basis {
        Basis::XvY => (x - cx, y - cy),
        Basis::XvXY => (y - cy, y + cx - x - cy),
        Basis::XYvY => (x + cy - y - cx, x - cx),
    }
}

/// The tile with coordinates (c1, c2) in the basis, relative to the corner.
pub open spec fn pos_spec(basis: Basis, corner: HexPos, c1: int, c2: int) -> (int, int) {
    let (cx, cy) = (corner.x as int, corner.y as int);
    match basis {
        Basis::XvY => (c1 + cx, c2 + cy),
        Basis::XvXY => (c1 + cx - c2, c1 + cy),
        Basis::XYvY => (c2 + cx, c2 + cy - c1),
    }
}

/// Coordinates in a basis and tiles determine each other.
pub proof fn lemma_basis_inverse(basis: Basis, corner: HexPos, x: int, y: int, c1: int, c2: int)
    ensures
        hex_coords_spec(basis, corner, x, y) == (c1, c2) <==> pos_spec(basis, corner, c1, c2) == (
            x,
            y,
        ),
{
}

/// Maps the tiles in a parallelogram on the board to the indices of a bit
/// vector, row by row.
#[derive(Clone, Copy, Debug)]
pub struct BoardVecIndexer {
    /// The basis of the coordinates of tiles.
    pub basis: Basis,
    /// The corner of the parallelogram, one tile outside of the pawns.
    pub corner: HexPos,
    /// The number of tiles of a row of the parallelogram.
    pub width: u8,
}

impl BoardVecIndexer {
    pub open spec fn basis_spec(self) -> Basis {
        self.basis
    }

    pub open spec fn corner_spec(self) -> HexPos {
        self.corner
    }

    pub open spec fn width_spec(self) -> int {
        self.width as int
    }

    /// The coordinates of the tile (x, y) in the basis of this indexer.
    pub open spec fn coords_spec(self, x: int, y: int) -> (int, int) {
        hex_coords_spec(self.basis, self.corner, x, y)
    }

    /// The index of the tile (x, y): its row times the width, plus its
    /// column.
    pub open spec fn index_spec(self, x: int, y: int) -> int {
        self.coords_spec(x, y).1 * self.width + self.coords_spec(x, y).0
    }

    /// The tile at index `i`.
    pub open spec fn pos_of_index(self, i: int) -> (int, int) {
        pos_spec(self.basis, self.corner, i % (self.width as int), i / (self.width as int))
    }

    pub fn new(basis: Basis, corner: HexPos, width: u8) -> (r: Self)
        ensures
            r.basis_spec() == basis,
            r.corner_spec() == corner,
            r.width_spec() == width,
    {
        BoardVecIndexer { basis, corner, width }
    }

    /// The coordinates of `pos` in the basis of this indexer.
    pub fn hex_coords(&self, pos: HexPos) -> (r: (u32, u32))
        requires
            pos.x < 0x1000,
            pos.y < 0x1000,
            self.corner.x < 0x1000,
            self.corner.y < 0x1000,
            self.coords_spec(pos.x as int, pos.y as int).0 >= 0,
            self.coords_spec(pos.x as int, pos.y as int).1 >= 0,
        ensures
            (r.0 as int, r.1 as int) == self.coords_spec(pos.x as int, pos.y as int),
    {
        let x = pos.x();
        let y = pos.y();
        let cx = self.corner.x();
        let cy = self.corner.y();
        match self.basis {
            Basis::XvY => (x - cx, y - cy),
            Basis::XvXY => (y - cy, y + cx - x - cy),
            Basis::XYvY => (x + cy - y - cx, x - cx),
        }
    }

    /// The coordinates of the position `pos` in the basis of this indexer.
    pub fn coords(&self, pos: PackedIdx) -> (r: (u32, u32))
        requires
            self.corner.x < 0x1000,
            self.corner.y < 0x1000,
            self.coords_spec(pos.sx(), pos.sy()).0 >= 0,
            self.coords_spec(pos.sx(), pos.sy()).1 >= 0,
        ensures
            (r.0 as int, r.1 as int) == self.coords_spec(pos.sx(), pos.sy()),
    {
        self.hex_coords(pos.to_hex_pos())
    }

    /// The position with the coordinates `coords` in the basis of this
    /// indexer.
    pub fn pos_from_coords(&self, coords: (u32, u32)) -> (r: PackedIdx)
        requires
            coords.0 < 0x1000,
            coords.1 < 0x1000,
            self.corner.x < 0x1000,
            self.corner.y < 0x1000,
            0 <= pos_spec(self.basis, self.corner, coords.0 as int, coords.1 as int).0 < 16,
            0 <= pos_spec(self.basis, self.corner, coords.0 as int, coords.1 as int).1 < 16,
        ensures
            (r.sx(), r.sy()) == pos_spec(self.basis, self.corner, coords.0 as int, coords.1 as int),
    {
        let (x, y) = coords;
        let cx = self.corner.x();
        let cy = self.corner.y();
        match self.basis {
            Basis::XvY => PackedIdx::new(x + cx, y + cy),
            Basis::XvXY => PackedIdx::new(x + cx - y, x + cy),
            Basis::XYvY => PackedIdx::new(y + cx, y + cy - x),
        }
    }

    /// The index of the tile with coordinates (c1, c2): its row times the
    /// width, plus its column.
    pub fn index_from_coords(&self, coords: (u32, u32)) -> (r: u32)
        requires
            coords.0 < self.width,
            coords.1 < 0x1000,
        ensures
            r == coords.1 * self.width + coords.0,
    {
        let (c1, c2) = coords;
        assert(c2 * self.width <= 0x1000 * 256) by (nonlinear_arith)
            requires
                c2 < 0x1000,
                self.width < 256,
        ;
        c2 * self.width as u32 + c1
    }

    /// The index of the position `pos` in the bit vector.
    pub fn index(&self, pos: PackedIdx) -> (r: u32)
        requires
            self.corner.x < 0x1000,
            self.corner.y < 0x1000,
            0 <= self.coords_spec(pos.sx(), pos.sy()).0 < self.width,
            0 <= self.coords_spec(pos.sx(), pos.sy()).1 < 0x1000,
        ensures
            r == self.index_spec(pos.sx(), pos.sy()),
    {
        self.index_from_coords(self.coords(pos))
    }

    /// The position of index `index` of the bit vector.
    pub fn pos_from_index(&self, index: u32) -> (r: PackedIdx)
        requires
            3 <= self.width <= 16,
            index < 0x1000,
            self.corner.x < 0x1000,
            self.corner.y < 0x1000,
            0 <= self.pos_of_index(index as int).0 < 16,
            0 <= self.pos_of_index(index as int).1 < 16,
        ensures
            (r.sx(), r.sy()) == self.pos_of_index(index as int),
    {
        let c1 = index % self.width as u32;
        let c2 = index / self.width as u32;
        self.pos_from_coords((c1, c2))
    }

    /// The index of a tile gives the tile back: an indexer maps the tiles of
    /// its parallelogram to indices one to one.
    pub proof fn lemma_index_round_trip(self, x: int, y: int)
        requires
            self.width > 0,
            0 <= self.coords_spec(x, y).0 < self.width,
            0 <= self.coords_spec(x, y).1,
        ensures
            self.pos_of_index(self.index_spec(x, y)) == (x, y),
    {
        let (c1, c2) = self.coords_spec(x, y);
        let w = self.width as int;
        vstd::arithmetic::div_mod::lemma_fundamental_div_mod_converse(c2 * w + c1, w, c2, c1);
        lemma_basis_inverse(self.basis, self.corner, x, y, c1, c2);
    }
}

} // verus!
