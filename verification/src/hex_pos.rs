use vstd::prelude::*;

use crate::groups::{SymmetryClass, C2, D3, D6, K4};

verus! {

/// The bound on coordinates under which the symmetry operations are computed
/// without overflow.
pub open spec fn coord_limit() -> int {
    0x10000
}

/// A position on the hexagonal grid with non-negative coordinates. The y-axis
/// is 120 degrees counter-clockwise from the x-axis, so the six neighbors of a
/// tile are offset by (±1, 0), (0, ±1) and ±(1, 1).
#[derive(Clone, Copy, Debug, PartialEq, Eq, Structural)]
pub struct HexPos {
    pub x: u32,
    pub y: u32,
}

/// A relative position (or a position about some origin) on the hexagonal
/// grid.
#[derive(Clone, Copy, Debug, PartialEq, Eq, Hash, Structural)]
pub struct HexPosOffset {
    pub x: i32,
    pub y: i32,
}

/// Rotation by `k * 60` degrees about the center of the origin tile.
pub open spec fn c_rot(k: int, x: int, y: int) -> (int, int) {
    if k == 0 {
        (x, y)
    } else if k == 1 {
        (x - y, x)
    } else if k == 2 {
        (-y, x - y)
    } else if k == 3 {
        (-x, -y)
    } else if k == 4 {
        (y - x, -x)
    } else {
        (y, y - x)
    }
}

/// The reflection about the x-axis through the center of the origin tile.
pub open spec fn c_s0(x: int, y: int) -> (int, int) {
    (x - y, -y)
}

/// The action of `op` on the point (x, y), about the center of the origin
/// tile: `Rfl(k)` is the reflection `c_s0` followed by the rotation `Rot(k)`.
pub open spec fn d6_apply(op: D6, x: int, y: int) -> (int, int) {
    match op {
        D6::Rot(k) => c_rot(k as int, x, y),
        D6::Rfl(k) => c_rot(k as int, c_s0(x, y).0, c_s0(x, y).1),
    }
}

/// Rotation by 120 degrees about the top right vertex of the origin tile.
pub open spec fn v_r2(x: int, y: int) -> (int, int) {
    (1 - y, x - y)
}

/// The action of `op` about the top right vertex of the origin tile. The
/// reflection `Rfl(0)` is the reflection of `Rfl(1)` of D6 (a line through
/// the center and this vertex).
pub open spec fn d3_apply(op: D3, x: int, y: int) -> (int, int) {
    match op {
        D3::Rot(k) => if k == 0 {
            (x, y)
        } else if k == 1 {
            v_r2(x, y)
        } else {
            v_r2(v_r2(x, y).0, v_r2(x, y).1)
        },
        D3::Rfl(k) => {
            let s = (x, x - y);
            if k == 0 {
                s
            } else if k == 1 {
                v_r2(s.0, s.1)
            } else {
                v_r2(v_r2(s.0, s.1).0, v_r2(s.0, s.1).1)
            }
        },
    }
}

/// The action of `op` about the center of the right edge of the origin tile:
/// the left factor reflects about the x-axis, the right factor rotates by 180
/// degrees about the edge's center.
pub open spec fn k4_apply(op: K4, x: int, y: int) -> (int, int) {
    let p = if op.left.0 == 1 {
        (x - y, -y)
    } else {
        (x, y)
    };
    if op.right.0 == 1 {
        (1 - p.0, -p.1)
    } else {
        p
    }
}

/// The reflection about the line from the center of the origin tile through
/// one of its vertices (`Rfl(1)` of D6).
pub open spec fn cv_apply(op: C2, x: int, y: int) -> (int, int) {
    if op.0 == 1 {
        (x, x - y)
    } else {
        (x, y)
    }
}

/// The reflection about the line from the center of the origin tile through
/// the midpoint of one of its edges (`Rfl(0)` of D6).
pub open spec fn ce_apply(op: C2, x: int, y: int) -> (int, int) {
    if op.0 == 1 {
        (x - y, -y)
    } else {
        (x, y)
    }
}

/// The reflection about the line along the right edge of the origin tile.
pub open spec fn ev_apply(op: C2, x: int, y: int) -> (int, int) {
    if op.0 == 1 {
        (1 - x + y, y)
    } else {
        (x, y)
    }
}

impl HexPosOffset {
    /// Both coordinates lie within `[-b, b]`.
    pub open spec fn bounded(self, b: int) -> bool {
        -b <= self.x <= b && -b <= self.y <= b
    }

    pub open spec fn small(self) -> bool {
        -coord_limit() < self.x < coord_limit() && -coord_limit() < self.y < coord_limit()
    }

    pub open spec fn from_pair(p: (int, int)) -> HexPosOffset {
        HexPosOffset { x: p.0 as i32, y: p.1 as i32 }
    }

    pub open spec fn pair(self) -> (int, int) {
        (self.x as int, self.y as int)
    }

    pub fn new(x: i32, y: i32) -> (r: HexPosOffset)
        ensures
            r.x == x,
            r.y == y,
    {
        HexPosOffset { x, y }
    }

    pub fn origin() -> (r: HexPosOffset)
        ensures
            r.x == 0,
            r.y == 0,
    {
        HexPosOffset { x: 0, y: 0 }
    }

    pub fn x(&self) -> (r: i32)
        ensures
            r == self.x,
    {
        self.x
    }

    pub fn y(&self) -> (r: i32)
        ensures
            r == self.y,
    {
        self.y
    }

    pub fn add(&self, other: &HexPosOffset) -> (r: HexPosOffset)
        requires
            self.small(),
            other.small(),
        ensures
            r.x == self.x + other.x,
            r.y == self.y + other.y,
    {
        HexPosOffset { x: self.x + other.x, y: self.y + other.y }
    }

    pub fn sub(&self, other: &HexPosOffset) -> (r: HexPosOffset)
        requires
            self.small(),
            other.small(),
        ensures
            r.x == self.x - other.x,
            r.y == self.y - other.y,
    {
        HexPosOffset { x: self.x - other.x, y: self.y - other.y }
    }

    /// Scales this offset by `n`.
    pub fn scale(&self, n: i32) -> (r: HexPosOffset)
        requires
            self.small(),
            -coord_limit() < n < coord_limit(),
            -0x7fff_ffff <= self.x * n <= 0x7fff_ffff,
            -0x7fff_ffff <= self.y * n <= 0x7fff_ffff,
        ensures
            r.x == self.x * n,
            r.y == self.y * n,
    {
        HexPosOffset { x: self.x * n, y: self.y * n }
    }

    /// Applies a symmetry of D6 about the center of the origin tile.
    pub fn apply_d6_c(&self, op: &D6) -> (r: HexPosOffset)
        requires
            self.small(),
            op.wf(),
        ensures
            r.pair() == d6_apply(*op, self.x as int, self.y as int),
            forall|b: int|
                0 <= b <= 0x4000 && #[trigger] self.bounded(b) ==> r.bounded(2 * b + 1),
    {
        let x = self.x;
        let y = self.y;
        let (x, y) = match *op {
            D6::Rot(_) => (x, y),
            D6::Rfl(_) => (x - y, -y),
        };
        let k = match *op {
            D6::Rot(k) => k,
            D6::Rfl(k) => k,
        };
        if k == 0 {
            HexPosOffset { x, y }
        } else if k == 1 {
            HexPosOffset { x: x - y, y: x }
        } else if k == 2 {
            HexPosOffset { x: -y, y: x - y }
        } else if k == 3 {
            HexPosOffset { x: -x, y: -y }
        } else if k == 4 {
            HexPosOffset { x: y - x, y: -x }
        } else {
            HexPosOffset { x: y, y: y - x }
        }
    }

    /// Applies a symmetry of D3 about the top right vertex of the origin tile.
    pub fn apply_d3_v(&self, op: &D3) -> (r: HexPosOffset)
        requires
            self.small(),
            op.wf(),
        ensures
            r.pair() == d3_apply(*op, self.x as int, self.y as int),
            forall|b: int|
                0 <= b <= 0x4000 && #[trigger] self.bounded(b) ==> r.bounded(2 * b + 1),
    {
        let x = self.x;
        let y = self.y;
        match *op {
            D3::Rot(k) => if k == 0 {
                HexPosOffset { x, y }
            } else if k == 1 {
                HexPosOffset { x: 1 - y, y: x - y }
            } else {
                HexPosOffset { x: 1 - x + y, y: 1 - x }
            },
            D3::Rfl(k) => if k == 0 {
                HexPosOffset { x, y: x - y }
            } else if k == 1 {
                HexPosOffset { x: 1 - x + y, y }
            } else {
                HexPosOffset { x: 1 - y, y: 1 - x }
            },
        }
    }

    /// Applies a symmetry of K4 about the center of the right edge of the
    /// origin tile.
    pub fn apply_k4_e(&self, op: &K4) -> (r: HexPosOffset)
        requires
            self.small(),
            op.wf(),
        ensures
            r.pair() == k4_apply(*op, self.x as int, self.y as int),
            forall|b: int|
                0 <= b <= 0x4000 && #[trigger] self.bounded(b) ==> r.bounded(2 * b + 1),
    {
        let (x, y) = if op.left.0 == 1 {
            (self.x - self.y, -self.y)
        } else {
            (self.x, self.y)
        };
        if op.right.0 == 1 {
            HexPosOffset { x: 1 - x, y: -y }
        } else {
            HexPosOffset { x, y }
        }
    }

    /// Applies the reflection about the line from the center of the origin
    /// tile through one of its vertices.
    pub fn apply_c2_cv(&self, op: &C2) -> (r: HexPosOffset)
        requires
            self.small(),
            op.wf(),
        ensures
            r.pair() == cv_apply(*op, self.x as int, self.y as int),
            forall|b: int|
                0 <= b <= 0x4000 && #[trigger] self.bounded(b) ==> r.bounded(2 * b + 1),
    {
        if op.0 == 1 {
            HexPosOffset { x: self.x, y: self.x - self.y }
        } else {
            *self
        }
    }

    /// Applies the reflection about the line from the center of the origin
    /// tile through the midpoint of one of its edges.
    pub fn apply_c2_ce(&self, op: &C2) -> (r: HexPosOffset)
        requires
            self.small(),
            op.wf(),
        ensures
            r.pair() == ce_apply(*op, self.x as int, self.y as int),
            forall|b: int|
                0 <= b <= 0x4000 && #[trigger] self.bounded(b) ==> r.bounded(2 * b + 1),
    {
        if op.0 == 1 {
            HexPosOffset { x: self.x - self.y, y: -self.y }
        } else {
            *self
        }
    }

    /// Applies the reflection about the line along the right edge of the
    /// origin tile.
    pub fn apply_c2_ev(&self, op: &C2) -> (r: HexPosOffset)
        requires
            self.small(),
            op.wf(),
        ensures
            r.pair() == ev_apply(*op, self.x as int, self.y as int),
            forall|b: int|
                0 <= b <= 0x4000 && #[trigger] self.bounded(b) ==> r.bounded(2 * b + 1),
    {
        if op.0 == 1 {
            HexPosOffset { x: 1 - self.x + self.y, y: self.y }
        } else {
            *self
        }
    }

    /// The identity, the only symmetry of the trivial group.
    pub fn apply_trivial(&self) -> (r: HexPosOffset)
        ensures
            r == *self,
    {
        *self
    }

    /// Returns the sectant this point lies in, treating (0, 0) as the origin.
    /// Sectant 0 is only the origin tile. Sectant 1 is every tile with
    /// `0 <= y < x`, and sectant `k + 1` is sectant `k` rotated by 60 degrees.
    pub fn sectant(&self) -> (r: u32)
        ensures
            r == sectant_spec(self.x as int, self.y as int),
    {
        let x = self.x;
        let y = self.y;
        if x == 0 && y == 0 {
            0
        } else if y < 0 || (x < 0 && y == 0) {
            if x < y {
                4
            } else if x < 0 {
                5
            } else {
                6
            }
        } else {
            if y < x {
                1
            } else if x > 0 {
                2
            } else {
                3
            }
        }
    }

    /// The six neighbors of this tile.
    pub fn each_neighbor(&self) -> (r: Vec<HexPosOffset>)
        requires
            self.small(),
        ensures
            r.len() == 6,
            forall|i: int|
                0 <= i < 6 ==> #[trigger] r[i].x == self.x + neighbor_dir(i).0 && r[i].y == self.y
                    + neighbor_dir(i).1,
    {
        let mut v: Vec<HexPosOffset> = Vec::new();
        v.push(HexPosOffset { x: self.x + 1, y: self.y });
        v.push(HexPosOffset { x: self.x + 1, y: self.y + 1 });
        v.push(HexPosOffset { x: self.x, y: self.y + 1 });
        v.push(HexPosOffset { x: self.x - 1, y: self.y });
        v.push(HexPosOffset { x: self.x - 1, y: self.y - 1 });
        v.push(HexPosOffset { x: self.x, y: self.y - 1 });
        v
    }

    /// The three neighbors of this tile which come before it when ordering
    /// tiles by x and then y.
    pub fn each_top_left_neighbor(&self) -> (r: Vec<HexPosOffset>)
        requires
            self.small(),
        ensures
            r.len() == 3,
            r[0].x == self.x - 1 && r[0].y == self.y,
            r[1].x == self.x - 1 && r[1].y == self.y - 1,
            r[2].x == self.x && r[2].y == self.y - 1,
    {
        let mut v: Vec<HexPosOffset> = Vec::new();
        v.push(HexPosOffset { x: self.x - 1, y: self.y });
        v.push(HexPosOffset { x: self.x - 1, y: self.y - 1 });
        v.push(HexPosOffset { x: self.x, y: self.y - 1 });
        v
    }
}

/// The offsets to the six neighbors of a tile, counter-clockwise from +x.
pub open spec fn neighbor_dir(i: int) -> (int, int) {
    if i == 0 {
        (1, 0)
    } else if i == 1 {
        (1, 1)
    } else if i == 2 {
        (0, 1)
    } else if i == 3 {
        (-1, 0)
    } else if i == 4 {
        (-1, -1)
    } else {
        (0, -1)
    }
}

/// Two tiles are adjacent when they differ by one of the six neighbor offsets.
pub open spec fn adjacent_spec(x1: int, y1: int, x2: int, y2: int) -> bool {
    let dx = x2 - x1;
    let dy = y2 - y1;
    (dx == 1 && dy == 0) || (dx == 1 && dy == 1) || (dx == 0 && dy == 1) || (dx == -1 && dy
        == 0) || (dx == -1 && dy == -1) || (dx == 0 && dy == -1)
}

pub open spec fn sectant_spec(x: int, y: int) -> u32 {
    if x == 0 && y == 0 {
        0
    } else if y < 0 || (x < 0 && y == 0) {
        if x < y {
            4
        } else if x < 0 {
            5
        } else {
            6
        }
    } else {
        if y < x {
            1
        } else if x > 0 {
            2
        } else {
            3
        }
    }
}

impl HexPos {
    pub fn new(x: u32, y: u32) -> (r: HexPos)
        ensures
            r.x == x,
            r.y == y,
    {
        HexPos { x, y }
    }

    pub fn zero() -> (r: HexPos)
        ensures
            r.x == 0,
            r.y == 0,
    {
        HexPos { x: 0, y: 0 }
    }

    pub fn x(&self) -> (r: u32)
        ensures
            r == self.x,
    {
        self.x
    }

    pub fn y(&self) -> (r: u32)
        ensures
            r == self.y,
    {
        self.y
    }

    /// The offset from `other` to `self`.
    pub fn sub_hex(&self, other: &HexPos) -> (r: HexPosOffset)
        requires
            self.x < coord_limit(),
            self.y < coord_limit(),
            other.x < coord_limit(),
            other.y < coord_limit(),
        ensures
            r.x == self.x - other.x,
            r.y == self.y - other.y,
            r.small(),
    {
        HexPosOffset { x: self.x as i32 - other.x as i32, y: self.y as i32 - other.y as i32 }
    }

    /// Moves this position by `offset`, which must not leave the
    /// non-negative quadrant.
    pub fn add_offset(&self, offset: &HexPosOffset) -> (r: HexPos)
        requires
            self.x < coord_limit(),
            self.y < coord_limit(),
            offset.small(),
            self.x + offset.x >= 0,
            self.y + offset.y >= 0,
        ensures
            r.x == self.x + offset.x,
            r.y == self.y + offset.y,
    {
        HexPos {
            x: (self.x as i32 + offset.x) as u32,
            y: (self.y as i32 + offset.y) as u32,
        }
    }

    /// Adds two positions coordinate-wise.
    pub fn add_hex(&self, other: &HexPos) -> (r: HexPos)
        requires
            self.x + other.x <= u32::MAX,
            self.y + other.y <= u32::MAX,
        ensures
            r.x == self.x + other.x,
            r.y == self.y + other.y,
    {
        HexPos { x: self.x + other.x, y: self.y + other.y }
    }
}

/// The action of D6 on hex positions composes like the group:
/// applying `a * b` is applying `b` and then `a`.
pub proof fn lemma_d6_action(a: D6, b: D6, x: int, y: int)
    requires
        a.wf(),
        b.wf(),
    ensures
        d6_apply(a.spec_mul(b), x, y) == d6_apply(a, d6_apply(b, x, y).0, d6_apply(b, x, y).1),
{
}

/// Applying the inverse of a D6 symmetry undoes it.
pub proof fn lemma_d6_inverse(a: D6, x: int, y: int)
    requires
        a.wf(),
    ensures
        d6_apply(a.spec_inverse(), d6_apply(a, x, y).0, d6_apply(a, x, y).1) == (x, y),
{
}

/// The action of D3 on hex positions composes like the group.
pub proof fn lemma_d3_action(a: D3, b: D3, x: int, y: int)
    requires
        a.wf(),
        b.wf(),
    ensures
        d3_apply(a.spec_mul(b), x, y) == d3_apply(a, d3_apply(b, x, y).0, d3_apply(b, x, y).1),
{
}

/// The action of K4 on hex positions composes like the group.
pub proof fn lemma_k4_action(a: K4, b: K4, x: int, y: int)
    requires
        a.wf(),
        b.wf(),
    ensures
        k4_apply(a.spec_mul(b), x, y) == k4_apply(a, k4_apply(b, x, y).0, k4_apply(b, x, y).1),
{
}

/// Every D6 symmetry maps neighboring tiles to neighboring tiles.
pub proof fn lemma_d6_preserves_adjacency(op: D6, x1: int, y1: int, x2: int, y2: int)
    requires
        op.wf(),
        adjacent_spec(x1, y1, x2, y2),
    ensures
        adjacent_spec(
            d6_apply(op, x1, y1).0,
            d6_apply(op, x1, y1).1,
            d6_apply(op, x2, y2).0,
            d6_apply(op, x2, y2).1,
        ),
{
}

/// Applying the inverse of a D3 symmetry undoes it.
pub proof fn lemma_d3_inverse(a: D3, x: int, y: int)
    requires
        a.wf(),
    ensures
        d3_apply(a.spec_inverse(), d3_apply(a, x, y).0, d3_apply(a, x, y).1) == (x, y),
{
}

/// Every K4 symmetry undoes itself.
pub proof fn lemma_k4_inverse(a: K4, x: int, y: int)
    requires
        a.wf(),
    ensures
        k4_apply(a, k4_apply(a, x, y).0, k4_apply(a, x, y).1) == (x, y),
{
}

/// The action of C2 about the symmetry axis of a board of class `cls`
/// (CV, CE or EV).
pub open spec fn c2_apply(cls: SymmetryClass, op: C2, x: int, y: int) -> (int, int) {
    match cls {
        SymmetryClass::CV => cv_apply(op, x, y),
        SymmetryClass::CE => ce_apply(op, x, y),
        _ => ev_apply(op, x, y),
    }
}

/// The action of C2 on hex positions composes like the group, and every
/// element undoes itself.
pub proof fn lemma_c2_action(cls: SymmetryClass, a: C2, b: C2, x: int, y: int)
    requires
        a.wf(),
        b.wf(),
    ensures
        c2_apply(cls, a.spec_mul(b), x, y) == c2_apply(
            cls,
            a,
            c2_apply(cls, b, x, y).0,
            c2_apply(cls, b, x, y).1,
        ),
        c2_apply(cls, a, c2_apply(cls, a, x, y).0, c2_apply(cls, a, x, y).1) == (x, y),
        c2_apply(cls, C2(0), x, y) == (x, y),
{
}

} // verus!
