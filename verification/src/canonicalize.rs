use vstd::prelude::*;

use crate::groups::{SymmetryClass, D6};
use crate::hex_pos::{d6_apply, HexPos, HexPosOffset};
use crate::onoro_impl::{interior, sum_x, sum_y, OnoroImpl};
use crate::packed_idx::PackedIdx;
use crate::packed_hex_pos::PackedHexPos;

verus! {

/// The offset from the corner of the unit square holding the center of mass
/// to the center of the tile that the center of mass is closest to.
#[derive(Clone, Copy, Debug, PartialEq, Eq, Structural)]
pub enum COMOffset {
    /// Offset by (0, 0)
    X0Y0,
    /// Offset by (1, 0)
    X1Y0,
    /// Offset by (0, 1)
    X0Y1,
    /// Offset by (1, 1)
    X1Y1,
}

/// Describes the layout of the game state, and provides enough information to
/// canonicalize the state for hash computation.
#[derive(Clone, Copy, Debug, PartialEq, Eq, Structural)]
pub struct BoardSymmetryState {
    /// The operation to perform on the board before computing the hash, which
    /// aligns board states on all symmetry axes which the board is not
    /// possibly symmetric about itself.
    pub op: D6,
    /// The symmetry class of the board, which depends on where the center of
    /// mass lies.
    pub symm_class: SymmetryClass,
    /// The offset to apply when computing the integer-coordinate, symmetry
    /// invariant center of mass.
    pub center_offset: COMOffset,
}

pub open spec fn com_offset_spec(op: D6) -> COMOffset {
    match op {
        D6::Rot(0) => COMOffset::X0Y0,
        D6::Rot(1) => COMOffset::X0Y1,
        D6::Rot(2) => COMOffset::X1Y1,
        D6::Rot(3) => COMOffset::X1Y1,
        D6::Rot(4) => COMOffset::X1Y0,
        D6::Rot(5) => COMOffset::X0Y0,
        D6::Rfl(0) => COMOffset::X0Y1,
        D6::Rfl(1) => COMOffset::X0Y0,
        D6::Rfl(2) => COMOffset::X0Y0,
        D6::Rfl(3) => COMOffset::X1Y0,
        D6::Rfl(4) => COMOffset::X1Y1,
        _ => COMOffset::X1Y1,
    }
}

pub open spec fn com_offset_pair(c: COMOffset) -> (int, int) {
    match c {
        COMOffset::X0Y0 => (0, 0),
        COMOffset::X1Y0 => (1, 0),
        COMOffset::X0Y1 => (0, 1),
        COMOffset::X1Y1 => (1, 1),
    }
}

pub open spec fn max_int(a: int, b: int) -> int {
    if a < b {
        b
    } else {
        a
    }
}

pub open spec fn min_int(a: int, b: int) -> int {
    if a >= b {
        b
    } else {
        a
    }
}

/// The operation which maps the region of the unit square (scaled by
/// `n_pawns`) holding (x, y) into the triangle of canonical centers of mass,
/// with corners (0, 0), (1/2, 0) and (2/3, 1/3).
pub open spec fn symm_state_op_spec(x: int, y: int, n_pawns: int) -> D6 {
    let x2 = max_int(x, y);
    let y2 = min_int(x, y);
    let x3 = min_int(x2, n_pawns - y2);
    let y3 = min_int(y2, n_pawns - x2);
    let c1 = y < x;
    let c2 = x2 + y2 < n_pawns;
    let c3a = y3 + n_pawns <= 2 * x3;
    let c3b = 2 * y3 <= x3;
    if c1 {
        if c2 {
            if c3a {
                D6::Rfl(3)
            } else if c3b {
                D6::Rot(0)
            } else {
                D6::Rfl(1)
            }
        } else {
            if c3a {
                D6::Rot(4)
            } else if c3b {
                D6::Rfl(5)
            } else {
                D6::Rot(2)
            }
        }
    } else {
        if c2 {
            if c3a {
                D6::Rot(1)
            } else if c3b {
                D6::Rfl(2)
            } else {
                D6::Rot(5)
            }
        } else {
            if c3a {
                D6::Rfl(0)
            } else if c3b {
                D6::Rot(3)
            } else {
                D6::Rfl(4)
            }
        }
    }
}

/// The triangle of canonical centers of mass, scaled by `n`: corners
/// (0, 0), (n/2, 0) and (2n/3, n/3).
pub open spec fn in_canonical_triangle(a: int, b: int, n: int) -> bool {
    0 <= b && 2 * b <= a && 2 * a - b <= n
}

/// The symmetry class of a board whose center of mass, relative to the
/// center of its origin tile and scaled by `n`, is the point (a, b) of the
/// canonical triangle: the center of the tile (C), a vertex (V), the middle
/// of an edge (E), the line from the center to a vertex (CV), the line from
/// the center to the middle of an edge (CE), an edge (EV), or none of these.
pub open spec fn triangle_class(a: int, b: int, n: int) -> SymmetryClass {
    if a == 0 && b == 0 {
        SymmetryClass::C
    } else if 3 * a == 2 * n && 3 * b == n {
        SymmetryClass::V
    } else if 2 * a == n && b == 0 {
        SymmetryClass::E
    } else if a == 2 * b {
        SymmetryClass::CV
    } else if b == 0 {
        SymmetryClass::CE
    } else if 2 * a - b == n {
        SymmetryClass::EV
    } else {
        SymmetryClass::Trivial
    }
}

/// The center of mass (x, y) of a board, folded into the unit square and
/// scaled by the number of pawns `n`, taken relative to the center of the
/// tile of its region and moved by the operation of the symmetry state.
pub open spec fn canonical_com(x: int, y: int, n: int) -> (int, int) {
    let op = symm_state_op_spec(x, y, n);
    let o = com_offset_pair(com_offset_spec(op));
    d6_apply(
        op,
        x - if o.0 == 1 {
            n
        } else {
            0
        },
        y - if o.1 == 1 {
            n
        } else {
            0
        },
    )
}

/// The operation of the symmetry state maps the center of mass into the
/// triangle of canonical centers of mass, and the symmetry class is given by
/// where in the triangle it lands.
#[verifier::spinoff_prover]
pub proof fn lemma_symm_state_op_canonical(x: int, y: int, n: int)
    requires
        1 <= n,
        0 <= x < n,
        0 <= y < n,
    ensures
        in_canonical_triangle(canonical_com(x, y, n).0, canonical_com(x, y, n).1, n),
        symm_state_class_spec(x, y, n) == triangle_class(
            canonical_com(x, y, n).0,
            canonical_com(x, y, n).1,
            n,
        ),
{
}

/// The symmetry class of a board whose center of mass, folded into the unit
/// square and scaled by `n_pawns`, is (x, y).
pub open spec fn symm_state_class_spec(x: int, y: int, n_pawns: int) -> SymmetryClass {
    let x2 = max_int(x, y);
    let y2 = min_int(x, y);
    let x3 = min_int(x2, n_pawns - y2);
    let y3 = min_int(y2, n_pawns - x2);
    if x == 0 && y == 0 {
        SymmetryClass::C
    } else if 3 * x2 == 2 * n_pawns && 3 * y2 == n_pawns {
        SymmetryClass::V
    } else if 2 * x2 == n_pawns && (y2 == 0 || 2 * y2 == n_pawns) {
        SymmetryClass::E
    } else if 2 * y3 == x3 || (x2 + y2 == n_pawns && 3 * y2 < n_pawns) {
        SymmetryClass::CV
    } else if x2 == y2 || y2 == 0 {
        SymmetryClass::CE
    } else if y3 + n_pawns == 2 * x3 || (x2 + y2 == n_pawns && 3 * y2 > n_pawns) {
        SymmetryClass::EV
    } else {
        SymmetryClass::Trivial
    }
}

/// The region of the unit square (scaled by `n_pawns`) holding (x, y), given
/// by the offset to the center of the tile that region belongs to.
pub open spec fn com_to_origin_offset_spec(x: int, y: int, n_pawns: int) -> COMOffset {
    let bottom_left = x < n_pawns - y;
    let below_a_e = 2 * x > y;
    let below_d_f = x + n_pawns > 2 * y;
    let above_a_c = 2 * y > x;
    let above_b_f = y + n_pawns > 2 * x;
    if bottom_left && below_d_f && above_b_f {
        COMOffset::X0Y0
    } else if !below_a_e && !below_d_f {
        COMOffset::X0Y1
    } else if !above_a_c && !above_b_f {
        COMOffset::X1Y0
    } else {
        COMOffset::X1Y1
    }
}

/// The symmetry state of a board with the given sum of pawn positions and
/// number of pawns.
pub open spec fn symm_state_spec(sx: int, sy: int, n_pawns: int) -> BoardSymmetryState {
    let x = sx % n_pawns;
    let y = sy % n_pawns;
    let op = symm_state_op_spec(x, y, n_pawns);
    BoardSymmetryState {
        op,
        symm_class: symm_state_class_spec(x, y, n_pawns),
        center_offset: com_offset_spec(op),
    }
}

impl BoardSymmetryState {
    /// The offset to apply to the truncated center of mass.
    pub fn center_offset(&self) -> (r: HexPosOffset)
        ensures
            (r.x as int, r.y as int) == com_offset_pair(self.center_offset),
    {
        match self.center_offset {
            COMOffset::X0Y0 => HexPosOffset::new(0, 0),
            COMOffset::X1Y0 => HexPosOffset::new(1, 0),
            COMOffset::X0Y1 => HexPosOffset::new(0, 1),
            COMOffset::X1Y1 => HexPosOffset::new(1, 1),
        }
    }
}

/// The offset to the center of the tile of the region which the operation
/// `op` maps into the canonical triangle.
pub fn board_symm_state_op_to_com_offset(op: D6) -> (r: COMOffset)
    requires
        op.wf(),
    ensures
        r == com_offset_spec(op),
{
    match op {
        D6::Rot(0) => COMOffset::X0Y0,
        D6::Rot(1) => COMOffset::X0Y1,
        D6::Rot(2) => COMOffset::X1Y1,
        D6::Rot(3) => COMOffset::X1Y1,
        D6::Rot(4) => COMOffset::X1Y0,
        D6::Rot(5) => COMOffset::X0Y0,
        D6::Rfl(0) => COMOffset::X0Y1,
        D6::Rfl(1) => COMOffset::X0Y0,
        D6::Rfl(2) => COMOffset::X0Y0,
        D6::Rfl(3) => COMOffset::X1Y0,
        D6::Rfl(4) => COMOffset::X1Y1,
        _ => COMOffset::X1Y1,
    }
}

fn max_u32(a: u32, b: u32) -> (r: u32)
    ensures
        r == max_int(a as int, b as int),
{
    if a < b {
        b
    } else {
        a
    }
}

fn min_u32(a: u32, b: u32) -> (r: u32)
    ensures
        r == min_int(a as int, b as int),
{
    if a >= b {
        b
    } else {
        a
    }
}

/// The symmetry operation for the point (x, y) of the unit square scaled by
/// `n_pawns`, the number of pawns in play.
pub fn symm_state_op(x: u32, y: u32, n_pawns: u32) -> (r: D6)
    requires
        x < n_pawns,
        y < n_pawns,
        n_pawns <= 16,
    ensures
        r == symm_state_op_spec(x as int, y as int, n_pawns as int),
        r.wf(),
{
    let x2 = max_u32(x, y);
    let y2 = min_u32(x, y);
    let x3 = min_u32(x2, n_pawns - y2);
    let y3 = min_u32(y2, n_pawns - x2);
    let c1 = y < x;
    let c2 = x2 + y2 < n_pawns;
    let c3a = y3 + n_pawns <= 2 * x3;
    let c3b = 2 * y3 <= x3;
    if c1 {
        if c2 {
            if c3a {
                D6::Rfl(3)
            } else if c3b {
                D6::Rot(0)
            } else {
                D6::Rfl(1)
            }
        } else {
            if c3a {
                D6::Rot(4)
            } else if c3b {
                D6::Rfl(5)
            } else {
                D6::Rot(2)
            }
        }
    } else {
        if c2 {
            if c3a {
                D6::Rot(1)
            } else if c3b {
                D6::Rfl(2)
            } else {
                D6::Rot(5)
            }
        } else {
            if c3a {
                D6::Rfl(0)
            } else if c3b {
                D6::Rot(3)
            } else {
                D6::Rfl(4)
            }
        }
    }
}

/// The symmetry class for the point (x, y) of the unit square scaled by
/// `n_pawns`, the number of pawns in play.
pub fn symm_state_class(x: u32, y: u32, n_pawns: u32) -> (r: SymmetryClass)
    requires
        x < n_pawns,
        y < n_pawns,
        n_pawns <= 16,
    ensures
        r == symm_state_class_spec(x as int, y as int, n_pawns as int),
{
    let x2 = max_u32(x, y);
    let y2 = min_u32(x, y);
    let x3 = min_u32(x2, n_pawns - y2);
    let y3 = min_u32(y2, n_pawns - x2);
    if x == 0 && y == 0 {
        SymmetryClass::C
    } else if 3 * x2 == 2 * n_pawns && 3 * y2 == n_pawns {
        SymmetryClass::V
    } else if 2 * x2 == n_pawns && (y2 == 0 || 2 * y2 == n_pawns) {
        SymmetryClass::E
    } else if 2 * y3 == x3 || (x2 + y2 == n_pawns && 3 * y2 < n_pawns) {
        SymmetryClass::CV
    } else if x2 == y2 || y2 == 0 {
        SymmetryClass::CE
    } else if y3 + n_pawns == 2 * x3 || (x2 + y2 == n_pawns && 3 * y2 > n_pawns) {
        SymmetryClass::EV
    } else {
        SymmetryClass::Trivial
    }
}

/// The symmetry state of a board whose pawn positions sum to `sum_of_mass`,
/// with `pawns_in_play` pawns.
pub fn compute_board_symm_state(sum_of_mass: PackedHexPos, pawns_in_play: u32) -> (r: BoardSymmetryState)
    requires
        1 <= pawns_in_play <= 16,
    ensures
        r == symm_state_spec(sum_of_mass.x as int, sum_of_mass.y as int, pawns_in_play as int),
        r.op.wf(),
{
    let x = sum_of_mass.x as u32 % pawns_in_play;
    let y = sum_of_mass.y as u32 % pawns_in_play;
    let op = symm_state_op(x, y, pawns_in_play);
    let symm_class = symm_state_class(x, y, pawns_in_play);
    let center_offset = board_symm_state_op_to_com_offset(op);
    BoardSymmetryState { op, symm_class, center_offset }
}

/// The symmetry state of a game board: see `compute_board_symm_state`.
pub fn board_symm_state<const N: usize>(onoro: &OnoroImpl<N>) -> (r: BoardSymmetryState)
    requires
        onoro.wf(),
    ensures
        r == symm_state_spec(onoro.com().x as int, onoro.com().y as int, onoro.n_spec()),
        r.op.wf(),
{
    compute_board_symm_state(onoro.sum_of_mass(), onoro.pawns_in_play())
}

/// The origin tile of a board, which all symmetry operations act about: the
/// truncated center of mass moved by the symmetry state's offset.
pub open spec fn origin_spec(sx: int, sy: int, n: int, symm_state: BoardSymmetryState) -> (int, int) {
    (
        sx / n + com_offset_pair(symm_state.center_offset).0,
        sy / n + com_offset_pair(symm_state.center_offset).1,
    )
}

impl<const N: usize> OnoroImpl<N> {
    /// The origin tile, which the symmetry operations act about. For any
    /// symmetry of this board, the same tile is chosen.
    pub fn origin(&self, symm_state: &BoardSymmetryState) -> (r: HexPos)
        requires
            self.wf(),
        ensures
            (r.x as int, r.y as int) == origin_spec(
                self.com().x as int,
                self.com().y as int,
                self.n_spec(),
                *symm_state,
            ),
            r.x < 16,
            r.y < 16,
    {
        let n = self.pawns_in_play();
        let com = self.sum_of_mass();
        proof {
            lemma_sum_interior(self.poses(), self.n_spec(), N as int);
            let k = self.n_spec();
            assert((N as int - 2) * k <= 14 * k) by (nonlinear_arith)
                requires
                    N <= 16,
                    k >= 0,
            ;
            lemma_div_below(com.x as int, n as int);
            lemma_div_below(com.y as int, n as int);
        }
        let off = symm_state.center_offset();
        HexPos::new(com.x as u32 / n + off.x as u32, com.y as u32 / n + off.y as u32)
    }
}

proof fn lemma_sum_interior(s: Seq<PackedIdx>, n: int, w: int)
    requires
        0 <= n <= s.len(),
        forall|i: int| 0 <= i < n ==> interior(#[trigger] s[i], w),
    ensures
        0 <= sum_x(s, n) <= (w - 2) * n,
        0 <= sum_y(s, n) <= (w - 2) * n,
    decreases n,
{
    if n > 0 {
        lemma_sum_interior(s, n - 1, w);
        assert(interior(s[n - 1], w));
        assert((w - 2) * n == (w - 2) * (n - 1) + (w - 2)) by (nonlinear_arith);
    }
}

proof fn lemma_div_below(a: int, n: int)
    requires
        n >= 1,
        0 <= a <= 14 * n,
    ensures
        0 <= a / n <= 14,
{
    vstd::arithmetic::div_mod::lemma_div_is_ordered(a, 14 * n, n);
    vstd::arithmetic::div_mod::lemma_div_multiples_vanish(14, n);
    vstd::arithmetic::div_mod::lemma_div_pos_is_pos(a, n);
}

/// The region of the unit square which each symmetry operation maps into the
/// canonical triangle is the region whose points are closest to the tile
/// offset by that operation's center offset.
pub proof fn lemma_op_to_com_offset(x: int, y: int, n_pawns: int)
    requires
        1 <= n_pawns,
        0 <= x < n_pawns,
        0 <= y < n_pawns,
    ensures
        com_offset_spec(symm_state_op_spec(x, y, n_pawns)) == com_to_origin_offset_spec(x, y, n_pawns),
{
}

} // verus!
