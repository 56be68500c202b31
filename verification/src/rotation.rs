use vstd::prelude::*;

use crate::canonicalize::{board_symm_state, origin_spec, symm_state_spec};
use crate::groups::{SymmetryClass, C2, D3, D6, K4};
use crate::hex_pos::{
    ce_apply, cv_apply, d3_apply, d6_apply, ev_apply, k4_apply, lemma_c2_action, lemma_d3_inverse,
    lemma_d6_inverse, lemma_k4_inverse, HexPosOffset,
};
use crate::onoro_impl::{valid_width, OnoroImpl};
use crate::onoro_initialize::distinct_tiles;
use crate::packed_idx::PackedIdx;

verus! {

broadcast use PackedIdx::lemma_raw;

/// A symmetry of the board, with the part of the tile grid it acts about:
/// the center of a tile (c), a vertex (v) or the middle of an edge (e).
#[derive(Clone, Copy, Debug, PartialEq, Eq, Structural)]
pub enum RotationOp {
    D6C(D6),
    D3V(D3),
    K4E(K4),
    C2CV(C2),
    C2CE(C2),
    C2EV(C2),
}

impl RotationOp {
    pub open spec fn wf(self) -> bool {
        match self {
            RotationOp::D6C(op) => op.wf(),
            RotationOp::D3V(op) => op.wf(),
            RotationOp::K4E(op) => op.wf(),
            RotationOp::C2CV(op) => op.wf(),
            RotationOp::C2CE(op) => op.wf(),
            RotationOp::C2EV(op) => op.wf(),
        }
    }
}

/// Where the symmetry `op` takes (x, y), relative to the origin tile.
pub open spec fn rotation_apply(op: RotationOp, x: int, y: int) -> (int, int) {
    match op {
        RotationOp::D6C(o) => d6_apply(o, x, y),
        RotationOp::D3V(o) => d3_apply(o, x, y),
        RotationOp::K4E(o) => k4_apply(o, x, y),
        RotationOp::C2CV(o) => cv_apply(o, x, y),
        RotationOp::C2CE(o) => ce_apply(o, x, y),
        RotationOp::C2EV(o) => ev_apply(o, x, y),
    }
}

/// The origin tile of `g`, which the symmetries act about.
pub open spec fn origin_of<const N: usize>(g: OnoroImpl<N>) -> (int, int) {
    let sx = g.com().x as int;
    let sy = g.com().y as int;
    origin_spec(sx, sy, g.n_spec(), symm_state_spec(sx, sy, g.n_spec()))
}

/// Where `op` takes pawn `k` of `g`, with the origin tile moved to the middle
/// of the board.
pub open spec fn rotated_pos<const N: usize>(g: OnoroImpl<N>, op: RotationOp, k: int) -> (int, int) {
    let o = origin_of(g);
    let p = rotation_apply(op, g.poses()[k].sx() - o.0, g.poses()[k].sy() - o.1);
    (p.0 + N as int / 2, p.1 + N as int / 2)
}

/// `r` is the game `g` with each pawn `k` moved to `targets[k]`: it has as
/// many pawns and the same player to move; when every target is off of the
/// border it exists exactly when the targets are distinct, and its pawns are
/// then at the targets.
pub open spec fn moved_to<const N: usize>(g: OnoroImpl<N>, targets: Seq<(int, int)>, r: Option<OnoroImpl<N>>) -> bool {
    let inside = forall|k: int|
        0 <= k < g.n_spec() ==> 1 <= (#[trigger] targets[k]).0 <= N - 2 && 1 <= targets[k].1 <= N - 2;
    let distinct = forall|a: int, b: int| 0 <= a < b < g.n_spec() ==> #[trigger] targets[a] != #[trigger] targets[b];
    &&& r is Some ==> r->0.wf() && r->0.n_spec() == g.n_spec() && r->0.player_spec() == g.player_spec()
    &&& inside ==> (r is Some <==> distinct)
    &&& r is Some && inside ==> forall|k: int|
        0 <= k < g.n_spec() ==> (#[trigger] r->0.poses()[k]).sx() == targets[k].0 && r->0.poses()[k].sy()
            == targets[k].1
}

/// The targets of the pawns of `g` under `op`.
pub open spec fn rotation_targets<const N: usize>(g: OnoroImpl<N>, op: RotationOp) -> Seq<(int, int)> {
    Seq::new(g.n_spec() as nat, |k: int| rotated_pos(g, op, k))
}

/// Each symmetry of the board takes distinct tiles to distinct tiles.
pub proof fn lemma_rotation_injective(op: RotationOp, x1: int, y1: int, x2: int, y2: int)
    requires
        op.wf(),
        rotation_apply(op, x1, y1) == rotation_apply(op, x2, y2),
    ensures
        x1 == x2 && y1 == y2,
{
    match op {
        RotationOp::D6C(o) => {
            lemma_d6_inverse(o, x1, y1);
            lemma_d6_inverse(o, x2, y2);
        },
        RotationOp::D3V(o) => {
            lemma_d3_inverse(o, x1, y1);
            lemma_d3_inverse(o, x2, y2);
        },
        RotationOp::K4E(o) => {
            lemma_k4_inverse(o, x1, y1);
            lemma_k4_inverse(o, x2, y2);
        },
        RotationOp::C2CV(o) => {
            lemma_c2_action(SymmetryClass::CV, o, o, x1, y1);
            lemma_c2_action(SymmetryClass::CV, o, o, x2, y2);
        },
        RotationOp::C2CE(o) => {
            lemma_c2_action(SymmetryClass::CE, o, o, x1, y1);
            lemma_c2_action(SymmetryClass::CE, o, o, x2, y2);
        },
        RotationOp::C2EV(o) => {
            lemma_c2_action(SymmetryClass::EV, o, o, x1, y1);
            lemma_c2_action(SymmetryClass::EV, o, o, x2, y2);
        },
    }
}

impl<const N: usize> OnoroImpl<N> {
    /// The game with pawn `k` placed at `targets[k]`, in turn, and with the
    /// same player to move. `None` if a target is off of the board or a pawn
    /// cannot be placed.
    fn with_pawns_at(&self, targets: &Vec<(i32, i32)>) -> (r: Option<Self>)
        requires
            self.wf(),
            targets.len() == self.n_spec(),
        ensures
            moved_to(*self, targets@.map_values(|t: (i32, i32)| (t.0 as int, t.1 as int)), r),
    {
        let ghost ts = targets@.map_values(|t: (i32, i32)| (t.0 as int, t.1 as int));
        let mut idx: Vec<PackedIdx> = Vec::new();
        let mut k: usize = 0;
        while k < targets.len()
            invariant
                k <= targets.len(),
                targets.len() == self.n_spec(),
                idx.len() == k,
                ts == targets@.map_values(|t: (i32, i32)| (t.0 as int, t.1 as int)),
                valid_width(N as int),
                forall|j: int| 0 <= j < k ==> (#[trigger] idx[j]).sx() == ts[j].0 && idx[j].sy() == ts[j].1,
                forall|j: int| 0 <= j < k ==> 0 <= (#[trigger] ts[j]).0 < N && 0 <= ts[j].1 < N,
            decreases targets.len() - k,
        {
            let (x, y) = targets[k];
            assert(ts[k as int] == (x as int, y as int));
            if x < 0 || y < 0 || x >= N as i32 || y >= N as i32 {
                assert(!(1 <= ts[k as int].0 <= N - 2 && 1 <= ts[k as int].1 <= N - 2));
                return None;
            }
            idx.push(PackedIdx::new(x as u32, y as u32));
            k += 1;
        }
        let ghost n = self.n_spec();
        let ghost inside = forall|k: int|
            0 <= k < n ==> 1 <= (#[trigger] ts[k]).0 <= N - 2 && 1 <= ts[k].1 <= N - 2;
        let ghost distinct = forall|a: int, b: int| 0 <= a < b < n ==> #[trigger] ts[a] != #[trigger] ts[b];
        proof {
            if inside {
                assert forall|i: int| 0 <= i < idx.len() implies crate::onoro_impl::interior(#[trigger] idx[i], N as int) by {
                    assert(1 <= ts[i].0 <= N - 2);
                }
            }
            if distinct {
                assert forall|a: int, b: int| 0 <= a < b < idx.len() implies !(#[trigger] idx@[a].sx()
                    == #[trigger] idx@[b].sx() && idx@[a].sy() == idx@[b].sy()) by {
                    assert(ts[a] != ts[b]);
                }
            }
            if distinct_tiles(idx@) {
                assert forall|a: int, b: int| 0 <= a < b < n implies #[trigger] ts[a] != #[trigger] ts[b] by {
                    assert(!(idx@[a].sx() == idx@[b].sx() && idx@[a].sy() == idx@[b].sy()));
                }
            }
        }
        let mut g = match Self::from_indexes(&idx) {
            Some(g) => g,
            None => {
                return None;
            },
        };
        let ghost placed = g;
        if !self.in_phase1() && g.onoro_state().black_turn() != self.onoro_state().black_turn() {
            g.swap_turn();
        }
        proof {
            if inside {
                assert forall|k: int| 0 <= k < n implies (#[trigger] g.poses()[k]).sx() == ts[k].0
                    && g.poses()[k].sy() == ts[k].1 by {
                    assert(placed.poses()[k].sx() == idx[k].sx());
                }
            }
        }
        Some(g)
    }

    /// The game rotated by `op` about its origin tile, with the origin tile
    /// moved to the middle of the board; the pawns keep their order and the
    /// same player is to move. `None` where a pawn would leave the board or
    /// cannot be placed.
    pub fn rotated(&self, op: RotationOp) -> (r: Option<Self>)
        requires
            self.wf(),
            op.wf(),
        ensures
            moved_to(*self, rotation_targets(*self, op), r),
            (forall|k: int|
                0 <= k < self.n_spec() ==> 1 <= (#[trigger] rotated_pos(*self, op, k)).0 <= N - 2 && 1
                    <= rotated_pos(*self, op, k).1 <= N - 2) ==> r is Some,
    {
        let symm_state = board_symm_state(self);
        let origin = self.origin(&symm_state);
        let pawns = self.pawns();
        let half = (N / 2) as i32;
        let mut targets: Vec<(i32, i32)> = Vec::new();
        let mut k: usize = 0;
        while k < pawns.len()
            invariant
                self.wf(),
                op.wf(),
                k <= pawns.len(),
                pawns.len() == self.n_spec(),
                targets.len() == k,
                half == N / 2,
                (origin.x as int, origin.y as int) == origin_of(*self),
                origin.x < 16,
                origin.y < 16,
                forall|j: int| 0 <= j < pawns.len() ==> (#[trigger] pawns[j]).pos == self.poses()[j],
                forall|j: int|
                    0 <= j < k ==> (#[trigger] targets[j]).0 == rotated_pos(*self, op, j).0 && targets[j].1
                        == rotated_pos(*self, op, j).1,
            decreases pawns.len() - k,
        {
            let pos = HexPosOffset::new(
                pawns[k].pos.x() as i32 - origin.x as i32,
                pawns[k].pos.y() as i32 - origin.y as i32,
            );
            assert(pos.bounded(16));
            let p = match op {
                RotationOp::D6C(o) => pos.apply_d6_c(&o),
                RotationOp::D3V(o) => pos.apply_d3_v(&o),
                RotationOp::K4E(o) => pos.apply_k4_e(&o),
                RotationOp::C2CV(o) => pos.apply_c2_cv(&o),
                RotationOp::C2CE(o) => pos.apply_c2_ce(&o),
                RotationOp::C2EV(o) => pos.apply_c2_ev(&o),
            };
            assert(p.bounded(33));
            targets.push((p.x + half, p.y + half));
            k += 1;
        }
        proof {
            let ts = rotation_targets(*self, op);
            assert(targets@.map_values(|t: (i32, i32)| (t.0 as int, t.1 as int)) =~= ts);
            let o = origin_of(*self);
            let ps = self.poses();
            assert forall|a: int, b: int| 0 <= a < b < self.n_spec() implies #[trigger] ts[a] != #[trigger] ts[b] by {
                if ts[a] == ts[b] {
                    lemma_rotation_injective(op, ps[a].sx() - o.0, ps[a].sy() - o.1, ps[b].sx() - o.0, ps[b].sy() - o.1);
                    ps[a].lemma_coords_eq(ps[b]);
                    assert(ps[a] != ps[b]);
                }
            }
        }
        self.with_pawns_at(&targets)
    }

    /// The game rotated by `op` about the center of its origin tile.
    pub fn rotated_d6_c(&self, op: D6) -> (r: Option<Self>)
        requires
            self.wf(),
            op.wf(),
        ensures
            moved_to(*self, rotation_targets(*self, RotationOp::D6C(op)), r),
            (forall|k: int|
                0 <= k < self.n_spec() ==> 1 <= (#[trigger] rotated_pos(*self, RotationOp::D6C(op), k)).0 <= N
                    - 2 && 1 <= rotated_pos(*self, RotationOp::D6C(op), k).1 <= N - 2) ==> r is Some,
    {
        self.rotated(RotationOp::D6C(op))
    }

    /// The game rotated by `op` about a vertex of its origin tile.
    pub fn rotated_d3_v(&self, op: D3) -> (r: Option<Self>)
        requires
            self.wf(),
            op.wf(),
        ensures
            moved_to(*self, rotation_targets(*self, RotationOp::D3V(op)), r),
            (forall|k: int|
                0 <= k < self.n_spec() ==> 1 <= (#[trigger] rotated_pos(*self, RotationOp::D3V(op), k)).0 <= N
                    - 2 && 1 <= rotated_pos(*self, RotationOp::D3V(op), k).1 <= N - 2) ==> r is Some,
    {
        self.rotated(RotationOp::D3V(op))
    }

    /// The game rotated by `op` about the middle of an edge of its origin
    /// tile.
    pub fn rotated_k4_e(&self, op: K4) -> (r: Option<Self>)
        requires
            self.wf(),
            op.wf(),
        ensures
            moved_to(*self, rotation_targets(*self, RotationOp::K4E(op)), r),
            (forall|k: int|
                0 <= k < self.n_spec() ==> 1 <= (#[trigger] rotated_pos(*self, RotationOp::K4E(op), k)).0 <= N
                    - 2 && 1 <= rotated_pos(*self, RotationOp::K4E(op), k).1 <= N - 2) ==> r is Some,
    {
        self.rotated(RotationOp::K4E(op))
    }

    /// The game reflected by `op` across a line through the center and a
    /// vertex of its origin tile.
    pub fn rotated_c2_cv(&self, op: C2) -> (r: Option<Self>)
        requires
            self.wf(),
            op.wf(),
        ensures
            moved_to(*self, rotation_targets(*self, RotationOp::C2CV(op)), r),
            (forall|k: int|
                0 <= k < self.n_spec() ==> 1 <= (#[trigger] rotated_pos(*self, RotationOp::C2CV(op), k)).0 <= N
                    - 2 && 1 <= rotated_pos(*self, RotationOp::C2CV(op), k).1 <= N - 2) ==> r is Some,
    {
        self.rotated(RotationOp::C2CV(op))
    }

    /// The game reflected by `op` across a line through the center and the
    /// middle of an edge of its origin tile.
    pub fn rotated_c2_ce(&self, op: C2) -> (r: Option<Self>)
        requires
            self.wf(),
            op.wf(),
        ensures
            moved_to(*self, rotation_targets(*self, RotationOp::C2CE(op)), r),
            (forall|k: int|
                0 <= k < self.n_spec() ==> 1 <= (#[trigger] rotated_pos(*self, RotationOp::C2CE(op), k)).0 <= N
                    - 2 && 1 <= rotated_pos(*self, RotationOp::C2CE(op), k).1 <= N - 2) ==> r is Some,
    {
        self.rotated(RotationOp::C2CE(op))
    }

    /// The game reflected by `op` across a line through a vertex and the
    /// middle of an edge of its origin tile.
    pub fn rotated_c2_ev(&self, op: C2) -> (r: Option<Self>)
        requires
            self.wf(),
            op.wf(),
        ensures
            moved_to(*self, rotation_targets(*self, RotationOp::C2EV(op)), r),
            (forall|k: int|
                0 <= k < self.n_spec() ==> 1 <= (#[trigger] rotated_pos(*self, RotationOp::C2EV(op), k)).0 <= N
                    - 2 && 1 <= rotated_pos(*self, RotationOp::C2EV(op), k).1 <= N - 2) ==> r is Some,
    {
        self.rotated(RotationOp::C2EV(op))
    }
}

} // verus!
