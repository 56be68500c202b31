use vstd::prelude::*;

use crate::canonical_view::{is_canonical_orientation, lemma_symmetric_views, library_tables_symmetric, CanonicalView};
use crate::canonicalize::{board_symm_state, origin_spec, symm_state_spec, BoardSymmetryState};
use crate::groups::{
    class_group_size,
    group_size,
    lemma_d3_ord,
    lemma_d6_ord,
    lemma_k4_ord,
    SymmetryClass,
    C2,
    D3,
    D6,
    K4,
};
use crate::hex_pos::{
    ce_apply,
    cv_apply,
    d3_apply,
    d6_apply,
    ev_apply,
    k4_apply,
    lemma_d6_inverse,
    HexPos,
    HexPosOffset,
};
use crate::onoro::{tile_of_color, PawnColor, TileState};
use crate::onoro_impl::{has_pawn_at, interior, sum_x, sum_y, OnoroImpl};
use crate::hash::{cur_parity, is_permutation, normalized_pos, table_in_bounds};
use crate::packed_idx::PackedIdx;

verus! {

/// A symmetry of one of the groups of the symmetry classes, acting about
/// the class's center of symmetry.
#[derive(Clone, Copy, Debug)]
pub enum ViewOp {
    C(D6),
    V(D3),
    E(K4),
    CV(C2),
    CE(C2),
    EV(C2),
    Trivial,
}

/// The action of `op` on the position (x, y).
pub open spec fn view_apply_spec(op: ViewOp, x: int, y: int) -> (int, int) {
    match op {
        ViewOp::C(g) => d6_apply(g, x, y),
        ViewOp::V(g) => d3_apply(g, x, y),
        ViewOp::E(g) => k4_apply(g, x, y),
        ViewOp::CV(g) => cv_apply(g, x, y),
        ViewOp::CE(g) => ce_apply(g, x, y),
        ViewOp::EV(g) => ev_apply(g, x, y),
        ViewOp::Trivial => (x, y),
    }
}

/// The symmetry state of `onoro`.
pub open spec fn onoro_symm_state<const N: usize>(onoro: OnoroImpl<N>) -> BoardSymmetryState {
    symm_state_spec(onoro.com().x as int, onoro.com().y as int, onoro.n_spec())
}

/// The tile whose hash pawn `k` of `onoro` takes: its position relative to
/// the origin of the board, normalized by the operation of its symmetry
/// state.
pub open spec fn pawn_tile<const N: usize>(onoro: OnoroImpl<N>, k: int) -> (int, int) {
    normalized_pos(
        onoro.poses()[k],
        origin_spec(
            onoro.com().x as int,
            onoro.com().y as int,
            onoro.n_spec(),
            onoro_symm_state(onoro),
        ),
        onoro_symm_state(onoro).op,
    )
}

/// Under `op`, pawn `k` of `b1` goes to pawn `p(k)` of `b2`, of its color:
/// the tile of the one is the image of the tile of the other, both on a
/// table of width 16.
pub open spec fn pawns_image<const N: usize>(
    b1: OnoroImpl<N>,
    b2: OnoroImpl<N>,
    op: ViewOp,
    p: spec_fn(int) -> int,
) -> bool {
    forall|k: int|
        0 <= k < b1.n_spec() ==> #[trigger] p(k) % 2 == k % 2 && table_in_bounds(16, pawn_tile(b1, k))
            && table_in_bounds(16, pawn_tile(b2, p(k))) && pawn_tile(b2, p(k)) == view_apply_spec(
            op,
            pawn_tile(b1, k).0,
            pawn_tile(b1, k).1,
        )
}

/// `b2` is the image of `b1` under `op`, about their centers of mass: the
/// same number of pawns and the same player to move, and the pawns of `b2`
/// on the images of the tiles of the pawns of `b1`, each of its color.
pub open spec fn image_board<const N: usize>(b1: OnoroImpl<N>, b2: OnoroImpl<N>, op: ViewOp) -> bool {
    &&& b1.n_spec() == b2.n_spec()
    &&& cur_parity(b1) == cur_parity(b2)
    &&& exists|p: spec_fn(int) -> int, q: spec_fn(int) -> int|
        #![trigger is_permutation(p, q, b1.n_spec() as int), pawns_image(b1, b2, op, p)]
        is_permutation(p, q, b1.n_spec() as int) && pawns_image(b1, b2, op, p)
}

/// The element with ordinal `ord` of the group of the class `cls`.
pub open spec fn view_op_of(cls: SymmetryClass, ord: nat) -> ViewOp {
    match cls {
        SymmetryClass::C => ViewOp::C(D6::spec_from_ord(ord)),
        SymmetryClass::V => ViewOp::V(D3::spec_from_ord(ord)),
        SymmetryClass::E => ViewOp::E(K4::spec_from_ord(ord)),
        SymmetryClass::CV => ViewOp::CV(C2(ord as u8)),
        SymmetryClass::CE => ViewOp::CE(C2(ord as u8)),
        SymmetryClass::EV => ViewOp::EV(C2(ord as u8)),
        SymmetryClass::Trivial => ViewOp::Trivial,
    }
}

impl ViewOp {
    /// The operation is an element of its group.
    pub open spec fn wf(self) -> bool {
        match self {
            ViewOp::C(g) => g.wf(),
            ViewOp::V(g) => g.wf(),
            ViewOp::E(g) => g.wf(),
            ViewOp::CV(g) => g.wf(),
            ViewOp::CE(g) => g.wf(),
            ViewOp::EV(g) => g.wf(),
            ViewOp::Trivial => true,
        }
    }

    /// The element with ordinal `ord` of the group of the class `cls`.
    pub fn of(cls: SymmetryClass, ord: usize) -> (r: ViewOp)
        requires
            ord < class_group_size(cls),
        ensures
            r == view_op_of(cls, ord as nat),
            r.wf(),
    {
        match cls {
            SymmetryClass::C => ViewOp::C(D6::from_ord(ord)),
            SymmetryClass::V => ViewOp::V(D3::from_ord(ord)),
            SymmetryClass::E => ViewOp::E(K4::from_ord(ord)),
            SymmetryClass::CV => ViewOp::CV(C2::from_ord(ord)),
            SymmetryClass::CE => ViewOp::CE(C2::from_ord(ord)),
            SymmetryClass::EV => ViewOp::EV(C2::from_ord(ord)),
            SymmetryClass::Trivial => ViewOp::Trivial,
        }
    }

    /// Applies the operation to `pos`.
    pub fn apply(&self, pos: &HexPosOffset) -> (r: HexPosOffset)
        requires
            self.wf(),
            pos.small(),
        ensures
            r.pair() == view_apply_spec(*self, pos.x as int, pos.y as int),
            forall|b: int| 0 <= b <= 0x4000 && #[trigger] pos.bounded(b) ==> r.bounded(2 * b + 1),
    {
        match *self {
            ViewOp::C(g) => pos.apply_d6_c(&g),
            ViewOp::V(g) => pos.apply_d3_v(&g),
            ViewOp::E(g) => pos.apply_k4_e(&g),
            ViewOp::CV(g) => pos.apply_c2_cv(&g),
            ViewOp::CE(g) => pos.apply_c2_ce(&g),
            ViewOp::EV(g) => pos.apply_c2_ev(&g),
            ViewOp::Trivial => pos.apply_trivial(),
        }
    }
}

/// The position that pawn `k` of `o1` takes on the board of `o2` when the
/// normalized view of `o1` is transformed by `op` into the normalized view of
/// `o2`: the pawn is taken about the origin of `o1` and normalized by its
/// symmetry state's operation, transformed by `op`, denormalized by the
/// inverse of the operation of `o2` and taken about the origin of `o2`.
pub open spec fn view_image<const N: usize>(
    o1: OnoroImpl<N>,
    o2: OnoroImpl<N>,
    op: ViewOp,
    k: int,
) -> (int, int) {
    let s1 = symm_state_spec(o1.com().x as int, o1.com().y as int, o1.n_spec());
    let s2 = symm_state_spec(o2.com().x as int, o2.com().y as int, o2.n_spec());
    let org1 = origin_spec(o1.com().x as int, o1.com().y as int, o1.n_spec(), s1);
    let org2 = origin_spec(o2.com().x as int, o2.com().y as int, o2.n_spec(), s2);
    let p = o1.poses()[k];
    let a = d6_apply(s1.op, p.sx() - org1.0, p.sy() - org1.1);
    let b = view_apply_spec(op, a.0, a.1);
    let c = d6_apply(s2.op.spec_inverse(), b.0, b.1);
    (c.0 + org2.0, c.1 + org2.1)
}

/// The color of pawn `k`: even pawns are black.
pub open spec fn pawn_color_spec(k: int) -> PawnColor {
    if k % 2 == 0 {
        PawnColor::Black
    } else {
        PawnColor::White
    }
}

/// Pawn `k` of `o1` lands, under `op`, on a tile of `o2` holding a pawn of
/// its color (of the other color if the players to move differ).
pub open spec fn pawn_matches<const N: usize>(
    o1: OnoroImpl<N>,
    o2: OnoroImpl<N>,
    op: ViewOp,
    k: int,
) -> bool {
    let q = view_image(o1, o2, op, k);
    let color = if o1.player_spec() == o2.player_spec() {
        pawn_color_spec(k)
    } else {
        pawn_color_spec(k).opposite_spec()
    };
    &&& 0 <= q.0 < 16
    &&& 0 <= q.1 < 16
    &&& o2.tile_spec(q.0, q.1) == tile_of_color(color)
}

/// Every pawn of `o1` lands, under `op`, on a pawn of `o2` of the
/// corresponding color.
pub open spec fn pawns_match<const N: usize>(
    o1: OnoroImpl<N>,
    o2: OnoroImpl<N>,
    op: ViewOp,
) -> bool {
    forall|k: int| 0 <= k < o1.n_spec() ==> #[trigger] pawn_matches(o1, o2, op, k)
}

/// A wrapper over Onoro states that caches the hash of the game state and
/// its canonicalizing symmetry operation. These cached values are used for
/// quicker equality comparison between different Onoro game states which may
/// be in different orientations.
#[derive(Debug)]
pub struct OnoroView<const N: usize> {
    onoro: OnoroImpl<N>,
    view: CanonicalView,
}

impl<const N: usize> OnoroView<N> {
    /// The game state.
    pub closed spec fn onoro_spec(self) -> OnoroImpl<N> {
        self.onoro
    }

    /// Its canonical view.
    pub closed spec fn view_spec(self) -> CanonicalView {
        self.view
    }

    #[verifier::type_invariant]
    spec fn inv(self) -> bool {
        &&& self.onoro.wf()
        &&& self.view.class_spec() == symm_state_spec(
            self.onoro.com().x as int,
            self.onoro.com().y as int,
            self.onoro.n_spec(),
        ).symm_class
        &&& is_canonical_orientation(
            self.onoro,
            symm_state_spec(
                self.onoro.com().x as int,
                self.onoro.com().y as int,
                self.onoro.n_spec(),
            ),
            self.view.hash_spec(),
            self.view.op_ord_spec() as nat,
        )
        &&& self.view.op_ord_spec() < class_group_size(self.view.class_spec())
    }

    /// The view of the game state `onoro`.
    pub fn new(onoro: OnoroImpl<N>) -> (r: Self)
        requires
            onoro.wf(),
        ensures
            r.onoro_spec() == onoro,
            r.view_spec().class_spec() == symm_state_spec(
                onoro.com().x as int,
                onoro.com().y as int,
                onoro.n_spec(),
            ).symm_class,
            is_canonical_orientation(
                onoro,
                symm_state_spec(onoro.com().x as int, onoro.com().y as int, onoro.n_spec()),
                r.view_spec().hash_spec(),
                r.view_spec().op_ord_spec() as nat,
            ),
            r.view_spec().op_ord_spec() < class_group_size(r.view_spec().class_spec()),
            library_tables_symmetric(r.view_spec().class_spec()),
    {
        let view = CanonicalView::find_canonical_view(&onoro);
        OnoroView { onoro, view }
    }

    /// The game state.
    pub fn onoro(&self) -> (r: &OnoroImpl<N>)
        ensures
            *r == self.onoro_spec(),
            r.wf(),
    {
        proof {
            use_type_invariant(self);
        }
        &self.onoro
    }

    pub fn canon_view(&self) -> (r: &CanonicalView)
        ensures
            *r == self.view_spec(),
    {
        &self.view
    }

    /// The canonical hash of the game state, the same for all of its
    /// orientations.
    pub fn hash(&self) -> (r: u64)
        ensures
            r == self.view_spec().hash_spec(),
    {
        self.canon_view().hash()
    }

    /// The position on the board of `onoro2` of pawn `k` of `onoro1`, at
    /// `pawn_pos`, when the normalized view of `onoro1` is transformed by
    /// `op`.
    fn pawn_image(
        onoro1: &OnoroImpl<N>,
        onoro2: &OnoroImpl<N>,
        op: &ViewOp,
        k: usize,
        pawn_pos: PackedIdx,
        normalizing_op1: &D6,
        denormalizing_op2: &D6,
        origin1: &HexPos,
        origin2: &HexPos,
    ) -> (r: (i32, i32))
        requires
            op.wf(),
            0 <= k < onoro1.n_spec(),
            pawn_pos == onoro1.poses()[k as int],
            *normalizing_op1 == symm_state_spec(
                onoro1.com().x as int,
                onoro1.com().y as int,
                onoro1.n_spec(),
            ).op,
            *denormalizing_op2 == symm_state_spec(
                onoro2.com().x as int,
                onoro2.com().y as int,
                onoro2.n_spec(),
            ).op.spec_inverse(),
            normalizing_op1.wf(),
            denormalizing_op2.wf(),
            (origin1.x as int, origin1.y as int) == origin_spec(
                onoro1.com().x as int,
                onoro1.com().y as int,
                onoro1.n_spec(),
                symm_state_spec(onoro1.com().x as int, onoro1.com().y as int, onoro1.n_spec()),
            ),
            (origin2.x as int, origin2.y as int) == origin_spec(
                onoro2.com().x as int,
                onoro2.com().y as int,
                onoro2.n_spec(),
                symm_state_spec(onoro2.com().x as int, onoro2.com().y as int, onoro2.n_spec()),
            ),
            origin1.x < 16,
            origin1.y < 16,
            origin2.x < 16,
            origin2.y < 16,
        ensures
            (r.0 as int, r.1 as int) == view_image(*onoro1, *onoro2, *op, k as int),
    {
        let pos = pawn_pos.to_hex_offset();
        proof {
            pawn_pos.lemma_raw();
        }
        let rel = HexPosOffset::new(pos.x - origin1.x as i32, pos.y - origin1.y as i32);
        assert(rel.bounded(16));
        let normalized_pos1 = rel.apply_d6_c(normalizing_op1);
        assert(normalized_pos1.bounded(33));
        let normalized_pos2 = op.apply(&normalized_pos1);
        assert(normalized_pos2.bounded(67));
        let denormalized = normalized_pos2.apply_d6_c(denormalizing_op2);
        assert(denormalized.bounded(135));
        (denormalized.x + origin2.x as i32, denormalized.y + origin2.y as i32)
    }

    /// Whether pawn `k` of `onoro1`, at `pawn_pos` with color `pawn_color`,
    /// lands on a pawn of the corresponding color of `onoro2` when the
    /// normalized view of `onoro1` is transformed by `op`.
    fn pawn_equal_with_transform(
        onoro1: &OnoroImpl<N>,
        onoro2: &OnoroImpl<N>,
        op: &ViewOp,
        k: usize,
        pawn_pos: PackedIdx,
        pawn_color: PawnColor,
        normalizing_op1: &D6,
        denormalizing_op2: &D6,
        origin1: &HexPos,
        origin2: &HexPos,
        same_color_turn: bool,
    ) -> (r: bool)
        requires
            onoro1.wf(),
            onoro2.wf(),
            op.wf(),
            0 <= k < onoro1.n_spec(),
            pawn_pos == onoro1.poses()[k as int],
            pawn_color == pawn_color_spec(k as int),
            *normalizing_op1 == symm_state_spec(
                onoro1.com().x as int,
                onoro1.com().y as int,
                onoro1.n_spec(),
            ).op,
            *denormalizing_op2 == symm_state_spec(
                onoro2.com().x as int,
                onoro2.com().y as int,
                onoro2.n_spec(),
            ).op.spec_inverse(),
            normalizing_op1.wf(),
            denormalizing_op2.wf(),
            (origin1.x as int, origin1.y as int) == origin_spec(
                onoro1.com().x as int,
                onoro1.com().y as int,
                onoro1.n_spec(),
                symm_state_spec(onoro1.com().x as int, onoro1.com().y as int, onoro1.n_spec()),
            ),
            (origin2.x as int, origin2.y as int) == origin_spec(
                onoro2.com().x as int,
                onoro2.com().y as int,
                onoro2.n_spec(),
                symm_state_spec(onoro2.com().x as int, onoro2.com().y as int, onoro2.n_spec()),
            ),
            origin1.x < 16,
            origin1.y < 16,
            origin2.x < 16,
            origin2.y < 16,
            same_color_turn == (onoro1.player_spec() == onoro2.player_spec()),
        ensures
            r == pawn_matches(*onoro1, *onoro2, *op, k as int),
    {
        let (x2, y2) = Self::pawn_image(
            onoro1,
            onoro2,
            op,
            k,
            pawn_pos,
            normalizing_op1,
            denormalizing_op2,
            origin1,
            origin2,
        );
        if x2 < 0 || y2 < 0 || x2 >= 16 || y2 >= 16 {
            return false;
        }
        let pos2 = PackedIdx::new(x2 as u32, y2 as u32);
        match onoro2.get_tile(pos2) {
            TileState::Black => {
                if same_color_turn {
                    pawn_color == PawnColor::Black
                } else {
                    pawn_color == PawnColor::White
                }
            },
            TileState::White => {
                if same_color_turn {
                    pawn_color == PawnColor::White
                } else {
                    pawn_color == PawnColor::Black
                }
            },
            TileState::Empty => false,
        }
    }

    /// Whether every pawn of `onoro1` lands on a pawn of the corresponding
    /// color of `onoro2` when the normalized view of `onoro1` is transformed
    /// by `op`.
    fn pawns_equal_with_transform(
        onoro1: &OnoroImpl<N>,
        onoro2: &OnoroImpl<N>,
        op: &ViewOp,
    ) -> (r: bool)
        requires
            onoro1.wf(),
            onoro2.wf(),
            op.wf(),
        ensures
            r == pawns_match(*onoro1, *onoro2, *op),
    {
        let symm_state1 = board_symm_state(onoro1);
        let symm_state2 = board_symm_state(onoro2);
        let normalizing_op1 = symm_state1.op;
        let denormalizing_op2 = symm_state2.op.inverse();
        let origin1 = onoro1.origin(&symm_state1);
        let origin2 = onoro2.origin(&symm_state2);
        let same_color_turn = onoro1.player_color() == onoro2.player_color();
        let pawns = onoro1.pawns();
        let mut k: usize = 0;
        while k < pawns.len()
            invariant
                onoro1.wf(),
                onoro2.wf(),
                op.wf(),
                normalizing_op1 == symm_state_spec(
                    onoro1.com().x as int,
                    onoro1.com().y as int,
                    onoro1.n_spec(),
                ).op,
                denormalizing_op2 == symm_state_spec(
                    onoro2.com().x as int,
                    onoro2.com().y as int,
                    onoro2.n_spec(),
                ).op.spec_inverse(),
                normalizing_op1.wf(),
                denormalizing_op2.wf(),
                (origin1.x as int, origin1.y as int) == origin_spec(
                    onoro1.com().x as int,
                    onoro1.com().y as int,
                    onoro1.n_spec(),
                    symm_state_spec(onoro1.com().x as int, onoro1.com().y as int, onoro1.n_spec()),
                ),
                (origin2.x as int, origin2.y as int) == origin_spec(
                    onoro2.com().x as int,
                    onoro2.com().y as int,
                    onoro2.n_spec(),
                    symm_state_spec(onoro2.com().x as int, onoro2.com().y as int, onoro2.n_spec()),
                ),
                origin1.x < 16,
                origin1.y < 16,
                origin2.x < 16,
                origin2.y < 16,
                same_color_turn == (onoro1.player_spec() == onoro2.player_spec()),
                pawns.len() == onoro1.n_spec(),
                forall|i: int|
                    0 <= i < pawns.len() ==> (#[trigger] pawns[i]).pos == onoro1.poses()[i]
                        && pawns[i].color == pawn_color_spec(i),
                k <= pawns.len(),
                forall|j: int| 0 <= j < k ==> #[trigger] pawn_matches(*onoro1, *onoro2, *op, j),
            decreases pawns.len() - k,
        {
            if !Self::pawn_equal_with_transform(
                onoro1,
                onoro2,
                op,
                k,
                pawns[k].pos,
                pawns[k].color,
                &normalizing_op1,
                &denormalizing_op2,
                &origin1,
                &origin2,
                same_color_turn,
            ) {
                return false;
            }
            k += 1;
        }
        true
    }

    /// Whether some symmetry of the class of `view1` transforms its
    /// normalized view into that of `view2`. The symmetry relating the two
    /// canonical orientations is tried first; in the unlikely case of a hash
    /// collision, every symmetry is tried.
    fn compare_views_in_symm_class(view1: &OnoroView<N>, view2: &OnoroView<N>) -> (r: bool)
        ensures
            r == (view1.onoro_spec().n_spec() == view2.onoro_spec().n_spec() && exists|ord: nat|
                ord < class_group_size(view1.view_spec().class_spec()) && pawns_match(
                    view1.onoro_spec(),
                    view2.onoro_spec(),
                    #[trigger] view_op_of(view1.view_spec().class_spec(), ord),
                )),
    {
        proof {
            use_type_invariant(view1);
            use_type_invariant(view2);
        }
        let onoro1 = &view1.onoro;
        let onoro2 = &view2.onoro;
        if onoro1.pawns_in_play() != onoro2.pawns_in_play() {
            return false;
        }
        let cls = view1.canon_view().symm_class();
        let op1 = view1.canon_view().op_ord() as usize;
        let op2 = view2.canon_view().op_ord() as usize;
        let size = group_size(cls);
        // The symmetry taking the canonical orientation of `view1` to that
        // of `view2`: `canon_op2^-1 * canon_op1`.
        let to_view2 = if op2 < size {
            match cls {
                SymmetryClass::C => ViewOp::C(
                    D6::from_ord(op2).inverse().op(&D6::from_ord(op1)),
                ),
                SymmetryClass::V => ViewOp::V(
                    D3::from_ord(op2).inverse().op(&D3::from_ord(op1)),
                ),
                SymmetryClass::E => ViewOp::E(
                    K4::from_ord(op2).inverse().op(&K4::from_ord(op1)),
                ),
                SymmetryClass::CV => ViewOp::CV(
                    C2::from_ord(op2).inverse().op(&C2::from_ord(op1)),
                ),
                SymmetryClass::CE => ViewOp::CE(
                    C2::from_ord(op2).inverse().op(&C2::from_ord(op1)),
                ),
                SymmetryClass::EV => ViewOp::EV(
                    C2::from_ord(op2).inverse().op(&C2::from_ord(op1)),
                ),
                SymmetryClass::Trivial => ViewOp::Trivial,
            }
        } else {
            ViewOp::of(cls, 0)
        };
        let ghost to_ord: nat = match to_view2 {
            ViewOp::C(g) => g.spec_ord(),
            ViewOp::V(g) => g.spec_ord(),
            ViewOp::E(g) => g.spec_ord(),
            ViewOp::CV(g) => g.0 as nat,
            ViewOp::CE(g) => g.0 as nat,
            ViewOp::EV(g) => g.0 as nat,
            ViewOp::Trivial => 0,
        };
        proof {
            match to_view2 {
                ViewOp::C(g) => lemma_d6_ord(g),
                ViewOp::V(g) => lemma_d3_ord(g),
                ViewOp::E(g) => lemma_k4_ord(g),
                _ => {},
            }
            assert(to_ord < size);
            assert(view_op_of(cls, to_ord) == to_view2);
        }
        if Self::pawns_equal_with_transform(onoro1, onoro2, &to_view2) {
            return true;
        }
        // In the extremely unlikely case of a hash collision, the best-guess
        // canonical orientations may not have produced equal orientations.
        // As a fallback, check every possible view transform.

        let mut ord: usize = 0;
        while ord < size
            invariant
                onoro1.wf(),
                onoro2.wf(),
                size == class_group_size(cls),
                cls == view1.view_spec().class_spec(),
                *onoro1 == view1.onoro_spec(),
                *onoro2 == view2.onoro_spec(),
                onoro1.n_spec() == onoro2.n_spec(),
                ord <= size,
                forall|o: nat|
                    o < ord ==> !pawns_match(*onoro1, *onoro2, #[trigger] view_op_of(cls, o)),
            decreases size - ord,
        {
            let op = ViewOp::of(cls, ord);
            if Self::pawns_equal_with_transform(onoro1, onoro2, &op) {
                assert(pawns_match(*onoro1, *onoro2, view_op_of(cls, ord as nat)));
                return true;
            }
            ord += 1;
        }
        false
    }

    /// Whether `self` and `other` are views of the same board up to
    /// symmetry: they are of the same class, and some symmetry of the class
    /// transforms the normalized view of `self` into that of `other`.
    pub fn compare_views(&self, other: &Self) -> (r: bool)
        ensures
            r == (self.view_spec().class_spec() == other.view_spec().class_spec()
                && self.onoro_spec().n_spec() == other.onoro_spec().n_spec() && exists|ord: nat|
                ord < class_group_size(self.view_spec().class_spec()) && pawns_match(
                    self.onoro_spec(),
                    other.onoro_spec(),
                    #[trigger] view_op_of(self.view_spec().class_spec(), ord),
                )),
    {
        if self.canon_view().symm_class() != other.canon_view().symm_class() {
            return false;
        }
        Self::compare_views_in_symm_class(self, other)
    }
}

impl<const N: usize> Clone for OnoroView<N> {
    fn clone(&self) -> (r: Self)
        ensures
            r.onoro_spec().poses() == self.onoro_spec().poses(),
            r.onoro_spec().st() == self.onoro_spec().st(),
            r.onoro_spec().com() == self.onoro_spec().com(),
            r.view_spec() == self.view_spec(),
    {
        proof {
            use_type_invariant(self);
        }
        OnoroView { onoro: self.onoro.copy(), view: self.view }
    }
}

/// Two views are equal when their canonical hashes and symmetry classes
/// agree, they have as many pawns, and some symmetry of their class
/// transforms the normalized view of the first into that of the second.
pub open spec fn views_equal<const N: usize>(v1: OnoroView<N>, v2: OnoroView<N>) -> bool {
    &&& v1.view_spec().hash_spec() == v2.view_spec().hash_spec()
    &&& v1.view_spec().class_spec() == v2.view_spec().class_spec()
    &&& v1.onoro_spec().n_spec() == v2.onoro_spec().n_spec()
    &&& exists|ord: nat|
        ord < class_group_size(v1.view_spec().class_spec()) && pawns_match(
            v1.onoro_spec(),
            v2.onoro_spec(),
            #[trigger] view_op_of(v1.view_spec().class_spec(), ord),
        )
}

impl<const N: usize> PartialEq for OnoroView<N> {
    fn eq(&self, other: &Self) -> (r: bool) {
        if self.canon_view().hash() != other.canon_view().hash() {
            return false;
        }
        self.compare_views(other)
    }
}

impl<const N: usize> vstd::std_specs::cmp::PartialEqSpecImpl for OnoroView<N> {
    open spec fn obeys_eq_spec() -> bool {
        true
    }

    open spec fn eq_spec(&self, other: &Self) -> bool {
        views_equal(*self, *other)
    }
}

/// Pawn `k` of `b1`, whose tile `op` maps to the tile of pawn `j` of `b2`, of
/// its color, lands under `op` on that pawn.
proof fn lemma_pawn_matches_image<const N: usize>(
    b1: OnoroImpl<N>,
    b2: OnoroImpl<N>,
    op: ViewOp,
    k: int,
    j: int,
)
    requires
        b1.wf(),
        b2.wf(),
        0 <= k < b1.n_spec(),
        0 <= j < b2.n_spec(),
        j % 2 == k % 2,
        cur_parity(b1) == cur_parity(b2),
        view_apply_spec(op, pawn_tile(b1, k).0, pawn_tile(b1, k).1) == pawn_tile(b2, j),
    ensures
        pawn_matches(b1, b2, op, k),
{
    let s2 = onoro_symm_state(b2);
    let org2 = origin_spec(b2.com().x as int, b2.com().y as int, b2.n_spec(), s2);
    let p = b2.poses()[j];
    assert(s2.op.wf());
    lemma_d6_inverse(s2.op, p.sx() - org2.0, p.sy() - org2.1);
    assert(view_image(b1, b2, op, k) == (p.sx(), p.sy()));
    let n = b2.n_spec();
    assert(interior(p, N as int));
    assert(has_pawn_at(b2.poses(), n, j % 2, p.sx(), p.sy()));
    if j % 2 == 1 {
        assert forall|i: int|
            0 <= i < n && i % 2 == 0 implies !(#[trigger] b2.poses()[i].sx() == p.sx()
            && b2.poses()[i].sy() == p.sy()) by {
            b2.poses()[i].lemma_coords_eq(p);
            if i < j {
                assert(b2.poses()[i] != b2.poses()[j]);
            } else {
                assert(b2.poses()[j] != b2.poses()[i]);
            }
        }
        assert(!has_pawn_at(b2.poses(), n, 0, p.sx(), p.sy()));
    }
}

/// Boards of one class that are images of each other under a symmetry of
/// the class's group have equal views: the same canonical hash on the
/// library's tables, and every pawn of one on a pawn of the other of its
/// color under that symmetry.
pub proof fn lemma_symmetric_views_equal<const N: usize>(v1: OnoroView<N>, v2: OnoroView<N>, ord: nat)
    requires
        v1.onoro_spec().wf(),
        v2.onoro_spec().wf(),
        onoro_symm_state(v1.onoro_spec()).symm_class == v1.view_spec().class_spec(),
        onoro_symm_state(v2.onoro_spec()).symm_class == v1.view_spec().class_spec(),
        v2.view_spec().class_spec() == v1.view_spec().class_spec(),
        ord < class_group_size(v1.view_spec().class_spec()),
        image_board(v1.onoro_spec(), v2.onoro_spec(), view_op_of(v1.view_spec().class_spec(), ord)),
        library_tables_symmetric(v1.view_spec().class_spec()),
        is_canonical_orientation(
            v1.onoro_spec(),
            onoro_symm_state(v1.onoro_spec()),
            v1.view_spec().hash_spec(),
            v1.view_spec().op_ord_spec() as nat,
        ),
        is_canonical_orientation(
            v2.onoro_spec(),
            onoro_symm_state(v2.onoro_spec()),
            v2.view_spec().hash_spec(),
            v2.view_spec().op_ord_spec() as nat,
        ),
    ensures
        views_equal(v1, v2),
{
    let cls = v1.view_spec().class_spec();
    let b1 = v1.onoro_spec();
    let b2 = v2.onoro_spec();
    lemma_symmetric_views(
        cls,
        b1,
        b2,
        ord,
        v1.view_spec().hash_spec(),
        v1.view_spec().op_ord_spec() as nat,
        v2.view_spec().hash_spec(),
        v2.view_spec().op_ord_spec() as nat,
    );
    let op = view_op_of(cls, ord);
    let n = b1.n_spec() as int;
    let (p, q) = choose|p: spec_fn(int) -> int, q: spec_fn(int) -> int|
        is_permutation(p, q, n) && pawns_image(b1, b2, op, p);
    assert forall|k: int| 0 <= k < b1.n_spec() implies #[trigger] pawn_matches(b1, b2, op, k) by {
        assert(p(k) % 2 == k % 2);
        lemma_pawn_matches_image(b1, b2, op, k, p(k));
    }
    assert(pawns_match(b1, b2, op));
}

/// `b2` is `b1` moved by (dx, dy): the same number of pawns and the same
/// player to move, and each pawn of `b2` at the position of the same pawn of
/// `b1`, moved by (dx, dy).
pub open spec fn shifted_board<const N: usize>(
    b1: OnoroImpl<N>,
    b2: OnoroImpl<N>,
    dx: int,
    dy: int,
) -> bool {
    &&& b1.n_spec() == b2.n_spec()
    &&& cur_parity(b1) == cur_parity(b2)
    &&& forall|k: int|
        0 <= k < b1.n_spec() ==> (#[trigger] b2.poses()[k]).sx() == b1.poses()[k].sx() + dx
            && b2.poses()[k].sy() == b1.poses()[k].sy() + dy
}

/// Moving the first `k` pawns by (dx, dy) moves the sums of their
/// coordinates by `k` times (dx, dy).
proof fn lemma_sum_shifted(s1: Seq<PackedIdx>, s2: Seq<PackedIdx>, k: int, dx: int, dy: int)
    requires
        0 <= k,
        forall|i: int|
            0 <= i < k ==> (#[trigger] s2[i]).sx() == s1[i].sx() + dx && s2[i].sy() == s1[i].sy() + dy,
    ensures
        sum_x(s2, k) == sum_x(s1, k) + k * dx,
        sum_y(s2, k) == sum_y(s1, k) + k * dy,
    decreases k,
{
    if k > 0 {
        lemma_sum_shifted(s1, s2, k - 1, dx, dy);
        assert(s2[k - 1].sx() == s1[k - 1].sx() + dx);
        assert((k - 1) * dx + dx == k * dx) by (nonlinear_arith);
        assert((k - 1) * dy + dy == k * dy) by (nonlinear_arith);
    }
}

/// Adding `n` times `d` to `s` leaves its remainder by `n` and adds `d` to
/// its quotient.
proof fn lemma_div_mod_shift(s: int, n: int, d: int)
    requires
        n >= 1,
    ensures
        (s + n * d) % n == s % n,
        (s + n * d) / n == s / n + d,
{
    vstd::arithmetic::div_mod::lemma_fundamental_div_mod(s, n);
    assert(s + n * d == (s / n + d) * n + s % n) by (nonlinear_arith)
        requires
            s == n * (s / n) + s % n,
    ;
    vstd::arithmetic::div_mod::lemma_fundamental_div_mod_converse(s + n * d, n, s / n + d, s % n);
}

/// A board moved by an offset has the view of the board: the same
/// canonical hash, and every pawn of the one on the same pawn of the other,
/// when the tiles of its pawns lie on the hash tables.
pub proof fn lemma_shifted_views_equal<const N: usize>(v1: OnoroView<N>, v2: OnoroView<N>, dx: int, dy: int)
    requires
        v1.onoro_spec().wf(),
        v2.onoro_spec().wf(),
        shifted_board(v1.onoro_spec(), v2.onoro_spec(), dx, dy),
        forall|k: int|
            0 <= k < v1.onoro_spec().n_spec() ==> table_in_bounds(16, #[trigger] pawn_tile(v1.onoro_spec(), k)),
        onoro_symm_state(v1.onoro_spec()).symm_class == v1.view_spec().class_spec(),
        onoro_symm_state(v2.onoro_spec()).symm_class == v2.view_spec().class_spec(),
        library_tables_symmetric(v1.view_spec().class_spec()),
        is_canonical_orientation(
            v1.onoro_spec(),
            onoro_symm_state(v1.onoro_spec()),
            v1.view_spec().hash_spec(),
            v1.view_spec().op_ord_spec() as nat,
        ),
        is_canonical_orientation(
            v2.onoro_spec(),
            onoro_symm_state(v2.onoro_spec()),
            v2.view_spec().hash_spec(),
            v2.view_spec().op_ord_spec() as nat,
        ),
    ensures
        views_equal(v1, v2),
{
    let b1 = v1.onoro_spec();
    let b2 = v2.onoro_spec();
    let n = b1.n_spec();
    lemma_sum_shifted(b1.poses(), b2.poses(), n, dx, dy);
    assert(n * dx == dx * n && n * dy == dy * n) by (nonlinear_arith);
    lemma_div_mod_shift(b1.com().x as int, n, dx);
    lemma_div_mod_shift(b1.com().y as int, n, dy);
    let ss = onoro_symm_state(b1);
    assert(onoro_symm_state(b2) == ss);
    let cls = ss.symm_class;
    let o1 = origin_spec(b1.com().x as int, b1.com().y as int, n, ss);
    let o2 = origin_spec(b2.com().x as int, b2.com().y as int, n, ss);
    assert(o2 == (o1.0 + dx, o1.1 + dy));
    let op = view_op_of(cls, 0);
    let id = |i: int| i;
    assert forall|k: int| 0 <= k < n implies pawn_tile(b2, k) == pawn_tile(b1, k) by {
        assert(b2.poses()[k].sx() == b1.poses()[k].sx() + dx);
    }
    assert forall|x: int, y: int| view_apply_spec(op, x, y) == (x, y) by {
        if cls == SymmetryClass::V {
            assert(D3::spec_from_ord(0) == D3::Rot(0));
        } else if cls == SymmetryClass::E {
            assert(K4::spec_from_ord(0) == (K4 { left: C2(0), right: C2(0) }));
        }
    }
    assert(is_permutation(id, id, n as int));
    assert forall|k: int| 0 <= k < b1.n_spec() implies #[trigger] id(k) % 2 == k % 2 && table_in_bounds(
        16,
        pawn_tile(b1, k),
    ) && table_in_bounds(16, pawn_tile(b2, id(k))) && pawn_tile(b2, id(k)) == view_apply_spec(
        op,
        pawn_tile(b1, k).0,
        pawn_tile(b1, k).1,
    ) by {
        assert(pawn_tile(b2, k) == pawn_tile(b1, k));
        assert(view_apply_spec(op, pawn_tile(b1, k).0, pawn_tile(b1, k).1) == pawn_tile(b1, k));
    }
    assert(pawns_image(b1, b2, op, id));
    assert(image_board(b1, b2, op));
    assert(0 < class_group_size(cls));
    lemma_symmetric_views_equal(v1, v2, 0);
}

} // verus!
