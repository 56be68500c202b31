use vstd::prelude::*;

use crate::groups::{class_group_size, SymmetryClass, D6};
use crate::hex_pos::{d6_apply, lemma_d6_inverse, HexPos, HexPosOffset};
use crate::onoro_view::{view_apply_spec, view_op_of, ViewOp};
use crate::packed_idx::PackedIdx;

verus! {

broadcast use {PackedIdx::lemma_raw, vstd::array::group_array_axioms};

/// The position of `p` relative to `origin`, or nothing where `p` is null.
pub open spec fn relative_pos(p: PackedIdx, origin: HexPos) -> Option<HexPosOffset> {
    if p.is_null_spec() {
        None
    } else {
        Some(HexPosOffset { x: (p.sx() - origin.x) as i32, y: (p.sy() - origin.y) as i32 })
    }
}

/// `e` moved by `f`, where it holds a position.
pub open spec fn map_entry(e: Option<HexPosOffset>, f: spec_fn(int, int) -> (int, int)) -> Option<
    HexPosOffset,
> {
    match e {
        Some(p) => Some(HexPosOffset::from_pair(f(p.x as int, p.y as int))),
        None => None,
    }
}

/// The positions of the eight pawns of one player, relative to an origin;
/// a pawn not on the board has no position.
#[derive(Clone, Copy, Debug)]
pub struct PawnList8 {
    pawns: [Option<HexPosOffset>; 8],
}

impl PawnList8 {
    /// The positions of the pawns, in order.
    pub closed spec fn entries(self) -> Seq<Option<HexPosOffset>> {
        self.pawns@
    }

    /// The positions of the pawns are small enough to be transformed.
    pub open spec fn small(self) -> bool {
        forall|i: int| 0 <= i < 8 ==> (#[trigger] self.entries()[i] matches Some(p) ==> p.small())
    }

    /// The positions of the pawns, in order.
    pub fn positions(&self) -> (r: [Option<HexPosOffset>; 8])
        ensures
            r@ == self.entries(),
    {
        self.pawns
    }

    /// The pawns at indices `parity`, `parity + 2`, ... of `pawn_poses`,
    /// relative to `origin`.
    fn extract(pawn_poses: &[PackedIdx; 16], origin: HexPos, parity: usize) -> (r: Self)
        requires
            parity < 2,
            origin.x < 16,
            origin.y < 16,
        ensures
            r.entries().len() == 8,
            forall|i: int|
                0 <= i < 8 ==> #[trigger] r.entries()[i] == relative_pos(
                    pawn_poses@[2 * i + parity],
                    origin,
                ),
            r.small(),
    {
        let mut pawns: [Option<HexPosOffset>; 8] = [None; 8];
        let mut i: usize = 0;
        while i < 8
            invariant
                parity < 2,
                origin.x < 16,
                origin.y < 16,
                i <= 8,
                forall|j: int|
                    0 <= j < i ==> #[trigger] pawns@[j] == relative_pos(
                        pawn_poses@[2 * j + parity],
                        origin,
                    ),
                forall|j: int| 0 <= j < 8 ==> (#[trigger] pawns@[j] matches Some(p) ==> p.small()),
            decreases 8 - i,
        {
            let p = pawn_poses[2 * i + parity];
            let e = if p.is_nonnull() {
                Some(p.to_hex_pos().sub_hex(&origin))
            } else {
                None
            };
            pawns[i] = e;
            i += 1;
        }
        PawnList8 { pawns }
    }

    /// The black pawns (at even indices) of `pawn_poses`, relative to
    /// `origin`, null positions having no position.
    pub fn extract_black_pawns(pawn_poses: &[PackedIdx; 16], origin: HexPos) -> (r: Self)
        requires
            origin.x < 16,
            origin.y < 16,
        ensures
            r.entries().len() == 8,
            forall|i: int|
                0 <= i < 8 ==> #[trigger] r.entries()[i] == relative_pos(pawn_poses@[2 * i], origin),
            r.small(),
    {
        let r = Self::extract(pawn_poses, origin, 0);
        assert forall|i: int| 0 <= i < 8 implies #[trigger] r.entries()[i] == relative_pos(
            pawn_poses@[2 * i],
            origin,
        ) by {
            assert(r.entries()[i] == relative_pos(pawn_poses@[2 * i + 0], origin));
        }
        r
    }

    /// The white pawns (at odd indices) of `pawn_poses`, relative to
    /// `origin`, null positions having no position.
    pub fn extract_white_pawns(pawn_poses: &[PackedIdx; 16], origin: HexPos) -> (r: Self)
        requires
            origin.x < 16,
            origin.y < 16,
        ensures
            r.entries().len() == 8,
            forall|i: int|
                0 <= i < 8 ==> #[trigger] r.entries()[i] == relative_pos(
                    pawn_poses@[2 * i + 1],
                    origin,
                ),
            r.small(),
    {
        Self::extract(pawn_poses, origin, 1)
    }

    /// Every position transformed by the symmetry `op` of the class `cls`.
    fn apply_op(&self, op: ViewOp) -> (r: Self)
        requires
            self.small(),
            op.wf(),
        ensures
            r.entries().len() == 8,
            forall|i: int|
                0 <= i < 8 ==> #[trigger] r.entries()[i] == map_entry(
                    self.entries()[i],
                    |x: int, y: int| view_apply_spec(op, x, y),
                ),
    {
        let mut pawns = self.pawns;
        let mut i: usize = 0;
        while i < 8
            invariant
                self.small(),
                op.wf(),
                i <= 8,
                forall|j: int|
                    0 <= j < i ==> #[trigger] pawns@[j] == map_entry(
                        self.entries()[j],
                        |x: int, y: int| view_apply_spec(op, x, y),
                    ),
                forall|j: int| i <= j < 8 ==> #[trigger] pawns@[j] == self.entries()[j],
            decreases 8 - i,
        {
            let e = match pawns[i] {
                Some(p) => Some(op.apply(&p)),
                None => None,
            };
            pawns[i] = e;
            i += 1;
        }
        PawnList8 { pawns }
    }

    /// Every position rotated or reflected by the element with ordinal
    /// `op_ord` of D6, about the center of the origin tile.
    pub fn apply_d6_c(&self, op_ord: usize) -> (r: Self)
        requires
            self.small(),
            op_ord < 12,
        ensures
            r.entries().len() == 8,
            forall|i: int|
                0 <= i < 8 ==> #[trigger] r.entries()[i] == map_entry(
                    self.entries()[i],
                    |x: int, y: int| d6_apply(D6::spec_from_ord(op_ord as nat), x, y),
                ),
    {
        let r = self.apply_op(ViewOp::C(D6::from_ord(op_ord)));
        assert forall|i: int| 0 <= i < 8 implies #[trigger] r.entries()[i] == map_entry(
            self.entries()[i],
            |x: int, y: int| d6_apply(D6::spec_from_ord(op_ord as nat), x, y),
        ) by {
            assert((|x: int, y: int| view_apply_spec(ViewOp::C(D6::spec_from_ord(op_ord as nat)), x, y))
                =~= (|x: int, y: int| d6_apply(D6::spec_from_ord(op_ord as nat), x, y)));
        }
        r
    }

    /// Every position transformed by the element with ordinal `op_ord` of
    /// the group of the symmetry class `symm_class`, about its center.
    pub fn apply(&self, symm_class: SymmetryClass, op_ord: usize) -> (r: Self)
        requires
            self.small(),
            op_ord < class_group_size(symm_class),
        ensures
            r.entries().len() == 8,
            forall|i: int|
                0 <= i < 8 ==> #[trigger] r.entries()[i] == map_entry(
                    self.entries()[i],
                    |x: int, y: int| view_apply_spec(view_op_of(symm_class, op_ord as nat), x, y),
                ),
    {
        self.apply_op(ViewOp::of(symm_class, op_ord))
    }

    /// Whether every position of this list is also one of `other`.
    pub fn equal_ignoring_order(&self, other: Self) -> (r: bool)
        ensures
            r == forall|i: int|
                0 <= i < 8 ==> (#[trigger] self.entries()[i] matches Some(p) ==> other.entries().contains(
                    Some(p),
                )),
    {
        let mut i: usize = 0;
        while i < 8
            invariant
                i <= 8,
                forall|k: int|
                    0 <= k < i ==> (#[trigger] self.entries()[k] matches Some(p)
                        ==> other.entries().contains(Some(p))),
            decreases 8 - i,
        {
            if let Some(p) = self.pawns[i] {
                let mut found = false;
                let mut j: usize = 0;
                while j < 8
                    invariant
                        j <= 8,
                        found == exists|k: int| 0 <= k < j && #[trigger] other.entries()[k] == Some(p),
                    decreases 8 - j,
                {
                    if let Some(q) = other.pawns[j] {
                        if q == p {
                            found = true;
                        }
                    }
                    j += 1;
                }
                if !found {
                    assert(!other.entries().contains(Some(p)));
                    return false;
                }
            }
            i += 1;
        }
        true
    }

    /// The index `x + y * N` of the tile of each pawn, taken about `origin`,
    /// or 0 for a pawn with no position.
    pub fn pawn_indices<const N: usize>(&self, origin: HexPos) -> (r: Vec<usize>)
        requires
            N <= 16,
            origin.x < 16,
            origin.y < 16,
            forall|i: int|
                0 <= i < 8 ==> (#[trigger] self.entries()[i] matches Some(p) ==> 0 <= origin.x + p.x
                    < N && 0 <= origin.y + p.y < N),
        ensures
            r.len() == 8,
            forall|i: int|
                0 <= i < 8 ==> #[trigger] r[i] == match self.entries()[i] {
                    Some(p) => (origin.x + p.x) + (origin.y + p.y) * N,
                    None => 0,
                },
    {
        let mut r: Vec<usize> = Vec::new();
        let mut i: usize = 0;
        while i < 8
            invariant
                N <= 16,
                origin.x < 16,
                origin.y < 16,
                forall|k: int|
                    0 <= k < 8 ==> (#[trigger] self.entries()[k] matches Some(p) ==> 0 <= origin.x
                        + p.x < N && 0 <= origin.y + p.y < N),
                i <= 8,
                r.len() == i,
                forall|k: int|
                    0 <= k < i ==> #[trigger] r[k] == match self.entries()[k] {
                        Some(p) => (origin.x + p.x) + (origin.y + p.y) * N,
                        None => 0,
                    },
            decreases 8 - i,
        {
            let idx = match self.pawns[i] {
                Some(p) => {
                    assert(self.entries()[i as int] == Some(p));
                    let x = (origin.x as i32 + p.x) as usize;
                    let y = (origin.y as i32 + p.y) as usize;
                    assert(y * N <= 15 * 16) by (nonlinear_arith)
                        requires
                            y < N,
                            N <= 16,
                    ;
                    x + y * N
                },
                None => 0,
            };
            r.push(idx);
            i += 1;
        }
        r
    }
}

/// Every pawn of a list is among the pawns of the list itself: a list is
/// equal to itself, ignoring order.
pub proof fn lemma_equal_ignoring_order_refl(l: PawnList8)
    ensures
        forall|i: int|
            0 <= i < 8 ==> (#[trigger] l.entries()[i] matches Some(p) ==> l.entries().contains(Some(p))),
{
    assert forall|i: int|
        0 <= i < 8 implies (#[trigger] l.entries()[i] matches Some(p) ==> l.entries().contains(
        Some(p),
    )) by {
        if l.entries()[i] is Some {
            assert(l.entries()[i] == Some(l.entries()[i]->0));
        }
    }
}

/// Moving a pawn position by a symmetry of D6 and then by its inverse gives
/// it back.
proof fn lemma_map_entry_undo(e: Option<HexPosOffset>, g: D6)
    requires
        g.wf(),
        e matches Some(p) ==> p.small(),
    ensures
        map_entry(
            map_entry(e, |x: int, y: int| d6_apply(g, x, y)),
            |x: int, y: int| d6_apply(g.spec_inverse(), x, y),
        ) == e,
{
    if let Some(p) = e {
        let q = d6_apply(g, p.x as int, p.y as int);
        assert(-0x40000 < q.0 < 0x40000 && -0x40000 < q.1 < 0x40000);
        let qo = HexPosOffset::from_pair(q);
        assert(qo.x as int == q.0 && qo.y as int == q.1);
        lemma_d6_inverse(g, p.x as int, p.y as int);
    }
}

/// Applying a symmetry of D6 to a list of pawns and then its inverse, as
/// `apply_d6_c` does, gives back the list.
pub proof fn lemma_apply_d6_c_undo(l: PawnList8, r1: PawnList8, r2: PawnList8, g: D6)
    requires
        g.wf(),
        l.small(),
        forall|i: int|
            0 <= i < 8 ==> #[trigger] r1.entries()[i] == map_entry(
                l.entries()[i],
                |x: int, y: int| d6_apply(g, x, y),
            ),
        forall|i: int|
            0 <= i < 8 ==> #[trigger] r2.entries()[i] == map_entry(
                r1.entries()[i],
                |x: int, y: int| d6_apply(g.spec_inverse(), x, y),
            ),
    ensures
        r2.entries() == l.entries(),
{
    assert forall|i: int| 0 <= i < 8 implies #[trigger] r2.entries()[i] == l.entries()[i] by {
        lemma_map_entry_undo(l.entries()[i], g);
    }
    assert(r2.entries() =~= l.entries());
}

} // verus!
