use vstd::prelude::*;

use crate::canonicalize::{board_symm_state, origin_spec, symm_state_spec, BoardSymmetryState};
use crate::hex_pos::{c2_apply, d3_apply, d6_apply, k4_apply};
use crate::groups::{
    class_group_size,
    group_size,
    lemma_c2_group,
    lemma_d3_group,
    lemma_d3_ord,
    lemma_d6_group,
    lemma_d6_ord,
    lemma_k4_group,
    lemma_k4_ord,
    SymmetryClass,
    Trivial,
    C2,
    D3,
    D6,
    K4,
};
use crate::hash::{
    c2_class,
    cur_parity,
    d3_table_law,
    d6_table_law,
    k4_table_law,
    c2_table_law,
    lemma_board_hash_c2,
    lemma_board_hash_d3,
    lemma_board_hash_d6,
    lemma_board_hash_k4,
    lemma_board_hash_perm,
    is_permutation,
    normalized_pos,
    table_in_bounds,
    c2_table,
    c_table,
    e_table,
    lemma_c2_table_unique,
    lemma_c_table_unique,
    lemma_e_table_unique,
    lemma_trivial_table_unique,
    lemma_v_table_unique,
    onoro_hash_spec,
    trivial_table,
    v_table,
    HashTable,
};
use crate::onoro_impl::OnoroImpl;
use crate::onoro_view::{image_board, onoro_symm_state, pawn_tile, pawns_image, view_op_of, ViewOp};
use crate::tile_hash::{
    c2_hash_apply,
    d3_hash_apply,
    d3_valid,
    d6_hash_apply,
    d6_valid,
    k4_hash_apply,
    lemma_c2_hash_action,
    lemma_d3_apply_segs,
    lemma_d3_hash_action,
    lemma_d6_apply_segs,
    lemma_d6_hash_action,
    lemma_k4_hash_action,
    HashGroup,
};

verus! {

/// The hash `h` after the element with ordinal `ord` of the symmetry group of
/// the class `cls`.
pub open spec fn class_hash_apply(cls: SymmetryClass, ord: nat, h: u64) -> u64 {
    match cls {
        SymmetryClass::C => d6_hash_apply(D6::spec_from_ord(ord), h),
        SymmetryClass::V => d3_hash_apply(D3::spec_from_ord(ord), h),
        SymmetryClass::E => k4_hash_apply(K4::spec_from_ord(ord), h),
        SymmetryClass::Trivial => h,
        _ => c2_hash_apply(C2(ord as u8), h),
    }
}

/// The smallest of the images of `h` under the first `k` elements of the
/// symmetry group of `cls`, with the ordinal of the first element giving it.
pub open spec fn canon_spec(cls: SymmetryClass, h: u64, k: nat) -> (u64, nat)
    decreases k,
{
    if k <= 1 {
        (class_hash_apply(cls, 0, h), 0)
    } else {
        let prev = canon_spec(cls, h, (k - 1) as nat);
        let v = class_hash_apply(cls, (k - 1) as nat, h);
        if v < prev.0 {
            (v, (k - 1) as nat)
        } else {
            prev
        }
    }
}

/// The canonical hash and orientation of a board of class `cls` whose hash
/// is `h`: the smallest image of `h` under the class's group, and the
/// ordinal of the first element giving it.
pub open spec fn canonical_spec(cls: SymmetryClass, h: u64) -> (u64, nat) {
    canon_spec(cls, h, class_group_size(cls))
}

/// The generator state from which the tables of the class `cls` (CV, CE or
/// EV) are drawn.
pub open spec fn c2_seeds(cls: SymmetryClass) -> (u64, u64) {
    match cls {
        SymmetryClass::CV => (0xcbbb_9d5d_c105_9ed8, 0x629a_292a_367c_d507),
        SymmetryClass::CE => (0x9159_015a_3070_dd17, 0x152f_ecd8_f70e_5939),
        _ => (0x6733_2667_ffc0_0b31, 0x8eb4_4a87_6858_1511),
    }
}

/// The hash of `onoro`, with symmetry state `symm_state`, on the hash tables
/// of its class: the class's tables drawn from fixed generator states, one
/// for the player to move and one for the other.
pub open spec fn class_hash_spec<const N: usize>(
    onoro: OnoroImpl<N>,
    symm_state: BoardSymmetryState,
) -> u64 {
    match symm_state.symm_class {
        SymmetryClass::C => onoro_hash_spec(
            c_table(0x2545_f491_4f6c_dd1d, 0x9e37_79b9_7f4a_7c15),
            c_table(0xd1b5_4a32_d192_ed03, 0x8cb9_2ba7_2f3d_8dd7),
            16,
            onoro,
            symm_state,
        ),
        SymmetryClass::V => onoro_hash_spec(
            v_table(0x6a09_e667_f3bc_c908, 0xbb67_ae85_84ca_a73b),
            v_table(0x3c6e_f372_fe94_f82b, 0xa54f_f53a_5f1d_36f1),
            16,
            onoro,
            symm_state,
        ),
        SymmetryClass::E => onoro_hash_spec(
            e_table(0x510e_527f_ade6_82d1, 0x9b05_688c_2b3e_6c1f),
            e_table(0x1f83_d9ab_fb41_bd6b, 0x5be0_cd19_137e_2179),
            16,
            onoro,
            symm_state,
        ),
        SymmetryClass::Trivial => onoro_hash_spec(
            trivial_table(0x243f_6a88_85a3_08d3, 0x1319_8a2e_0370_7344),
            trivial_table(0xa409_3822_299f_31d0, 0x082e_fa98_ec4e_6c89),
            16,
            onoro,
            symm_state,
        ),
        _ => onoro_hash_spec(
            c2_table(symm_state.symm_class, c2_seeds(symm_state.symm_class).0, c2_seeds(symm_state.symm_class).1),
            c2_table(symm_state.symm_class, c2_seeds(symm_state.symm_class).0, c2_seeds(symm_state.symm_class).1),
            16,
            onoro,
            symm_state,
        ),
    }
}

/// `(hash, ord)` is the canonical view of `onoro`, with symmetry state
/// `symm_state`: the smallest image of its hash on the tables of its class
/// under the class's group, and the ordinal of the first element giving it.
pub open spec fn is_canonical_orientation<const N: usize>(
    onoro: OnoroImpl<N>,
    symm_state: BoardSymmetryState,
    hash: u64,
    ord: nat,
) -> bool {
    (hash, ord) == canonical_spec(symm_state.symm_class, class_hash_spec(onoro, symm_state))
}

/// The image of `h` under the element with ordinal `ord` of the group of
/// `cls`.
fn class_apply(cls: SymmetryClass, ord: usize, h: u64) -> (r: u64)
    requires
        ord < class_group_size(cls),
    ensures
        r == class_hash_apply(cls, ord as nat, h),
{
    match cls {
        SymmetryClass::C => HashGroup::<D6>::new(h).apply(&D6::from_ord(ord)).hash(),
        SymmetryClass::V => HashGroup::<D3>::new(h).apply(&D3::from_ord(ord)).hash(),
        SymmetryClass::E => HashGroup::<K4>::new(h).apply(&K4::from_ord(ord)).hash(),
        SymmetryClass::Trivial => h,
        _ => HashGroup::<C2>::new(h).apply(&C2::from_ord(ord)).hash(),
    }
}

/// Tries all symmetries of the group of `cls` on the hash `h`, choosing the
/// one with the numerically smallest result (the first, of several).
fn min_orientation(cls: SymmetryClass, h: u64) -> (r: (u64, u8))
    ensures
        (r.0, r.1 as nat) == canonical_spec(cls, h),
        r.1 < class_group_size(cls),
{
    let size = group_size(cls);
    let mut best = class_apply(cls, 0, h);
    let mut best_ord: usize = 0;
    let mut ord: usize = 1;
    while ord < size
        invariant
            size == class_group_size(cls),
            1 <= ord <= size,
            size <= 12,
            (best, best_ord as nat) == canon_spec(cls, h, ord as nat),
            best_ord < ord,
        decreases size - ord,
    {
        let v = class_apply(cls, ord, h);
        if v < best {
            best = v;
            best_ord = ord;
        }
        ord += 1;
    }
    (best, best_ord as u8)
}

/// The canonical orientation of a game state with its symmetry state, on
/// the hash tables of its symmetry class.
fn find_canonical_orientation<const N: usize>(
    onoro: &OnoroImpl<N>,
    symm_state: &BoardSymmetryState,
) -> (r: (u64, u8))
    requires
        onoro.wf(),
        symm_state.op.wf(),
        symm_state.symm_class == SymmetryClass::CV || symm_state.symm_class == SymmetryClass::CE
            || symm_state.symm_class == SymmetryClass::EV || symm_state.symm_class
            == SymmetryClass::C || symm_state.symm_class == SymmetryClass::V
            || symm_state.symm_class == SymmetryClass::E || symm_state.symm_class
            == SymmetryClass::Trivial,
    ensures
        is_canonical_orientation(*onoro, *symm_state, r.0, r.1 as nat),
        r.1 < class_group_size(symm_state.symm_class),
        library_tables_symmetric(symm_state.symm_class),
{
    let cls = symm_state.symm_class;
    match cls {
        SymmetryClass::C => {
            let table = HashTable::<16, D6>::new_c();
            let r = min_orientation(cls, table.hash(onoro, symm_state));
            proof {
                lemma_c_table_unique(table.cur(), 0x2545_f491_4f6c_dd1d, 0x9e37_79b9_7f4a_7c15);
                lemma_c_table_unique(table.other(), 0xd1b5_4a32_d192_ed03, 0x8cb9_2ba7_2f3d_8dd7);
            }
            r
        },
        SymmetryClass::V => {
            let table = HashTable::<16, D3>::new_v();
            let r = min_orientation(cls, table.hash(onoro, symm_state));
            proof {
                lemma_v_table_unique(table.cur(), 0x6a09_e667_f3bc_c908, 0xbb67_ae85_84ca_a73b);
                lemma_v_table_unique(table.other(), 0x3c6e_f372_fe94_f82b, 0xa54f_f53a_5f1d_36f1);
            }
            r
        },
        SymmetryClass::E => {
            let table = HashTable::<16, K4>::new_e();
            let r = min_orientation(cls, table.hash(onoro, symm_state));
            proof {
                lemma_e_table_unique(table.cur(), 0x510e_527f_ade6_82d1, 0x9b05_688c_2b3e_6c1f);
                lemma_e_table_unique(table.other(), 0x1f83_d9ab_fb41_bd6b, 0x5be0_cd19_137e_2179);
            }
            r
        },
        SymmetryClass::CV => {
            let table = HashTable::<16, C2>::new_cv();
            let r = min_orientation(cls, table.hash(onoro, symm_state));
            proof {
                lemma_c2_table_unique(cls, table.cur(), 0xcbbb_9d5d_c105_9ed8, 0x629a_292a_367c_d507);
                lemma_c2_table_unique(cls, table.other(), 0xcbbb_9d5d_c105_9ed8, 0x629a_292a_367c_d507);
            }
            r
        },
        SymmetryClass::CE => {
            let table = HashTable::<16, C2>::new_ce();
            let r = min_orientation(cls, table.hash(onoro, symm_state));
            proof {
                lemma_c2_table_unique(cls, table.cur(), 0x9159_015a_3070_dd17, 0x152f_ecd8_f70e_5939);
                lemma_c2_table_unique(cls, table.other(), 0x9159_015a_3070_dd17, 0x152f_ecd8_f70e_5939);
            }
            r
        },
        SymmetryClass::EV => {
            let table = HashTable::<16, C2>::new_ev();
            let r = min_orientation(cls, table.hash(onoro, symm_state));
            proof {
                lemma_c2_table_unique(cls, table.cur(), 0x6733_2667_ffc0_0b31, 0x8eb4_4a87_6858_1511);
                lemma_c2_table_unique(cls, table.other(), 0x6733_2667_ffc0_0b31, 0x8eb4_4a87_6858_1511);
            }
            r
        },
        SymmetryClass::Trivial => {
            let table = HashTable::<16, Trivial>::new_trivial();
            let r = min_orientation(cls, table.hash(onoro, symm_state));
            proof {
                lemma_trivial_table_unique(table.cur(), 0x243f_6a88_85a3_08d3, 0x1319_8a2e_0370_7344);
                lemma_trivial_table_unique(table.other(), 0xa409_3822_299f_31d0, 0x082e_fa98_ec4e_6c89);
            }
            r
        },
    }
}

/// The canonical view of a game state: its symmetry class, and the
/// orientation in which its hash is smallest, with that hash.
#[derive(Clone, Copy, Debug)]
pub struct CanonicalView {
    symm_class: SymmetryClass,
    op_ord: u8,
    hash: u64,
}

impl CanonicalView {
    /// The symmetry class of the view.
    pub closed spec fn class_spec(self) -> SymmetryClass {
        self.symm_class
    }

    /// The ordinal of the canonicalizing operation of the view.
    pub closed spec fn op_ord_spec(self) -> u8 {
        self.op_ord
    }

    /// The canonical hash of the view.
    pub closed spec fn hash_spec(self) -> u64 {
        self.hash
    }

    /// The symmetry class of the board.
    pub fn symm_class(&self) -> (r: SymmetryClass)
        ensures
            r == self.class_spec(),
    {
        self.symm_class
    }

    /// The ordinal, in the group of the symmetry class, of the operation
    /// giving the canonical orientation.
    pub fn op_ord(&self) -> (r: u8)
        ensures
            r == self.op_ord_spec(),
    {
        self.op_ord
    }

    /// The canonical hash.
    pub fn hash(&self) -> (r: u64)
        ensures
            r == self.hash_spec(),
    {
        self.hash
    }

    /// Finds the canonical view of `onoro`: of all symmetries of the board
    /// state with invariant center of mass, the one with the numerically
    /// smallest hash.
    pub fn find_canonical_view<const N: usize>(onoro: &OnoroImpl<N>) -> (r: Self)
        requires
            onoro.wf(),
        ensures
            r.class_spec() == symm_state_spec(
                onoro.com().x as int,
                onoro.com().y as int,
                onoro.n_spec(),
            ).symm_class,
            is_canonical_orientation(
                *onoro,
                symm_state_spec(onoro.com().x as int, onoro.com().y as int, onoro.n_spec()),
                r.hash_spec(),
                r.op_ord_spec() as nat,
            ),
            r.op_ord_spec() < class_group_size(r.class_spec()),
            library_tables_symmetric(r.class_spec()),
    {
        let symm_state = board_symm_state(onoro);
        let (hash, op_ord) = find_canonical_orientation(onoro, &symm_state);
        CanonicalView { symm_class: symm_state.symm_class, op_ord, hash }
    }
}

// ---------------------------------------------------------------------------
// The canonical hash does not depend on the orientation of the board.
// ---------------------------------------------------------------------------

/// The canonical hash is the smallest image of `h` under the first `k`
/// elements of the group, and is given by the element it names.
pub proof fn lemma_canon_min(cls: SymmetryClass, h: u64, k: nat)
    requires
        k >= 1,
    ensures
        canon_spec(cls, h, k).1 < k,
        canon_spec(cls, h, k).0 == class_hash_apply(cls, canon_spec(cls, h, k).1, h),
        forall|i: nat| i < k ==> canon_spec(cls, h, k).0 <= #[trigger] class_hash_apply(cls, i, h),
    decreases k,
{
    if k > 1 {
        lemma_canon_min(cls, h, (k - 1) as nat);
    }
}

/// The canonical hash of `h` is at most that of any image of it.
proof fn lemma_canonical_c_le(h: u64, g: D6)
    requires
        d6_valid(h),
        g.wf(),
    ensures
        canonical_spec(SymmetryClass::C, h).0 <= canonical_spec(
            SymmetryClass::C,
            d6_hash_apply(g, h),
        ).0,
{
    let cls = SymmetryClass::C;
    let hg = d6_hash_apply(g, h);
    lemma_canon_min(cls, h, 12);
    lemma_canon_min(cls, hg, 12);
    // The minimum for hg is an image of h.
    let a1 = D6::spec_from_ord(canon_spec(cls, hg, 12).1);
    let a = a1.spec_mul(g);
    lemma_d6_group(a1, g, g);
    lemma_d6_hash_action(a1, g, h);
    lemma_d6_ord(a);
    assert(class_hash_apply(cls, a.spec_ord(), h) == d6_hash_apply(a, h));
    assert(canon_spec(cls, h, 12).0 <= class_hash_apply(cls, a.spec_ord(), h));
}

/// The canonical hash of a class C board is the same in every orientation:
/// rotating or reflecting the hash by `g` does not change it.
pub proof fn lemma_canonical_c_invariant(h: u64, g: D6)
    requires
        d6_valid(h),
        g.wf(),
    ensures
        canonical_spec(SymmetryClass::C, d6_hash_apply(g, h)).0 == canonical_spec(
            SymmetryClass::C,
            h,
        ).0,
{
    let hg = d6_hash_apply(g, h);
    let gi = g.spec_inverse();
    lemma_d6_apply_segs(g, h);
    lemma_d6_group(gi, g, g);
    lemma_d6_hash_action(gi, g, h);
    lemma_d6_hash_action(D6::Rot(0), g, h);
    lemma_canonical_c_le(h, g);
    lemma_canonical_c_le(hg, gi);
}

/// The canonical hash of a class V board is the same in every orientation.
pub proof fn lemma_canonical_v_invariant(h: u64, g: D3)
    requires
        d3_valid(h),
        g.wf(),
    ensures
        canonical_spec(SymmetryClass::V, d3_hash_apply(g, h)).0 == canonical_spec(
            SymmetryClass::V,
            h,
        ).0,
{
    let cls = SymmetryClass::V;
    let hg = d3_hash_apply(g, h);
    lemma_d3_apply_segs(g, h);
    lemma_canon_min(cls, h, 6);
    lemma_canon_min(cls, hg, 6);
    let a1 = D3::spec_from_ord(canon_spec(cls, hg, 6).1);
    lemma_d3_group(a1, g, g);
    lemma_d3_hash_action(a1, g, h);
    lemma_d3_ord(a1.spec_mul(g));
    assert(class_hash_apply(cls, a1.spec_mul(g).spec_ord(), h) == canon_spec(cls, hg, 6).0);
    let b = D3::spec_from_ord(canon_spec(cls, h, 6).1);
    let gi = g.spec_inverse();
    lemma_d3_group(b, gi, g);
    lemma_d3_group(gi, gi, gi);
    lemma_d3_hash_action(b.spec_mul(gi), g, h);
    lemma_d3_ord(b.spec_mul(gi));
    assert(class_hash_apply(cls, b.spec_mul(gi).spec_ord(), hg) == canon_spec(cls, h, 6).0);
}

/// The canonical hash of a class E board is the same in every orientation.
pub proof fn lemma_canonical_e_invariant(h: u64, g: K4)
    requires
        g.wf(),
    ensures
        canonical_spec(SymmetryClass::E, k4_hash_apply(g, h)).0 == canonical_spec(
            SymmetryClass::E,
            h,
        ).0,
{
    let cls = SymmetryClass::E;
    let hg = k4_hash_apply(g, h);
    lemma_canon_min(cls, h, 4);
    lemma_canon_min(cls, hg, 4);
    let a1 = K4::spec_from_ord(canon_spec(cls, hg, 4).1);
    lemma_k4_group(a1, g, g);
    lemma_k4_hash_action(a1, g, h);
    lemma_k4_ord(a1.spec_mul(g));
    assert(class_hash_apply(cls, a1.spec_mul(g).spec_ord(), h) == canon_spec(cls, hg, 4).0);
    let b = K4::spec_from_ord(canon_spec(cls, h, 4).1);
    lemma_k4_group(b, g, g);
    lemma_k4_group(b.spec_mul(g), g, g);
    lemma_k4_hash_action(b.spec_mul(g), g, h);
    lemma_k4_ord(b.spec_mul(g));
    assert(class_hash_apply(cls, b.spec_mul(g).spec_ord(), hg) == canon_spec(cls, h, 4).0);
}

/// The canonical hash of a board of class `cls` (CV, CE or EV) is the same
/// in both orientations.
pub proof fn lemma_canonical_c2_invariant(cls: SymmetryClass, h: u64, g: C2)
    requires
        c2_class(cls),
        g.wf(),
    ensures
        canonical_spec(cls, c2_hash_apply(g, h)).0 == canonical_spec(cls, h).0,
{
    let hg = c2_hash_apply(g, h);
    lemma_c2_hash_action(g, g, h);
    lemma_c2_group(g, g, g);
    lemma_canon_min(cls, h, 2);
    lemma_canon_min(cls, hg, 2);
    lemma_c2_hash_action(C2(1), g, h);
    lemma_c2_hash_action(C2(0), g, h);
    lemma_c2_hash_action(C2(1), g, hg);
    lemma_c2_hash_action(C2(0), g, hg);
    lemma_c2_group(C2(1), g, g);
    lemma_c2_group(C2(0), g, g);
    assert(class_hash_apply(cls, 0, h) == c2_hash_apply(C2(0), h));
    assert(class_hash_apply(cls, 1, h) == c2_hash_apply(C2(1), h));
    assert(class_hash_apply(cls, 0, hg) == c2_hash_apply(C2(0), hg));
    assert(class_hash_apply(cls, 1, hg) == c2_hash_apply(C2(1), hg));
}

// ---------------------------------------------------------------------------
// Boards that are images of each other have the same canonical hash.
// ---------------------------------------------------------------------------

/// Boards of class C that are images of each other under a symmetry `g`
/// hash, on symmetric tables, to images of each other under `g`, and so
/// have the same canonical hash.
pub proof fn lemma_symmetric_boards_c<const N: usize>(
    b1: OnoroImpl<N>,
    b2: OnoroImpl<N>,
    g: D6,
    cur: Seq<HashGroup<D6>>,
    other: Seq<HashGroup<D6>>,
)
    requires
        g.wf(),
        onoro_symm_state(b1).symm_class == SymmetryClass::C,
        onoro_symm_state(b2).symm_class == SymmetryClass::C,
        image_board(b1, b2, ViewOp::C(g)),
        cur.len() == 256,
        other.len() == 256,
        d6_table_law(cur, 16, 256),
        d6_table_law(other, 16, 256),
    ensures
        onoro_hash_spec(cur, other, 16, b2, onoro_symm_state(b2)) == d6_hash_apply(
            g,
            onoro_hash_spec(cur, other, 16, b1, onoro_symm_state(b1)),
        ),
        canonical_spec(
            SymmetryClass::C,
            onoro_hash_spec(cur, other, 16, b2, onoro_symm_state(b2)),
        ).0 == canonical_spec(
            SymmetryClass::C,
            onoro_hash_spec(cur, other, 16, b1, onoro_symm_state(b1)),
        ).0,
{
    let ss1 = onoro_symm_state(b1);
    let ss2 = onoro_symm_state(b2);
    let o1 = origin_spec(b1.com().x as int, b1.com().y as int, b1.n_spec(), ss1);
    let o2 = origin_spec(b2.com().x as int, b2.com().y as int, b2.n_spec(), ss2);
    let n = b1.n_spec() as int;
    let (p, q) = choose|p: spec_fn(int) -> int, q: spec_fn(int) -> int|
        is_permutation(p, q, n) && pawns_image(b1, b2, ViewOp::C(g), p);
    let poses2 = Seq::new(n as nat, |k: int| b2.poses()[p(k)]);
    lemma_board_hash_perm(cur, other, poses2, b2.poses(), n, o2, o2, ss2.op, ss2.op, cur_parity(b1), p, q);
    assert forall|j: int| 0 <= j < n implies table_in_bounds(
        16,
        #[trigger] normalized_pos(b1.poses()[j], o1, ss1.op),
    ) && table_in_bounds(16, normalized_pos(poses2[j], o2, ss2.op)) && normalized_pos(
        poses2[j],
        o2,
        ss2.op,
    ) == d6_apply(
        g,
        normalized_pos(b1.poses()[j], o1, ss1.op).0,
        normalized_pos(b1.poses()[j], o1, ss1.op).1,
    ) by {
        assert(p(j) % 2 == j % 2);
        assert(pawn_tile(b1, j) == normalized_pos(b1.poses()[j], o1, ss1.op));
        assert(pawn_tile(b2, p(j)) == normalized_pos(b2.poses()[p(j)], o2, ss2.op));
    }
    lemma_board_hash_d6(
        cur,
        other,
        b1.poses(),
        poses2,
        n,
        o1,
        o2,
        ss1.op,
        ss2.op,
        cur_parity(b1),
        g,
    );
    lemma_canonical_c_invariant(onoro_hash_spec(cur, other, 16, b1, ss1), g);
}

/// Boards of class V that are images of each other under a symmetry `g`
/// hash, on symmetric tables, to images of each other under `g`, and so
/// have the same canonical hash.
pub proof fn lemma_symmetric_boards_v<const N: usize>(
    b1: OnoroImpl<N>,
    b2: OnoroImpl<N>,
    g: D3,
    cur: Seq<HashGroup<D3>>,
    other: Seq<HashGroup<D3>>,
)
    requires
        g.wf(),
        onoro_symm_state(b1).symm_class == SymmetryClass::V,
        onoro_symm_state(b2).symm_class == SymmetryClass::V,
        image_board(b1, b2, ViewOp::V(g)),
        cur.len() == 256,
        other.len() == 256,
        d3_table_law(cur, 16, 256),
        d3_table_law(other, 16, 256),
    ensures
        onoro_hash_spec(cur, other, 16, b2, onoro_symm_state(b2)) == d3_hash_apply(
            g,
            onoro_hash_spec(cur, other, 16, b1, onoro_symm_state(b1)),
        ),
        canonical_spec(
            SymmetryClass::V,
            onoro_hash_spec(cur, other, 16, b2, onoro_symm_state(b2)),
        ).0 == canonical_spec(
            SymmetryClass::V,
            onoro_hash_spec(cur, other, 16, b1, onoro_symm_state(b1)),
        ).0,
{
    let ss1 = onoro_symm_state(b1);
    let ss2 = onoro_symm_state(b2);
    let o1 = origin_spec(b1.com().x as int, b1.com().y as int, b1.n_spec(), ss1);
    let o2 = origin_spec(b2.com().x as int, b2.com().y as int, b2.n_spec(), ss2);
    let n = b1.n_spec() as int;
    let (p, q) = choose|p: spec_fn(int) -> int, q: spec_fn(int) -> int|
        is_permutation(p, q, n) && pawns_image(b1, b2, ViewOp::V(g), p);
    let poses2 = Seq::new(n as nat, |k: int| b2.poses()[p(k)]);
    lemma_board_hash_perm(cur, other, poses2, b2.poses(), n, o2, o2, ss2.op, ss2.op, cur_parity(b1), p, q);
    assert forall|j: int| 0 <= j < n implies table_in_bounds(
        16,
        #[trigger] normalized_pos(b1.poses()[j], o1, ss1.op),
    ) && table_in_bounds(16, normalized_pos(poses2[j], o2, ss2.op)) && normalized_pos(
        poses2[j],
        o2,
        ss2.op,
    ) == d3_apply(
        g,
        normalized_pos(b1.poses()[j], o1, ss1.op).0,
        normalized_pos(b1.poses()[j], o1, ss1.op).1,
    ) by {
        assert(p(j) % 2 == j % 2);
        assert(pawn_tile(b1, j) == normalized_pos(b1.poses()[j], o1, ss1.op));
        assert(pawn_tile(b2, p(j)) == normalized_pos(b2.poses()[p(j)], o2, ss2.op));
    }
    lemma_board_hash_d3(
        cur,
        other,
        b1.poses(),
        poses2,
        n,
        o1,
        o2,
        ss1.op,
        ss2.op,
        cur_parity(b1),
        g,
    );
    lemma_canonical_v_invariant(onoro_hash_spec(cur, other, 16, b1, ss1), g);
}

/// Boards of class E that are images of each other under a symmetry `g`
/// hash, on symmetric tables, to images of each other under `g`, and so
/// have the same canonical hash.
pub proof fn lemma_symmetric_boards_e<const N: usize>(
    b1: OnoroImpl<N>,
    b2: OnoroImpl<N>,
    g: K4,
    cur: Seq<HashGroup<K4>>,
    other: Seq<HashGroup<K4>>,
)
    requires
        g.wf(),
        onoro_symm_state(b1).symm_class == SymmetryClass::E,
        onoro_symm_state(b2).symm_class == SymmetryClass::E,
        image_board(b1, b2, ViewOp::E(g)),
        cur.len() == 256,
        other.len() == 256,
        k4_table_law(cur, 16, 256),
        k4_table_law(other, 16, 256),
    ensures
        onoro_hash_spec(cur, other, 16, b2, onoro_symm_state(b2)) == k4_hash_apply(
            g,
            onoro_hash_spec(cur, other, 16, b1, onoro_symm_state(b1)),
        ),
        canonical_spec(
            SymmetryClass::E,
            onoro_hash_spec(cur, other, 16, b2, onoro_symm_state(b2)),
        ).0 == canonical_spec(
            SymmetryClass::E,
            onoro_hash_spec(cur, other, 16, b1, onoro_symm_state(b1)),
        ).0,
{
    let ss1 = onoro_symm_state(b1);
    let ss2 = onoro_symm_state(b2);
    let o1 = origin_spec(b1.com().x as int, b1.com().y as int, b1.n_spec(), ss1);
    let o2 = origin_spec(b2.com().x as int, b2.com().y as int, b2.n_spec(), ss2);
    let n = b1.n_spec() as int;
    let (p, q) = choose|p: spec_fn(int) -> int, q: spec_fn(int) -> int|
        is_permutation(p, q, n) && pawns_image(b1, b2, ViewOp::E(g), p);
    let poses2 = Seq::new(n as nat, |k: int| b2.poses()[p(k)]);
    lemma_board_hash_perm(cur, other, poses2, b2.poses(), n, o2, o2, ss2.op, ss2.op, cur_parity(b1), p, q);
    assert forall|j: int| 0 <= j < n implies table_in_bounds(
        16,
        #[trigger] normalized_pos(b1.poses()[j], o1, ss1.op),
    ) && table_in_bounds(16, normalized_pos(poses2[j], o2, ss2.op)) && normalized_pos(
        poses2[j],
        o2,
        ss2.op,
    ) == k4_apply(
        g,
        normalized_pos(b1.poses()[j], o1, ss1.op).0,
        normalized_pos(b1.poses()[j], o1, ss1.op).1,
    ) by {
        assert(p(j) % 2 == j % 2);
        assert(pawn_tile(b1, j) == normalized_pos(b1.poses()[j], o1, ss1.op));
        assert(pawn_tile(b2, p(j)) == normalized_pos(b2.poses()[p(j)], o2, ss2.op));
    }
    lemma_board_hash_k4(
        cur,
        other,
        b1.poses(),
        poses2,
        n,
        o1,
        o2,
        ss1.op,
        ss2.op,
        cur_parity(b1),
        g,
    );
    lemma_canonical_e_invariant(onoro_hash_spec(cur, other, 16, b1, ss1), g);
}

/// Boards of class `cls` (CV, CE or EV) that are images of each other under
/// the symmetry `g` hash, on symmetric tables, to images of each other under
/// `g`, and so have the same canonical hash.
pub proof fn lemma_symmetric_boards_c2<const N: usize>(
    cls: SymmetryClass,
    b1: OnoroImpl<N>,
    b2: OnoroImpl<N>,
    g: C2,
    cur: Seq<HashGroup<C2>>,
    other: Seq<HashGroup<C2>>,
)
    requires
        c2_class(cls),
        g.wf(),
        onoro_symm_state(b1).symm_class == cls,
        onoro_symm_state(b2).symm_class == cls,
        image_board(b1, b2, view_op_of(cls, g.0 as nat)),
        cur.len() == 256,
        other.len() == 256,
        c2_table_law(cls, cur, 16, 256),
        c2_table_law(cls, other, 16, 256),
    ensures
        onoro_hash_spec(cur, other, 16, b2, onoro_symm_state(b2)) == c2_hash_apply(
            g,
            onoro_hash_spec(cur, other, 16, b1, onoro_symm_state(b1)),
        ),
        canonical_spec(cls, onoro_hash_spec(cur, other, 16, b2, onoro_symm_state(b2))).0
            == canonical_spec(cls, onoro_hash_spec(cur, other, 16, b1, onoro_symm_state(b1))).0,
{
    let ss1 = onoro_symm_state(b1);
    let ss2 = onoro_symm_state(b2);
    let o1 = origin_spec(b1.com().x as int, b1.com().y as int, b1.n_spec(), ss1);
    let o2 = origin_spec(b2.com().x as int, b2.com().y as int, b2.n_spec(), ss2);
    assert(C2(g.0 as nat as u8) == g);
    let n = b1.n_spec() as int;
    let (p, q) = choose|p: spec_fn(int) -> int, q: spec_fn(int) -> int|
        is_permutation(p, q, n) && pawns_image(b1, b2, view_op_of(cls, g.0 as nat), p);
    let poses2 = Seq::new(n as nat, |k: int| b2.poses()[p(k)]);
    lemma_board_hash_perm(cur, other, poses2, b2.poses(), n, o2, o2, ss2.op, ss2.op, cur_parity(b1), p, q);
    assert forall|j: int| 0 <= j < n implies table_in_bounds(
        16,
        #[trigger] normalized_pos(b1.poses()[j], o1, ss1.op),
    ) && table_in_bounds(16, normalized_pos(poses2[j], o2, ss2.op)) && normalized_pos(
        poses2[j],
        o2,
        ss2.op,
    ) == c2_apply(
        cls, g,
        normalized_pos(b1.poses()[j], o1, ss1.op).0,
        normalized_pos(b1.poses()[j], o1, ss1.op).1,
    ) by {
        assert(p(j) % 2 == j % 2);
        assert(pawn_tile(b1, j) == normalized_pos(b1.poses()[j], o1, ss1.op));
        assert(pawn_tile(b2, p(j)) == normalized_pos(b2.poses()[p(j)], o2, ss2.op));
    }
    lemma_board_hash_c2(
        cls,
        cur,
        other,
        b1.poses(),
        poses2,
        n,
        o1,
        o2,
        ss1.op,
        ss2.op,
        cur_parity(b1),
        g,
    );
    lemma_canonical_c2_invariant(cls, onoro_hash_spec(cur, other, 16, b1, ss1), g);
}

/// The hash tables that the library draws for the class `cls` are
/// symmetric.
pub open spec fn library_tables_symmetric(cls: SymmetryClass) -> bool {
    match cls {
        SymmetryClass::C => {
            let cur = c_table(0x2545_f491_4f6c_dd1d, 0x9e37_79b9_7f4a_7c15);
            let other = c_table(0xd1b5_4a32_d192_ed03, 0x8cb9_2ba7_2f3d_8dd7);
            &&& cur.len() == 256
            &&& other.len() == 256
            &&& d6_table_law(cur, 16, 256)
            &&& d6_table_law(other, 16, 256)
        },
        SymmetryClass::V => {
            let cur = v_table(0x6a09_e667_f3bc_c908, 0xbb67_ae85_84ca_a73b);
            let other = v_table(0x3c6e_f372_fe94_f82b, 0xa54f_f53a_5f1d_36f1);
            &&& cur.len() == 256
            &&& other.len() == 256
            &&& d3_table_law(cur, 16, 256)
            &&& d3_table_law(other, 16, 256)
        },
        SymmetryClass::E => {
            let cur = e_table(0x510e_527f_ade6_82d1, 0x9b05_688c_2b3e_6c1f);
            let other = e_table(0x1f83_d9ab_fb41_bd6b, 0x5be0_cd19_137e_2179);
            &&& cur.len() == 256
            &&& other.len() == 256
            &&& k4_table_law(cur, 16, 256)
            &&& k4_table_law(other, 16, 256)
        },
        SymmetryClass::Trivial => true,
        _ => {
            let t = c2_table(cls, c2_seeds(cls).0, c2_seeds(cls).1);
            &&& t.len() == 256
            &&& c2_table_law(cls, t, 16, 256)
        },
    }
}

/// Boards of one class that are images of each other under a symmetry of
/// the class's group have the same canonical hash on the library's tables.
pub proof fn lemma_symmetric_views<const N: usize>(
    cls: SymmetryClass,
    b1: OnoroImpl<N>,
    b2: OnoroImpl<N>,
    ord: nat,
    h1: u64,
    ord1: nat,
    h2: u64,
    ord2: nat,
)
    requires
        onoro_symm_state(b1).symm_class == cls,
        onoro_symm_state(b2).symm_class == cls,
        ord < class_group_size(cls),
        image_board(b1, b2, view_op_of(cls, ord)),
        library_tables_symmetric(cls),
        is_canonical_orientation(b1, onoro_symm_state(b1), h1, ord1),
        is_canonical_orientation(b2, onoro_symm_state(b2), h2, ord2),
    ensures
        h1 == h2,
{
    let ss1 = onoro_symm_state(b1);
    let ss2 = onoro_symm_state(b2);
    match cls {
        SymmetryClass::C => {
            lemma_symmetric_boards_c(
                b1,
                b2,
                D6::spec_from_ord(ord),
                c_table(0x2545_f491_4f6c_dd1d, 0x9e37_79b9_7f4a_7c15),
                c_table(0xd1b5_4a32_d192_ed03, 0x8cb9_2ba7_2f3d_8dd7),
            );
        },
        SymmetryClass::V => {
            lemma_symmetric_boards_v(
                b1,
                b2,
                D3::spec_from_ord(ord),
                v_table(0x6a09_e667_f3bc_c908, 0xbb67_ae85_84ca_a73b),
                v_table(0x3c6e_f372_fe94_f82b, 0xa54f_f53a_5f1d_36f1),
            );
        },
        SymmetryClass::E => {
            lemma_symmetric_boards_e(
                b1,
                b2,
                K4::spec_from_ord(ord),
                e_table(0x510e_527f_ade6_82d1, 0x9b05_688c_2b3e_6c1f),
                e_table(0x1f83_d9ab_fb41_bd6b, 0x5be0_cd19_137e_2179),
            );
        },
        SymmetryClass::Trivial => {
            let t1 = trivial_table(0x243f_6a88_85a3_08d3, 0x1319_8a2e_0370_7344);
            let t2 = trivial_table(0xa409_3822_299f_31d0, 0x082e_fa98_ec4e_6c89);
            let o1 = origin_spec(b1.com().x as int, b1.com().y as int, b1.n_spec(), ss1);
            let o2 = origin_spec(b2.com().x as int, b2.com().y as int, b2.n_spec(), ss2);
            let n = b1.n_spec() as int;
            let (p, q) = choose|p: spec_fn(int) -> int, q: spec_fn(int) -> int|
                is_permutation(p, q, n) && pawns_image(b1, b2, ViewOp::Trivial, p);
            assert forall|k: int| 0 <= k < n implies #[trigger] p(k) % 2 == k % 2 && normalized_pos(
                b2.poses()[p(k)],
                o2,
                ss2.op,
            ) == normalized_pos(b1.poses()[k], o1, ss1.op) by {
                assert(pawn_tile(b1, k) == normalized_pos(b1.poses()[k], o1, ss1.op));
                assert(pawn_tile(b2, p(k)) == normalized_pos(b2.poses()[p(k)], o2, ss2.op));
            }
            lemma_board_hash_perm(
                t1,
                t2,
                b1.poses(),
                b2.poses(),
                n,
                o1,
                o2,
                ss1.op,
                ss2.op,
                cur_parity(b1),
                p,
                q,
            );
        },
        _ => {
            let t = c2_table(cls, c2_seeds(cls).0, c2_seeds(cls).1);
            lemma_symmetric_boards_c2(cls, b1, b2, C2(ord as u8), t, t);
        },
    }
}

} // verus!
