use vstd::prelude::*;

use core::marker::PhantomData;

use crate::canonicalize::{origin_spec, BoardSymmetryState};
use crate::onoro_impl::OnoroImpl;
use crate::packed_idx::PackedIdx;
use crate::const_rand::{xoroshiro_nth, xoroshiro_state, Xoroshiro128};
use crate::groups::{
    lemma_c2_group,
    SymmetryClass,
    Trivial,
    lemma_d3_group,
    lemma_d6_group,
    lemma_k4_group,
    lemma_k4_ord,
    lemma_k4_third,
    C2,
    D3,
    D6,
    K4,
};
use crate::hex_pos::{
    HexPos,
    d3_apply,
    d6_apply,
    lemma_d3_action,
    lemma_d3_inverse,
    lemma_d6_action,
    lemma_d6_inverse,
    c2_apply,
    lemma_c2_action,
    k4_apply,
    lemma_k4_action,
    lemma_k4_inverse,
    HexPosOffset,
};
use crate::tile_hash::{
    c2_hash_apply,
    c2_valid,
    c2_make_a,
    lemma_c2_hash_action,
    lemma_c2_hash_xor,
    lemma_c2_make_invariant,
    k4_hash_apply,
    k4_hash_make_invariant,
    k4_invariable,
    k4_valid,
    lemma_k4_apply_segs,
    lemma_k4_hash_action,
    lemma_k4_hash_xor,
    lemma_k4_make_invariant,
    E_MASK,
    d3_hash_apply,
    d3_hash_make_invariant,
    d3_invariable,
    d3_permuted,
    d3_segs,
    d3_valid,
    lemma_d3_apply_segs,
    lemma_d3_ext,
    lemma_d3_hash_action,
    lemma_d3_hash_xor,
    lemma_d3_make_invariant,
    V_MASK,
    d6_hash_apply,
    d6_hash_make_invariant,
    d6_invariable,
    d6_permuted,
    d6_segs,
    d6_valid,
    lemma_d6_apply_segs,
    lemma_d6_ext,
    lemma_d6_hash_action,
    lemma_d6_hash_xor,
    lemma_d6_make_invariant,
    lemma_d6_make_segs,
    HashGroup,
    C_MASK,
};

verus! {

// ---------------------------------------------------------------------------
// Table geometry: tile `i` of an `n x n` table is at `(i % n, i / n)`, which
// is the offset `table_off(n, i)` from the table's center `(n / 2, n / 2)`.
// ---------------------------------------------------------------------------

/// The position of tile `i` relative to the center of the table.
pub open spec fn table_off(n: int, i: int) -> (int, int) {
    (i % n - n / 2, i / n - n / 2)
}

/// The position `q`, relative to the center, lies on the table.
pub open spec fn table_in_bounds(n: int, q: (int, int)) -> bool {
    0 <= q.0 + n / 2 < n && 0 <= q.1 + n / 2 < n
}

/// The index of the tile at position `q` relative to the center.
pub open spec fn table_index(n: int, q: (int, int)) -> int {
    (q.0 + n / 2) + (q.1 + n / 2) * n
}

/// Every tile is on the table, at the index it was taken from.
pub proof fn lemma_table_coords(n: int, i: int)
    requires
        1 <= n <= 16,
        0 <= i < n * n,
    ensures
        table_in_bounds(n, table_off(n, i)),
        table_index(n, table_off(n, i)) == i,
        -8 <= table_off(n, i).0 <= 8,
        -8 <= table_off(n, i).1 <= 8,
{
    vstd::arithmetic::div_mod::lemma_fundamental_div_mod(i, n);
    vstd::arithmetic::div_mod::lemma_mod_pos_bound(i, n);
    assert(0 <= i / n < n) by (nonlinear_arith)
        requires
            0 <= i < n * n,
            i == n * (i / n) + i % n,
            0 <= i % n < n,
            1 <= n,
    {
        if i / n >= n {
            assert(n * (i / n) >= n * n);
        }
        if i / n < 0 {
            assert(n * (i / n) <= -n);
        }
    }
    assert((i / n) * n == n * (i / n)) by (nonlinear_arith);
}

/// Each position on the table is the position of the tile at its index.
pub proof fn lemma_table_index(n: int, q: (int, int))
    requires
        1 <= n <= 16,
        table_in_bounds(n, q),
    ensures
        0 <= table_index(n, q) < n * n,
        table_off(n, table_index(n, q)) == q,
{
    let a = q.0 + n / 2;
    let b = q.1 + n / 2;
    assert(b * n == n * b) by (nonlinear_arith);
    vstd::arithmetic::div_mod::lemma_fundamental_div_mod_converse(a + b * n, n, b, a);
    assert(0 <= a + b * n < n * n) by (nonlinear_arith)
        requires
            0 <= a < n,
            0 <= b < n,
    {
        assert(b * n <= (n - 1) * n);
    }
}

// ---------------------------------------------------------------------------
// D6 tables: boards whose center of mass is the center of a tile.
// ---------------------------------------------------------------------------

/// The image under `g` of tile `j`, relative to the center.
pub open spec fn d6_image(n: int, g: D6, j: int) -> (int, int) {
    d6_apply(g, table_off(n, j).0, table_off(n, j).1)
}

/// The image under `g` of tile `i` is a tile on the table before `i`.
pub open spec fn d6_found(n: int, i: int, g: D6) -> bool {
    table_in_bounds(n, d6_image(n, g, i)) && table_index(n, d6_image(n, g, i)) < i
}

/// The first `k` hashes of the table `t` (of width `n`) are symmetric: for
/// every tile `j` and symmetry `g`, the hash of the image of `j` under `g`
/// is `g` applied to the hash of `j`, wherever that image is among the first
/// `k` tiles.
pub open spec fn d6_table_law(t: Seq<HashGroup<D6>>, n: int, k: int) -> bool {
    &&& forall|j: int| 0 <= j < k ==> d6_valid(#[trigger] t[j].view_hash())
    &&& forall|j: int, g: D6|
        #![trigger d6_image(n, g, j)]
        0 <= j < k && g.wf() && table_in_bounds(n, d6_image(n, g, j)) && table_index(
            n,
            d6_image(n, g, j),
        ) < k ==> t[table_index(n, d6_image(n, g, j))].view_hash() == d6_hash_apply(
            g,
            t[j].view_hash(),
        )
}

/// A nontrivial rotation only fixes the center of the origin tile.
proof fn lemma_d6_rot_fixed(k: u8, x: int, y: int)
    requires
        0 < k < 6,
        d6_apply(D6::Rot(k), x, y) == (x, y),
    ensures
        x == 0 && y == 0,
{
}

/// A class C hash whose six segments are equal is left unchanged by every
/// symmetry.
proof fn lemma_d6_uniform(h: u64, g: D6)
    requires
        d6_valid(h),
        g.wf(),
        forall|i: int| 0 <= i < 6 ==> #[trigger] d6_segs(h)[i] == d6_segs(h)[0],
    ensures
        d6_hash_apply(g, h) == h,
{
    lemma_d6_apply_segs(g, h);
    assert(d6_permuted(g, d6_segs(h)) =~= d6_segs(h));
    lemma_d6_ext(d6_hash_apply(g, h), h);
}

/// Case of `lemma_d6_extend_found` where `g` maps the new tile `i` to an
/// earlier tile `k`: `g = (g h^-1) h`.
#[verifier::spinoff_prover]
#[verifier::rlimit(50)]
proof fn lemma_d6_found_case_b(t: Seq<HashGroup<D6>>, n: int, h: D6, j: int, g: D6)
    requires
        1 <= n <= 16,
        t.len() < n * n,
        d6_table_law(t, n, t.len() as int),
        h.wf(),
        g.wf(),
        0 <= j < t.len(),
        table_off(n, j) == d6_image(n, h, t.len() as int),
        table_in_bounds(n, d6_image(n, g, t.len() as int)),
        table_index(n, d6_image(n, g, t.len() as int)) < t.len(),
    ensures
        t[table_index(n, d6_image(n, g, t.len() as int))].view_hash() == d6_hash_apply(
            g,
            d6_hash_apply(h.spec_inverse(), t[j].view_hash()),
        ),
{
    let i = t.len() as int;
    let p = table_off(n, i);
    let hi = h.spec_inverse();
    let q = d6_image(n, g, i);
    lemma_table_coords(n, j);
    lemma_d6_group(h, h, h);
    lemma_d6_inverse(h, p.0, p.1);
    let gh = g.spec_mul(hi);
    lemma_d6_group(g, hi, h);
    lemma_d6_action(g, hi, table_off(n, j).0, table_off(n, j).1);
    assert(d6_image(n, gh, j) == q);
    lemma_d6_hash_action(g, hi, t[j].view_hash());
}

/// Case of `lemma_d6_extend_found` where `g` fixes the new tile `i`: then
/// `h g h^-1` fixes tile `j`, so the hash of `j` is invariant under it.
#[verifier::spinoff_prover]
#[verifier::rlimit(50)]
proof fn lemma_d6_found_case_c(t: Seq<HashGroup<D6>>, n: int, h: D6, j: int, g: D6)
    requires
        1 <= n <= 16,
        t.len() < n * n,
        d6_table_law(t, n, t.len() as int),
        h.wf(),
        g.wf(),
        0 <= j < t.len(),
        table_off(n, j) == d6_image(n, h, t.len() as int),
        d6_image(n, g, t.len() as int) == table_off(n, t.len() as int),
    ensures
        d6_hash_apply(h.spec_inverse(), t[j].view_hash()) == d6_hash_apply(
            g,
            d6_hash_apply(h.spec_inverse(), t[j].view_hash()),
        ),
{
    let i = t.len() as int;
    let p = table_off(n, i);
    let hi = h.spec_inverse();
    lemma_table_coords(n, j);
    lemma_d6_group(h, h, h);
    let c = h.spec_mul(g).spec_mul(hi);
    lemma_d6_group(h, g, hi);
    lemma_d6_action(h.spec_mul(g), hi, table_off(n, j).0, table_off(n, j).1);
    lemma_d6_inverse(h, p.0, p.1);
    lemma_d6_action(h, g, p.0, p.1);
    assert(d6_image(n, c, j) == table_off(n, j));
    assert(t[j].view_hash() == d6_hash_apply(c, t[j].view_hash()));
    // g h^-1 = h^-1 c
    lemma_d6_group(hi, h.spec_mul(g), hi);
    lemma_d6_group(hi, h, g);
    lemma_d6_group(g, hi, hi);
    lemma_d6_group(h.spec_mul(g), hi, hi);
    assert(g.spec_mul(hi) == hi.spec_mul(c));
    lemma_d6_apply_segs(hi, t[j].view_hash());
    lemma_d6_hash_action(g, hi, t[j].view_hash());
    lemma_d6_hash_action(hi, c, t[j].view_hash());
}

/// Case of `lemma_d6_extend_found` where `g` maps an earlier tile `j2` to
/// the new tile `i`: then `h g` maps `j2` to tile `j`.
#[verifier::spinoff_prover]
#[verifier::rlimit(50)]
proof fn lemma_d6_found_case_a(t: Seq<HashGroup<D6>>, n: int, h: D6, j: int, g: D6, j2: int)
    requires
        1 <= n <= 16,
        t.len() < n * n,
        d6_table_law(t, n, t.len() as int),
        h.wf(),
        g.wf(),
        0 <= j < t.len(),
        0 <= j2 < t.len(),
        table_off(n, j) == d6_image(n, h, t.len() as int),
        d6_image(n, g, j2) == table_off(n, t.len() as int),
    ensures
        d6_hash_apply(h.spec_inverse(), t[j].view_hash()) == d6_hash_apply(
            g,
            t[j2].view_hash(),
        ),
{
    let hi = h.spec_inverse();
    lemma_table_coords(n, j);
    lemma_d6_group(h, h, h);
    let hg = h.spec_mul(g);
    lemma_d6_group(h, g, h);
    lemma_d6_action(h, g, table_off(n, j2).0, table_off(n, j2).1);
    assert(d6_image(n, hg, j2) == table_off(n, j));
    assert(t[j].view_hash() == d6_hash_apply(hg, t[j2].view_hash()));
    lemma_d6_group(hi, h, g);
    lemma_d6_hash_action(hi, hg, t[j2].view_hash());
}

/// Extending a symmetric table with the hash of tile `i` taken from an
/// earlier tile `j`, the image of `i` under `h`, keeps it symmetric.
#[verifier::spinoff_prover]
#[verifier::rlimit(50)]
proof fn lemma_d6_extend_found(t: Seq<HashGroup<D6>>, n: int, h: D6, j: int, e: HashGroup<D6>)
    requires
        1 <= n <= 16,
        t.len() < n * n,
        d6_table_law(t, n, t.len() as int),
        h.wf(),
        0 <= j < t.len(),
        table_off(n, j) == d6_image(n, h, t.len() as int),
        e.view_hash() == d6_hash_apply(h.spec_inverse(), t[j].view_hash()),
    ensures
        d6_table_law(t.push(e), n, t.len() + 1int),
{
    let i = t.len() as int;
    let t2 = t.push(e);
    lemma_table_coords(n, i);
    lemma_d6_group(h, h, h);
    lemma_d6_apply_segs(h.spec_inverse(), t[j].view_hash());
    assert forall|j2: int, g: D6|
        #![trigger d6_image(n, g, j2)]
        0 <= j2 < i + 1 && g.wf() && table_in_bounds(n, d6_image(n, g, j2)) && table_index(
            n,
            d6_image(n, g, j2),
        ) < i + 1 implies t2[table_index(n, d6_image(n, g, j2))].view_hash() == d6_hash_apply(
        g,
        t2[j2].view_hash(),
    ) by {
        let q = d6_image(n, g, j2);
        let k = table_index(n, q);
        lemma_table_index(n, q);
        if j2 < i && k < i {
        } else if j2 == i && k < i {
            lemma_d6_found_case_b(t, n, h, j, g);
        } else if j2 == i && k == i {
            lemma_d6_found_case_c(t, n, h, j, g);
        } else {
            lemma_d6_found_case_a(t, n, h, j, g, j2);
        }
    }
}

/// Extending a symmetric table with a new hash for tile `i`, when no
/// symmetry maps `i` to an earlier tile and the hash is invariant under
/// every symmetry fixing `i`, keeps it symmetric.
#[verifier::spinoff_prover]
#[verifier::rlimit(50)]
proof fn lemma_d6_extend_new(t: Seq<HashGroup<D6>>, n: int, e: HashGroup<D6>)
    requires
        1 <= n <= 16,
        t.len() < n * n,
        d6_table_law(t, n, t.len() as int),
        d6_valid(e.view_hash()),
        forall|g: D6| g.wf() ==> !#[trigger] d6_found(n, t.len() as int, g),
        forall|g: D6|
            g.wf() && #[trigger] d6_image(n, g, t.len() as int) == table_off(n, t.len() as int)
                ==> d6_hash_apply(g, e.view_hash()) == e.view_hash(),
    ensures
        d6_table_law(t.push(e), n, t.len() + 1int),
{
    let i = t.len() as int;
    let t2 = t.push(e);
    let p = table_off(n, i);
    lemma_table_coords(n, i);
    assert forall|j2: int, g: D6|
        #![trigger d6_image(n, g, j2)]
        0 <= j2 < i + 1 && g.wf() && table_in_bounds(n, d6_image(n, g, j2)) && table_index(
            n,
            d6_image(n, g, j2),
        ) < i + 1 implies t2[table_index(n, d6_image(n, g, j2))].view_hash() == d6_hash_apply(
        g,
        t2[j2].view_hash(),
    ) by {
        let q = d6_image(n, g, j2);
        let k = table_index(n, q);
        lemma_table_index(n, q);
        if j2 < i && k < i {
        } else if j2 == i && k < i {
            assert(d6_found(n, i, g));
        } else if j2 == i && k == i {
        } else {
            // The inverse of g maps p to the earlier tile j2.
            let gi = g.spec_inverse();
            lemma_table_coords(n, j2);
            lemma_d6_group(g, g, g);
            lemma_d6_inverse(g, table_off(n, j2).0, table_off(n, j2).1);
            assert(d6_image(n, gi, i) == table_off(n, j2));
            assert(d6_found(n, i, gi));
        }
    }
}

/// Zobrist hash tables for the tiles of an `N x N` board, one for the pawns
/// of the player to move and one for the other player's, in which the hashes
/// of tiles that are images of each other under the group `G` (acting about
/// the center of the table) are images of each other under `G`'s action on
/// hashes.
pub struct HashTable<const N: usize, G> {
    cur_table: Vec<HashGroup<G>>,
    other_table: Vec<HashGroup<G>>,
}

impl<const N: usize, G> HashTable<N, G> {
    /// The hashes of the tiles for the pawns of the player to move.
    pub closed spec fn cur(self) -> Seq<HashGroup<G>> {
        self.cur_table@
    }

    /// The hashes of the tiles for the pawns of the other player.
    pub closed spec fn other(self) -> Seq<HashGroup<G>> {
        self.other_table@
    }

    /// The hashes of the tiles for the pawns of the player to move.
    pub fn cur_table(&self) -> (r: &Vec<HashGroup<G>>)
        ensures
            r@ == self.cur(),
    {
        &self.cur_table
    }

    /// The hashes of the tiles for the pawns of the other player.
    pub fn other_table(&self) -> (r: &Vec<HashGroup<G>>)
        ensures
            r@ == self.other(),
    {
        &self.other_table
    }

    /// The center tile of the table, about which its symmetries act.
    pub fn center() -> (r: HexPos)
        requires
            N <= 16,
        ensures
            r.x == N / 2,
            r.y == N / 2,
    {
        HexPos::new((N / 2) as u32, (N / 2) as u32)
    }

    /// The index `x + y * N` of the tile at `pos`.
    pub fn hex_pos_ord(pos: &HexPos) -> (r: usize)
        requires
            N <= 16,
            pos.x < N,
            pos.y < N,
        ensures
            r == pos.x + pos.y * N,
    {
        proof {
            assert(pos.y * N <= 15 * 16) by (nonlinear_arith)
                requires
                    N <= 16,
                    pos.y < N,
            ;
        }
        pos.x as usize + (pos.y as usize) * N
    }

    /// The tile with index `ord`: the inverse of `hex_pos_ord`.
    pub fn ord_to_hex_pos(ord: usize) -> (r: HexPos)
        requires
            0 < N <= 16,
            ord < N * N,
        ensures
            r.x == ord % N,
            r.y == ord / N,
    {
        proof {
            vstd::arithmetic::div_mod::lemma_div_is_ordered(ord as int, N * N, N as int);
            vstd::arithmetic::div_mod::lemma_div_by_multiple(N as int, N as int);
        }
        HexPos::new((ord % N) as u32, (ord / N) as u32)
    }

    /// Whether `pos` is a tile of the table.
    pub fn in_bounds(pos: &HexPos) -> (r: bool)
        ensures
            r == (pos.x < N && pos.y < N),
    {
        (pos.x as usize) < N && (pos.y as usize) < N
    }

    /// The index of the tile at `s` (relative to the center) if it is on the
    /// table and before tile `i`.
    fn computed_index(s: &HexPosOffset, i: usize) -> (r: Option<usize>)
        requires
            1 <= N <= 16,
            -64 <= s.x <= 64,
            -64 <= s.y <= 64,
        ensures
            match r {
                Some(j) => table_in_bounds(N as int, s.pair()) && j == table_index(
                    N as int,
                    s.pair(),
                ) && j < i,
                None => !(table_in_bounds(N as int, s.pair()) && table_index(N as int, s.pair())
                    < i),
            },
    {
        let c = (N / 2) as i32;
        let x = s.x + c;
        let y = s.y + c;
        if 0 <= x && x < N as i32 && 0 <= y && y < N as i32 {
            assert((y as int) * (N as int) < 256) by (nonlinear_arith)
                requires
                    0 <= y < N,
                    N <= 16,
            ;
            let j = x as usize + (y as usize) * N;
            if j < i {
                Some(j)
            } else {
                None
            }
        } else {
            None
        }
    }

    /// The position of tile `i` relative to the center of the table.
    fn tile_offset(i: usize) -> (r: HexPosOffset)
        requires
            1 <= N <= 16,
            i < N * N,
        ensures
            r.pair() == table_off(N as int, i as int),
            -8 <= r.x <= 8,
            -8 <= r.y <= 8,
    {
        proof {
            lemma_table_coords(N as int, i as int);
        }
        HexPosOffset::new((i % N) as i32 - (N / 2) as i32, (i / N) as i32 - (N / 2) as i32)
    }
}

/// The hash of the pawn at `pos` in `table` (of width `n`): the hash of the
/// tile at its position relative to `origin` after `op`, or zero where that
/// tile is off the table.
pub open spec fn pawn_hash_spec<G>(
    table: Seq<HashGroup<G>>,
    n: int,
    pos: PackedIdx,
    origin: (int, int),
    op: D6,
) -> u64 {
    let q = d6_apply(op, pos.sx() - origin.0, pos.sy() - origin.1);
    let idx = table_index(n, q);
    if 0 <= q.0 + n / 2 && 0 <= q.1 + n / 2 && idx < n * n {
        table[idx].view_hash()
    } else {
        0
    }
}

/// The Zobrist hash of the first `k` pawns of `poses`: the xor of the hashes
/// of the pawns whose index has the parity `cur_par` of the player to move,
/// in `cur`, and of the other pawns, in `other`.
pub open spec fn board_hash_spec<G>(
    cur: Seq<HashGroup<G>>,
    other: Seq<HashGroup<G>>,
    n: int,
    poses: Seq<PackedIdx>,
    k: int,
    origin: (int, int),
    op: D6,
    cur_par: int,
) -> u64
    decreases k,
{
    if k <= 0 {
        0
    } else {
        let table = if (k - 1) % 2 == cur_par {
            cur
        } else {
            other
        };
        board_hash_spec(cur, other, n, poses, k - 1, origin, op, cur_par) ^ pawn_hash_spec(
            table,
            n,
            poses[k - 1],
            origin,
            op,
        )
    }
}

/// The parity of the indices of the pawns of the player to move.
pub open spec fn cur_parity<const M: usize>(onoro: OnoroImpl<M>) -> int {
    if onoro.st().black_turn_spec() {
        0
    } else {
        1
    }
}

/// The hash of `onoro` in the tables of `cur` and `other` (of width `n`),
/// with its pawns taken about its origin and normalized by the operation of
/// `symm_state`.
pub open spec fn onoro_hash_spec<G, const M: usize>(
    cur: Seq<HashGroup<G>>,
    other: Seq<HashGroup<G>>,
    n: int,
    onoro: OnoroImpl<M>,
    symm_state: BoardSymmetryState,
) -> u64 {
    board_hash_spec(
        cur,
        other,
        n,
        onoro.poses(),
        onoro.n_spec(),
        origin_spec(onoro.com().x as int, onoro.com().y as int, onoro.n_spec(), symm_state),
        symm_state.op,
        cur_parity(onoro),
    )
}

impl<const N: usize, G> HashTable<N, G> {
    /// Computes the hash of a game state on this hash table: the xor of the
    /// hashes of its pawns, each at its position relative to the origin of
    /// the board, normalized by the operation of `symm_state`, in the table
    /// of the player the pawn belongs to.
    pub fn hash<const ONORO_N: usize>(
        &self,
        onoro: &OnoroImpl<ONORO_N>,
        symm_state: &BoardSymmetryState,
    ) -> (r: u64)
        requires
            1 <= N <= 16,
            self.cur().len() == N * N,
            self.other().len() == N * N,
            onoro.wf(),
            symm_state.op.wf(),
        ensures
            r == onoro_hash_spec(self.cur(), self.other(), N as int, *onoro, *symm_state),
    {
        let ghost n = N as int;
        let origin = onoro.origin(symm_state);
        let ghost og = (origin.x as int, origin.y as int);
        let cur_black = onoro.player_color() == crate::onoro::PawnColor::Black;
        let pawns = onoro.pawns();
        let ghost cur_par: int = cur_parity(*onoro);
        let c = (N / 2) as i32;
        let mut hash: u64 = 0;
        let mut k: usize = 0;
        assert(N * N <= 256) by (nonlinear_arith)
            requires
                N <= 16,
        ;
        while k < pawns.len()
            invariant
                1 <= N <= 16,
                N * N <= 256,
                n == N,
                c == N / 2,
                onoro.wf(),
                symm_state.op.wf(),
                self.cur().len() == N * N,
                self.other().len() == N * N,
                og == origin_spec(
                    onoro.com().x as int,
                    onoro.com().y as int,
                    onoro.n_spec(),
                    *symm_state,
                ),
                origin.x < 16,
                origin.y < 16,
                og == (origin.x as int, origin.y as int),
                cur_black <==> cur_par == 0,
                cur_par == cur_parity(*onoro),
                pawns.len() == onoro.n_spec(),
                forall|i: int|
                    0 <= i < pawns.len() ==> (#[trigger] pawns[i]).pos == onoro.poses()[i]
                        && pawns[i].color == (if i % 2 == 0 {
                        crate::onoro::PawnColor::Black
                    } else {
                        crate::onoro::PawnColor::White
                    }),
                k <= pawns.len(),
                hash == board_hash_spec(
                    self.cur(),
                    self.other(),
                    n,
                    onoro.poses(),
                    k as int,
                    og,
                    symm_state.op,
                    cur_par,
                ),
            decreases pawns.len() - k,
        {
            let pawn = &pawns[k];
            // The position of the pawn relative to the rotation-invariant
            // origin of the board.
            let pos = pawn.pos.to_hex_offset();
            let rel = HexPosOffset::new(pos.x - origin.x as i32, pos.y - origin.y as i32);
            // The position of the pawn normalized to align board states on
            // all symmetry axes which the board isn't possibly symmetric
            // about itself.
            let normalized = rel.apply_d6_c(&symm_state.op);
            assert(-64 <= normalized.x <= 64 && -64 <= normalized.y <= 64);
            let tx = normalized.x + c;
            let ty = normalized.y + c;
            let is_cur = (pawn.color == crate::onoro::PawnColor::Black) == cur_black;
            let ghost q = d6_apply(symm_state.op, pawn.pos.sx() - og.0, pawn.pos.sy() - og.1);
            assert(rel.x == pawn.pos.sx() - og.0);
            assert(rel.y == pawn.pos.sy() - og.1);
            assert(normalized.pair() == d6_apply(symm_state.op, rel.x as int, rel.y as int));
            assert(normalized.pair() == q);
            let pawn_hash = if tx >= 0 && ty >= 0 {
                assert((ty as int) * (N as int) <= 72 * 16) by (nonlinear_arith)
                    requires
                        0 <= ty <= 72,
                        N <= 16,
                ;
                let idx = tx as usize + (ty as usize) * N;
                assert(idx == table_index(n, q));
                if idx < N * N {
                    if is_cur {
                        self.cur_table[idx].hash()
                    } else {
                        self.other_table[idx].hash()
                    }
                } else {
                    0
                }
            } else {
                0
            };
            proof {
                let ki = k as int;
                assert(((ki % 2 == cur_par) == is_cur));
                let table = if ki % 2 == cur_par {
                    self.cur()
                } else {
                    self.other()
                };
                assert(pawn_hash == pawn_hash_spec(table, n, onoro.poses()[ki], og, symm_state.op));
            }
            // Zobrist hashing accumulates all hashes with xor.
            hash = hash ^ pawn_hash;
            k += 1;
        }
        hash
    }
}

/// The reflections before `Rfl(r)` and `Rfl(r)` itself neither map tile `i`
/// to an earlier tile nor fix it.
proof fn lemma_d6_rfl_step(n: int, i: int, r: u8)
    requires
        r < 6,
        forall|k: u8|
            #![trigger d6_found(n, i, D6::Rfl(k))]
            k < r ==> !d6_found(n, i, D6::Rfl(k)) && d6_image(n, D6::Rfl(k), i) != table_off(n, i),
        !d6_found(n, i, D6::Rfl(r)),
        d6_image(n, D6::Rfl(r), i) != table_off(n, i),
    ensures
        forall|k: u8|
            #![trigger d6_found(n, i, D6::Rfl(k))]
            k < r + 1 ==> !d6_found(n, i, D6::Rfl(k)) && d6_image(n, D6::Rfl(k), i) != table_off(n, i),
{
}

/// No symmetry maps tile `i` to an earlier tile: its hash is not taken from
/// an earlier one.
pub open spec fn d6_new_tile(n: int, i: int) -> bool {
    forall|g: D6| g.wf() ==> !#[trigger] d6_found(n, i, g)
}

/// `h` is the hash that a new tile `i` gets from the random number `f`: at
/// the center, `f` made invariant under every symmetry; on a tile that the
/// reflection `Rfl(k)` fixes, `f` made invariant under it; elsewhere `f`
/// itself; `f` keeps only the bits of a class C hash.
pub open spec fn d6_fresh(n: int, i: int, f: u64, h: u64) -> bool {
    let p = table_off(n, i);
    let b = f & C_MASK;
    &&& p == (0int, 0int) ==> h == d6_hash_make_invariant(
        D6::Rfl(0),
        d6_hash_make_invariant(D6::Rot(1), b),
    )
    &&& p != (0int, 0int) ==> forall|k: u8|
        k < 6 && #[trigger] d6_image(n, D6::Rfl(k), i) == p ==> h == d6_hash_make_invariant(D6::Rfl(k), b)
    &&& (p != (0int, 0int) && forall|k: u8| k < 6 ==> #[trigger] d6_image(n, D6::Rfl(k), i) != p) ==> h == b
}

/// `t` is the class C table of width `n` drawn from the generator with state
/// `(s0, s1)`: it is symmetric, its first tile hashes to zero, and each new
/// tile `i` gets its hash from the `i`-th number drawn (counting from one).
pub open spec fn is_c_table(t: Seq<HashGroup<D6>>, n: int, s0: u64, s1: u64) -> bool {
    &&& t.len() == n * n
    &&& d6_table_law(t, n, n * n)
    &&& t[0].view_hash() == 0
    &&& forall|i: int|
        1 <= i < n * n && d6_new_tile(n, i) ==> d6_fresh(
            n,
            i,
            xoroshiro_nth(s0, s1, (i - 1) as nat),
            (#[trigger] t[i]).view_hash(),
        )
}

/// The class C table of width 16 drawn from the generator with state
/// `(s0, s1)`.
pub closed spec fn c_table(s0: u64, s1: u64) -> Seq<HashGroup<D6>> {
    choose|t: Seq<HashGroup<D6>>| is_c_table(t, 16, s0, s1)
}

/// A new tile gets one hash from a random number.
proof fn lemma_d6_fresh_unique(n: int, i: int, f: u64, a: u64, b: u64)
    requires
        d6_fresh(n, i, f, a),
        d6_fresh(n, i, f, b),
    ensures
        a == b,
{
    let p = table_off(n, i);
    if p != (0int, 0int) && exists|k: u8| k < 6 && #[trigger] d6_image(n, D6::Rfl(k), i) == p {
        let k = choose|k: u8| k < 6 && #[trigger] d6_image(n, D6::Rfl(k), i) == p;
    }
}

/// Two class C tables drawn from the same generator agree on their first
/// `k` tiles.
proof fn lemma_c_table_prefix(t1: Seq<HashGroup<D6>>, t2: Seq<HashGroup<D6>>, n: int, s0: u64, s1: u64, k: int)
    requires
        1 <= n <= 16,
        0 <= k <= n * n,
        is_c_table(t1, n, s0, s1),
        is_c_table(t2, n, s0, s1),
    ensures
        forall|i: int| 0 <= i < k ==> #[trigger] t1[i] == t2[i],
    decreases k,
{
    if k > 0 {
        lemma_c_table_prefix(t1, t2, n, s0, s1, k - 1);
        let i = k - 1;
        t1[i].lemma_view_hash_eq(t2[i]);
        if i == 0 {
        } else if d6_new_tile(n, i) {
            lemma_d6_fresh_unique(n, i, xoroshiro_nth(s0, s1, (i - 1) as nat), t1[i].view_hash(), t2[i].view_hash());
        } else {
            let g = choose|g: D6| g.wf() && #[trigger] d6_found(n, i, g);
            let m = table_index(n, d6_image(n, g, i));
            assert(t1[m] == t2[m]);
            let h1 = t1[i].view_hash();
            let h2 = t2[i].view_hash();
            assert(t1[m].view_hash() == d6_hash_apply(g, h1));
            assert(t2[m].view_hash() == d6_hash_apply(g, h2));
            let gi = g.spec_inverse();
            lemma_d6_group(g, g, g);
            lemma_d6_hash_action(gi, g, h1);
            lemma_d6_hash_action(gi, g, h2);
        }
    }
}

/// There is one class C table of width 16 for each generator state.
pub proof fn lemma_c_table_unique(t: Seq<HashGroup<D6>>, s0: u64, s1: u64)
    requires
        is_c_table(t, 16, s0, s1),
    ensures
        c_table(s0, s1) == t,
{
    let c = c_table(s0, s1);
    assert(is_c_table(c, 16, s0, s1));
    lemma_c_table_prefix(t, c, 16, s0, s1, 256);
    assert(t =~= c);
}

/// The position of a pawn at `pos` relative to `origin`, transformed by
/// `op`: the tile whose hash it takes.
pub open spec fn normalized_pos(pos: PackedIdx, origin: (int, int), op: D6) -> (int, int) {
    d6_apply(op, pos.sx() - origin.0, pos.sy() - origin.1)
}

proof fn lemma_xor_algebra(a: u64, b: u64, c: u64)
    by (bit_vector)
    ensures
        (a ^ b) ^ c == a ^ (b ^ c),
        a ^ b == b ^ a,
        a ^ a == 0,
        a ^ 0 == a,
        ((a ^ b) ^ c) ^ b == a ^ c,
{
}

/// The xor of `f(0)`, ..., `f(k - 1)`.
pub open spec fn xor_upto(f: spec_fn(int) -> u64, k: int) -> u64
    decreases k,
{
    if k <= 0 {
        0
    } else {
        xor_upto(f, k - 1) ^ f(k - 1)
    }
}

/// Changing one term of a xor changes the xor by the old and the new term.
proof fn lemma_xor_upto_replace(f: spec_fn(int) -> u64, g: spec_fn(int) -> u64, m: int, k: int)
    requires
        0 <= m < k,
        forall|i: int| 0 <= i < k && i != m ==> #[trigger] f(i) == g(i),
    ensures
        xor_upto(g, k) == xor_upto(f, k) ^ f(m) ^ g(m),
    decreases k,
{
    if k - 1 == m {
        assert forall|i: int| 0 <= i < m implies #[trigger] f(i) == g(i) by {}
        lemma_xor_upto_ext(f, g, m);
        lemma_xor_algebra(xor_upto(f, m), f(m), f(m));
        lemma_xor_algebra(xor_upto(f, m), 0, g(m));
        lemma_xor_algebra(f(m), f(m), g(m));
    } else {
        lemma_xor_upto_replace(f, g, m, k - 1);
        let a = xor_upto(f, k - 1);
        let x = f(m) ^ g(m);
        lemma_xor_algebra(a, f(m), g(m));
        lemma_xor_algebra(a, x, f(k - 1));
        lemma_xor_algebra(x, f(k - 1), 0);
        lemma_xor_algebra(a, f(k - 1), x);
        lemma_xor_algebra(a ^ f(k - 1), f(m), g(m));
    }
}

/// Two xors of the same terms are equal.
proof fn lemma_xor_upto_ext(f: spec_fn(int) -> u64, g: spec_fn(int) -> u64, k: int)
    requires
        forall|i: int| 0 <= i < k ==> #[trigger] f(i) == g(i),
    ensures
        xor_upto(g, k) == xor_upto(f, k),
    decreases k,
{
    if k > 0 {
        lemma_xor_upto_ext(f, g, k - 1);
    }
}

/// `p` permutes `0..n`, with inverse `q`.
pub open spec fn is_permutation(p: spec_fn(int) -> int, q: spec_fn(int) -> int, n: int) -> bool {
    &&& forall|i: int| 0 <= i < n ==> 0 <= #[trigger] p(i) < n && q(p(i)) == i
    &&& forall|j: int| 0 <= j < n ==> 0 <= #[trigger] q(j) < n && p(q(j)) == j
}

/// A xor does not depend on the order of its terms.
pub proof fn lemma_xor_upto_perm(
    f: spec_fn(int) -> u64,
    g: spec_fn(int) -> u64,
    p: spec_fn(int) -> int,
    q: spec_fn(int) -> int,
    n: int,
)
    requires
        n >= 0,
        is_permutation(p, q, n),
        forall|i: int| 0 <= i < n ==> #[trigger] g(i) == f(p(i)),
    ensures
        xor_upto(g, n) == xor_upto(f, n),
    decreases n,
{
    if n > 0 {
        let m = q(n - 1);
        let p2 = |i: int|
            if i == m {
                p(n - 1)
            } else {
                p(i)
            };
        let q2 = |j: int|
            if q(j) == n - 1 {
                m
            } else {
                q(j)
            };
        assert forall|i: int| 0 <= i < n - 1 implies 0 <= #[trigger] p2(i) < n - 1 && q2(p2(i)) == i by {
            if i == m {
                assert(p(n - 1) != n - 1);
            } else {
                assert(p(i) != n - 1);
            }
        }
        assert forall|j: int| 0 <= j < n - 1 implies 0 <= #[trigger] q2(j) < n - 1 && p2(q2(j)) == j by {
            if q(j) == n - 1 {
                assert(m != n - 1);
            }
        }
        let g2 = |i: int| f(p2(i));
        lemma_xor_upto_perm(f, g2, p2, q2, n - 1);
        // g2 is g with the term at m replaced by the last one.
        if m == n - 1 {
            assert forall|i: int| 0 <= i < n - 1 implies #[trigger] g(i) == g2(i) by {}
            lemma_xor_upto_ext(g, g2, n - 1);
            assert(g(n - 1) == f(n - 1));
        } else {
            assert forall|i: int| 0 <= i < n - 1 && i != m implies #[trigger] g(i) == g2(i) by {}
            lemma_xor_upto_replace(g, g2, m, n - 1);
            let a = xor_upto(g, n - 1);
            assert(g(m) == f(n - 1));
            assert(g2(m) == g(n - 1));
            assert(xor_upto(f, n - 1) == (a ^ g(m)) ^ g2(m));
            lemma_xor_algebra(a, g(m), g2(m));
            assert(xor_upto(f, n) == xor_upto(f, n - 1) ^ f(n - 1));
            assert(xor_upto(g, n) == a ^ g(n - 1));
        }
    }
}

/// The hash of the first `k` pawns is the xor of their hashes `f`.
proof fn lemma_board_hash_as_xor<G>(
    cur: Seq<HashGroup<G>>,
    other: Seq<HashGroup<G>>,
    poses: Seq<PackedIdx>,
    k: int,
    origin: (int, int),
    op: D6,
    cur_par: int,
    f: spec_fn(int) -> u64,
)
    requires
        forall|j: int|
            0 <= j < k ==> #[trigger] f(j) == pawn_hash_spec(
                if j % 2 == cur_par {
                    cur
                } else {
                    other
                },
                16,
                poses[j],
                origin,
                op,
            ),
    ensures
        board_hash_spec(cur, other, 16, poses, k, origin, op, cur_par) == xor_upto(f, k),
    decreases k,
{
    if k > 0 {
        lemma_board_hash_as_xor(cur, other, poses, k - 1, origin, op, cur_par, f);
        assert(f(k - 1) == pawn_hash_spec(
            if (k - 1) % 2 == cur_par {
                cur
            } else {
                other
            },
            16,
            poses[k - 1],
            origin,
            op,
        ));
    }
}

/// Two boards whose pawns take the same tiles, up to a reordering of the
/// pawns of each color, hash alike.
pub proof fn lemma_board_hash_perm<G>(
    cur: Seq<HashGroup<G>>,
    other: Seq<HashGroup<G>>,
    poses1: Seq<PackedIdx>,
    poses2: Seq<PackedIdx>,
    n: int,
    origin1: (int, int),
    origin2: (int, int),
    op1: D6,
    op2: D6,
    cur_par: int,
    p: spec_fn(int) -> int,
    q: spec_fn(int) -> int,
)
    requires
        n >= 0,
        is_permutation(p, q, n),
        forall|k: int|
            0 <= k < n ==> #[trigger] p(k) % 2 == k % 2 && normalized_pos(poses2[p(k)], origin2, op2)
                == normalized_pos(poses1[k], origin1, op1),
    ensures
        board_hash_spec(cur, other, 16, poses2, n, origin2, op2, cur_par) == board_hash_spec(
            cur,
            other,
            16,
            poses1,
            n,
            origin1,
            op1,
            cur_par,
        ),
{
    let f1 = |j: int|
        pawn_hash_spec(
            if j % 2 == cur_par {
                cur
            } else {
                other
            },
            16,
            poses1[j],
            origin1,
            op1,
        );
    let f2 = |j: int|
        pawn_hash_spec(
            if j % 2 == cur_par {
                cur
            } else {
                other
            },
            16,
            poses2[j],
            origin2,
            op2,
        );
    lemma_board_hash_as_xor(cur, other, poses1, n, origin1, op1, cur_par, f1);
    lemma_board_hash_as_xor(cur, other, poses2, n, origin2, op2, cur_par, f2);
    assert forall|k: int| 0 <= k < n implies #[trigger] f1(k) == f2(p(k)) by {
        assert(p(k) % 2 == k % 2);
    }
    lemma_xor_upto_perm(f2, f1, p, q, n);
}

/// On symmetric class C tables, two boards whose pawns lie at the images
/// under `g` of each other's tiles hash to the images under `g` of each
/// other's hashes: pawn `j` of the second board lies at the image of the
/// tile of pawn `j` of the first, both on the table.
pub proof fn lemma_board_hash_d6(
    cur: Seq<HashGroup<D6>>,
    other: Seq<HashGroup<D6>>,
    poses1: Seq<PackedIdx>,
    poses2: Seq<PackedIdx>,
    k: int,
    origin1: (int, int),
    origin2: (int, int),
    op1: D6,
    op2: D6,
    cur_par: int,
    g: D6,
)
    requires
        g.wf(),
        cur.len() == 256,
        other.len() == 256,
        d6_table_law(cur, 16, 256),
        d6_table_law(other, 16, 256),
        forall|j: int|
            0 <= j < k ==> table_in_bounds(16, #[trigger] normalized_pos(poses1[j], origin1, op1))
                && table_in_bounds(16, normalized_pos(poses2[j], origin2, op2)) && normalized_pos(
                poses2[j],
                origin2,
                op2,
            ) == d6_apply(
                g,
                normalized_pos(poses1[j], origin1, op1).0,
                normalized_pos(poses1[j], origin1, op1).1,
            ),
    ensures
        d6_valid(board_hash_spec(cur, other, 16, poses1, k, origin1, op1, cur_par)),
        board_hash_spec(cur, other, 16, poses2, k, origin2, op2, cur_par) == d6_hash_apply(
            g,
            board_hash_spec(cur, other, 16, poses1, k, origin1, op1, cur_par),
        ),
    decreases k,
{
    if k <= 0 {
        assert(0u64 & 0x3ff == 0 && (0u64 >> 10u64) & 0x3ff == 0 && (0u64 >> 20u64) & 0x3ff == 0
            && (0u64 >> 30u64) & 0x3ff == 0 && (0u64 >> 40u64) & 0x3ff == 0 && (0u64 >> 50u64)
            & 0x3ff == 0 && 0u64 >> 60u64 == 0) by (bit_vector);
        lemma_d6_uniform(0, g);
    } else {
        lemma_board_hash_d6(cur, other, poses1, poses2, k - 1, origin1, origin2, op1, op2, cur_par, g);
        let j = k - 1;
        let t = if j % 2 == cur_par {
            cur
        } else {
            other
        };
        let q1 = normalized_pos(poses1[j], origin1, op1);
        let q2 = normalized_pos(poses2[j], origin2, op2);
        lemma_table_index(16, q1);
        lemma_table_index(16, q2);
        let j1 = table_index(16, q1);
        assert(d6_image(16, g, j1) == q2);
        let h1 = t[j1].view_hash();
        assert(d6_valid(h1));
        assert(t[table_index(16, q2)].view_hash() == d6_hash_apply(g, h1));
        assert(pawn_hash_spec(t, 16, poses1[j], origin1, op1) == h1);
        assert(pawn_hash_spec(t, 16, poses2[j], origin2, op2) == d6_hash_apply(g, h1));
        let b1 = board_hash_spec(cur, other, 16, poses1, j, origin1, op1, cur_par);
        lemma_d6_hash_xor(g, b1, h1);
    }
}

impl<const N: usize> HashTable<N, D6> {
    /// The hash of tile `i`, given the hashes of the tiles before it and a
    /// freshly drawn random number.
    #[verifier::spinoff_prover]
    #[verifier::rlimit(100)]
    fn d6_entry(table: &Vec<HashGroup<D6>>, i: usize, fresh: u64) -> (r: HashGroup<D6>)
        requires
            1 <= N <= 16,
            table.len() == i,
            i < N * N,
            d6_table_law(table@, N as int, i as int),
        ensures
            d6_table_law(table@.push(r), N as int, i + 1),
            i == 0 ==> r.view_hash() == 0,
            i > 0 && d6_new_tile(N as int, i as int) ==> d6_fresh(N as int, i as int, fresh, r.view_hash()),
    {
        let ghost n = N as int;
        let pos = Self::tile_offset(i);
        if i == 0 {
            let r = HashGroup::<D6>::new(0);
            proof {
                assert(0u64 & 0x3ff == 0 && (0u64 >> 10u64) & 0x3ff == 0 && (0u64 >> 20u64)
                    & 0x3ff == 0 && (0u64 >> 30u64) & 0x3ff == 0 && (0u64 >> 40u64) & 0x3ff == 0
                    && (0u64 >> 50u64) & 0x3ff == 0 && 0u64 >> 60u64 == 0) by (bit_vector);
                assert forall|g: D6| g.wf() implies d6_hash_apply(g, 0) == 0 by {
                    lemma_d6_uniform(0, g);
                }
                lemma_d6_extend_new(table@, n, r);
            }
            return r;
        }
        let d6b = HashGroup::<D6>::new(fresh & C_MASK);
        assert(d6_valid(fresh & C_MASK)) by (bit_vector);
        if pos.x == 0 && pos.y == 0 {
            let r = d6b.make_invariant(&D6::Rot(1)).make_invariant(&D6::Rfl(0));
            proof {
                let h1 = d6_hash_make_invariant(D6::Rot(1), d6b.view_hash());
                lemma_d6_make_segs(D6::Rot(1), d6b.view_hash());
                lemma_d6_make_segs(D6::Rfl(0), h1);
                let h2 = r.view_hash();
                assert forall|k: int| 0 <= k < 6 implies #[trigger] d6_segs(h2)[k] == d6_segs(
                    h2,
                )[0] by {}
                assert forall|g: D6| g.wf() implies d6_hash_apply(g, h2) == h2 by {
                    lemma_d6_uniform(h2, g);
                }
                assert forall|g: D6| g.wf() implies !#[trigger] d6_found(n, i as int, g) by {
                    lemma_table_coords(n, i as int);
                    assert(d6_image(n, g, i as int) == table_off(n, i as int));
                }
                lemma_d6_extend_new(table@, n, r);
            }
            return r;
        }
        // Try the 5 nontrivial rotations.

        let mut r: u8 = 1;
        while r < 6
            invariant
                1 <= r <= 6,
                1 <= N <= 16,
                i > 0,
                table.len() == i,
                i < N * N,
                pos.pair() == table_off(n, i as int),
                -8 <= pos.x <= 8,
                -8 <= pos.y <= 8,
                n == N,
                d6_table_law(table@, n, i as int),
                forall|k: u8| 1 <= k < r ==> !#[trigger] d6_found(n, i as int, D6::Rot(k)),
            decreases 6 - r,
        {
            let s = pos.apply_d6_c(&D6::Rot(r));
            if let Some(j) = Self::computed_index(&s, i) {
                // Apply the inverse rotation to transform `s` back to `pos`.
                let e = table[j].apply(&D6::Rot(6 - r));
                proof {
                    lemma_table_index(n, s.pair());
                    lemma_d6_extend_found(table@, n, D6::Rot(r), j as int, e);
                    assert(d6_found(n, i as int, D6::Rot(r)));
                }
                return e;
            }
            r += 1;
        }
        // Try the 6 reflections.

        let mut r: u8 = 0;
        while r < 6
            invariant
                r <= 6,
                1 <= N <= 16,
                i > 0,
                table.len() == i,
                i < N * N,
                pos.pair() == table_off(n, i as int),
                -8 <= pos.x <= 8,
                -8 <= pos.y <= 8,
                !(pos.x == 0 && pos.y == 0),
                n == N,
                d6_table_law(table@, n, i as int),
                d6_valid(d6b.view_hash()),
                d6b.view_hash() == fresh & C_MASK,
                forall|k: u8| 1 <= k < 6 ==> !#[trigger] d6_found(n, i as int, D6::Rot(k)),
                forall|k: u8|
                    k < r ==> !#[trigger] d6_found(n, i as int, D6::Rfl(k)) && d6_image(
                        n,
                        D6::Rfl(k),
                        i as int,
                    ) != table_off(n, i as int),
            decreases 6 - r,
        {
            let op = D6::Rfl(r);
            let s = pos.apply_d6_c(&op);
            if s == pos {
                // This tile is symmetric to itself under the reflection.
                let e = d6b.make_invariant(&op);
                proof {
                    lemma_d6_make_invariant(op, d6b.view_hash());
                    self::lemma_d6_self_symmetric(table@, n, r, e);
                    let p = table_off(n, i as int);
                    assert(d6_image(n, op, i as int) == p);
                    assert forall|k: u8| k < 6 && #[trigger] d6_image(n, D6::Rfl(k), i as int) == p implies k == r by {
                        lemma_d6_rfl_as_rot(n, i as int, r, k);
                        if k != r {
                            lemma_d6_rot_fixed(((k + 6 - r) % 6) as u8, p.0, p.1);
                        }
                    }
                    assert(p != (0int, 0int));
                    assert(e.view_hash() == d6_hash_make_invariant(D6::Rfl(r), fresh & C_MASK));
                    assert(d6_fresh(n, i as int, fresh, e.view_hash()));
                }
                return e;
            }
            if let Some(j) = Self::computed_index(&s, i) {
                let e = table[j].apply(&op);
                proof {
                    lemma_table_index(n, s.pair());
                    lemma_d6_extend_found(table@, n, op, j as int, e);
                    assert(d6_found(n, i as int, op));
                }
                return e;
            }
            assert(d6_image(n, op, i as int) != table_off(n, i as int));
            assert(!d6_found(n, i as int, op));
            proof {
                lemma_d6_rfl_step(n, i as int, r);
            }
            r += 1;
        }
        // The tile is neither symmetric to itself nor to an earlier tile: use
        // the random hash.
        proof {
            assert(r == 6);
            assert forall|k: u8|
                k < 6 implies !#[trigger] d6_found(n, i as int, D6::Rfl(k)) && d6_image(
                n,
                D6::Rfl(k),
                i as int,
            ) != table_off(n, i as int) by {
                assert(k < r);
            }
            self::lemma_d6_unique(table@, n, d6b);
            let p = table_off(n, i as int);
            assert forall|k: u8| k < 6 implies #[trigger] d6_image(n, D6::Rfl(k), i as int) != p by {
                assert(!d6_found(n, i as int, D6::Rfl(k)));
            }
            assert(p != (0int, 0int));
            assert(d6_fresh(n, i as int, fresh, d6b.view_hash()));
        }
        d6b
    }

    /// A table of hashes for boards of symmetry class C, drawn from the
    /// generator seeded with `seed`: the first tile hashes to zero.
    fn make_c(seed: [u64; 2]) -> (r: Vec<HashGroup<D6>>)
        requires
            1 <= N <= 16,
        ensures
            is_c_table(r@, N as int, seed[0], seed[1]),
    {
        assert(1 <= N * N <= 256) by (nonlinear_arith)
            requires
                1 <= N <= 16,
        ;
        let mut table: Vec<HashGroup<D6>> = Vec::new();
        let mut rng = Xoroshiro128::from_seed(&seed);
        let mut i: usize = 0;
        while i < N * N
            invariant
                1 <= N <= 16,
                1 <= N * N <= 256,
                i <= N * N,
                table.len() == i,
                d6_table_law(table@, N as int, i as int),
                i > 0 ==> table@[0].view_hash() == 0,
                (rng.state[0], rng.state[1]) == xoroshiro_state(
                    seed[0],
                    seed[1],
                    if i == 0 {
                        0
                    } else {
                        (i - 1) as nat
                    },
                ),
                forall|j: int|
                    1 <= j < i && d6_new_tile(N as int, j) ==> d6_fresh(
                        N as int,
                        j,
                        xoroshiro_nth(seed[0], seed[1], (j - 1) as nat),
                        (#[trigger] table@[j]).view_hash(),
                    ),
            decreases N * N - i,
        {
            let fresh = if i == 0 {
                0
            } else {
                let (next, h) = rng.next_u64();
                rng = next;
                h
            };
            let e = Self::d6_entry(&table, i, fresh);
            table.push(e);
            i += 1;
        }
        table
    }

    /// Generates a hash table for boards with symmetry class C.
    pub fn new_c() -> (r: Self)
        requires
            1 <= N <= 16,
        ensures
            is_c_table(r.cur(), N as int, 0x2545_f491_4f6c_dd1d, 0x9e37_79b9_7f4a_7c15),
            is_c_table(r.other(), N as int, 0xd1b5_4a32_d192_ed03, 0x8cb9_2ba7_2f3d_8dd7),
    {
        HashTable {
            cur_table: Self::make_c([0x2545_f491_4f6c_dd1d, 0x9e37_79b9_7f4a_7c15]),
            other_table: Self::make_c([0xd1b5_4a32_d192_ed03, 0x8cb9_2ba7_2f3d_8dd7]),
        }
    }
}

/// `Rfl(k) = Rot(k - m) * Rfl(m)`: the image of a tile fixed by `Rfl(m)`
/// under `Rfl(k)` is its image under a rotation.
proof fn lemma_d6_rfl_as_rot(n: int, i: int, m: u8, k: u8)
    requires
        m < 6,
        k < 6,
        d6_image(n, D6::Rfl(m), i) == table_off(n, i),
    ensures
        d6_image(n, D6::Rfl(k), i) == d6_image(n, D6::Rot(((k + 6 - m) % 6) as u8), i),
        ((k + 6 - m) % 6) as u8 == 0 <==> k == m,
        ((k + 6 - m) % 6) < 6,
{
    let p = table_off(n, i);
    let rk = D6::Rot(((k + 6 - m) % 6) as u8);
    lemma_d6_group(rk, D6::Rfl(m), rk);
    lemma_d6_action(rk, D6::Rfl(m), p.0, p.1);
    assert(rk.spec_mul(D6::Rfl(m)) == D6::Rfl(k));
}

/// The reflection `Rfl(m)` fixes tile `i`, which is not the center and which
/// no nontrivial rotation maps to an earlier tile: a hash for it invariant
/// under `Rfl(m)` keeps the table symmetric.
#[verifier::spinoff_prover]
#[verifier::rlimit(50)]
proof fn lemma_d6_self_symmetric(t: Seq<HashGroup<D6>>, n: int, m: u8, e: HashGroup<D6>)
    requires
        1 <= n <= 16,
        t.len() < n * n,
        m < 6,
        d6_table_law(t, n, t.len() as int),
        table_off(n, t.len() as int) != (0int, 0int),
        d6_image(n, D6::Rfl(m), t.len() as int) == table_off(n, t.len() as int),
        forall|k: u8| 1 <= k < 6 ==> !#[trigger] d6_found(n, t.len() as int, D6::Rot(k)),
        d6_valid(e.view_hash()),
        d6_hash_apply(D6::Rfl(m), e.view_hash()) == e.view_hash(),
    ensures
        d6_table_law(t.push(e), n, t.len() + 1int),
{
    let i = t.len() as int;
    let p = table_off(n, i);
    lemma_table_coords(n, i);
    assert forall|g: D6| g.wf() implies !#[trigger] d6_found(n, i, g) by {
        match g {
            D6::Rot(k) => {
                if k == 0 {
                    assert(d6_image(n, g, i) == p);
                }
            },
            D6::Rfl(k) => {
                lemma_d6_rfl_as_rot(n, i, m, k);
                if k == m {
                    assert(d6_image(n, g, i) == p);
                } else {
                    assert(!d6_found(n, i, D6::Rot(((k + 6 - m) % 6) as u8)));
                }
            },
        }
    }
    assert forall|g: D6|
        g.wf() && #[trigger] d6_image(n, g, i) == p implies d6_hash_apply(g, e.view_hash())
        == e.view_hash() by {
        match g {
            D6::Rot(k) => {
                if k != 0 {
                    lemma_d6_rot_fixed(k, p.0, p.1);
                }
            },
            D6::Rfl(k) => {
                lemma_d6_rfl_as_rot(n, i, m, k);
                if k != m {
                    lemma_d6_rot_fixed(((k + 6 - m) % 6) as u8, p.0, p.1);
                }
            },
        }
    }
    lemma_d6_extend_new(t, n, e);
}

/// Tile `i` is not the center, no nontrivial symmetry maps it to an earlier
/// tile and no reflection fixes it: a fresh hash keeps the table symmetric.
#[verifier::spinoff_prover]
#[verifier::rlimit(50)]
proof fn lemma_d6_unique(t: Seq<HashGroup<D6>>, n: int, e: HashGroup<D6>)
    requires
        1 <= n <= 16,
        t.len() < n * n,
        d6_table_law(t, n, t.len() as int),
        table_off(n, t.len() as int) != (0int, 0int),
        forall|k: u8| 1 <= k < 6 ==> !#[trigger] d6_found(n, t.len() as int, D6::Rot(k)),
        forall|k: u8|
            k < 6 ==> !#[trigger] d6_found(n, t.len() as int, D6::Rfl(k)) && d6_image(
                n,
                D6::Rfl(k),
                t.len() as int,
            ) != table_off(n, t.len() as int),
        d6_valid(e.view_hash()),
    ensures
        d6_table_law(t.push(e), n, t.len() + 1int),
{
    let i = t.len() as int;
    let p = table_off(n, i);
    lemma_table_coords(n, i);
    lemma_d6_apply_segs(D6::Rot(0), e.view_hash());
    assert forall|g: D6| g.wf() implies !#[trigger] d6_found(n, i, g) by {
        match g {
            D6::Rot(k) => {
                if k == 0 {
                    assert(d6_image(n, g, i) == p);
                } else {
                    assert(!d6_found(n, i, D6::Rot(k)));
                }
            },
            D6::Rfl(k) => {
                assert(!d6_found(n, i, D6::Rfl(k)));
            },
        }
    }
    assert forall|g: D6|
        g.wf() && #[trigger] d6_image(n, g, i) == p implies d6_hash_apply(g, e.view_hash())
        == e.view_hash() by {
        match g {
            D6::Rot(k) => {
                if k != 0 {
                    lemma_d6_rot_fixed(k, p.0, p.1);
                }
            },
            D6::Rfl(k) => {
                assert(!d6_found(n, i, D6::Rfl(k)));
                assert(d6_image(n, D6::Rfl(k), i) != p);
            },
        }
    }
    lemma_d6_extend_new(t, n, e);
}

// ---------------------------------------------------------------------------
// D3 tables: boards whose center of mass is a vertex of a tile.
// ---------------------------------------------------------------------------

/// The image under `g` of tile `j`, relative to the center.
pub open spec fn d3_image(n: int, g: D3, j: int) -> (int, int) {
    d3_apply(g, table_off(n, j).0, table_off(n, j).1)
}

/// The image under `g` of tile `i` is a tile on the table before `i`.
pub open spec fn d3_found(n: int, i: int, g: D3) -> bool {
    table_in_bounds(n, d3_image(n, g, i)) && table_index(n, d3_image(n, g, i)) < i
}

/// The first `k` hashes of the table `t` (of width `n`) are symmetric: for
/// every tile `j` and symmetry `g`, the hash of the image of `j` under `g`
/// is `g` applied to the hash of `j`, wherever that image is among the first
/// `k` tiles.
pub open spec fn d3_table_law(t: Seq<HashGroup<D3>>, n: int, k: int) -> bool {
    &&& forall|j: int| 0 <= j < k ==> d3_valid(#[trigger] t[j].view_hash())
    &&& forall|j: int, g: D3|
        #![trigger d3_image(n, g, j)]
        0 <= j < k && g.wf() && table_in_bounds(n, d3_image(n, g, j)) && table_index(
            n,
            d3_image(n, g, j),
        ) < k ==> t[table_index(n, d3_image(n, g, j))].view_hash() == d3_hash_apply(
            g,
            t[j].view_hash(),
        )
}

/// No tile is fixed by a nontrivial rotation about a vertex.
proof fn lemma_d3_rot_fixed(k: u8, x: int, y: int)
    requires
        0 < k < 3,
    ensures
        d3_apply(D3::Rot(k), x, y) != (x, y),
{
}

/// A class V hash whose three segments are equal is left unchanged by every
/// symmetry.
proof fn lemma_d3_uniform(h: u64, g: D3)
    requires
        d3_valid(h),
        g.wf(),
        forall|i: int| 0 <= i < 3 ==> #[trigger] d3_segs(h)[i] == d3_segs(h)[0],
    ensures
        d3_hash_apply(g, h) == h,
{
    lemma_d3_apply_segs(g, h);
    assert(d3_permuted(g, d3_segs(h)) =~= d3_segs(h));
    lemma_d3_ext(d3_hash_apply(g, h), h);
}

/// Case of `lemma_d3_extend_found` where `g` maps the new tile `i` to an
/// earlier tile `k`: `g = (g h^-1) h`.
#[verifier::spinoff_prover]
#[verifier::rlimit(50)]
proof fn lemma_d3_found_case_b(t: Seq<HashGroup<D3>>, n: int, h: D3, j: int, g: D3)
    requires
        1 <= n <= 16,
        t.len() < n * n,
        d3_table_law(t, n, t.len() as int),
        h.wf(),
        g.wf(),
        0 <= j < t.len(),
        table_off(n, j) == d3_image(n, h, t.len() as int),
        table_in_bounds(n, d3_image(n, g, t.len() as int)),
        table_index(n, d3_image(n, g, t.len() as int)) < t.len(),
    ensures
        t[table_index(n, d3_image(n, g, t.len() as int))].view_hash() == d3_hash_apply(
            g,
            d3_hash_apply(h.spec_inverse(), t[j].view_hash()),
        ),
{
    let i = t.len() as int;
    let p = table_off(n, i);
    let hi = h.spec_inverse();
    let q = d3_image(n, g, i);
    lemma_table_coords(n, j);
    lemma_d3_group(h, h, h);
    lemma_d3_inverse(h, p.0, p.1);
    let gh = g.spec_mul(hi);
    lemma_d3_group(g, hi, h);
    lemma_d3_action(g, hi, table_off(n, j).0, table_off(n, j).1);
    assert(d3_image(n, gh, j) == q);
    lemma_d3_hash_action(g, hi, t[j].view_hash());
}

/// Case of `lemma_d3_extend_found` where `g` fixes the new tile `i`: then
/// `h g h^-1` fixes tile `j`, so the hash of `j` is invariant under it.
#[verifier::spinoff_prover]
#[verifier::rlimit(50)]
proof fn lemma_d3_found_case_c(t: Seq<HashGroup<D3>>, n: int, h: D3, j: int, g: D3)
    requires
        1 <= n <= 16,
        t.len() < n * n,
        d3_table_law(t, n, t.len() as int),
        h.wf(),
        g.wf(),
        0 <= j < t.len(),
        table_off(n, j) == d3_image(n, h, t.len() as int),
        d3_image(n, g, t.len() as int) == table_off(n, t.len() as int),
    ensures
        d3_hash_apply(h.spec_inverse(), t[j].view_hash()) == d3_hash_apply(
            g,
            d3_hash_apply(h.spec_inverse(), t[j].view_hash()),
        ),
{
    let i = t.len() as int;
    let p = table_off(n, i);
    let hi = h.spec_inverse();
    lemma_table_coords(n, j);
    lemma_d3_group(h, h, h);
    let c = h.spec_mul(g).spec_mul(hi);
    lemma_d3_group(h, g, hi);
    lemma_d3_action(h.spec_mul(g), hi, table_off(n, j).0, table_off(n, j).1);
    lemma_d3_inverse(h, p.0, p.1);
    lemma_d3_action(h, g, p.0, p.1);
    assert(d3_image(n, c, j) == table_off(n, j));
    assert(t[j].view_hash() == d3_hash_apply(c, t[j].view_hash()));
    // g h^-1 = h^-1 c
    lemma_d3_group(hi, h.spec_mul(g), hi);
    lemma_d3_group(hi, h, g);
    lemma_d3_group(g, hi, hi);
    lemma_d3_group(h.spec_mul(g), hi, hi);
    assert(g.spec_mul(hi) == hi.spec_mul(c));
    lemma_d3_apply_segs(hi, t[j].view_hash());
    lemma_d3_hash_action(g, hi, t[j].view_hash());
    lemma_d3_hash_action(hi, c, t[j].view_hash());
}

/// Case of `lemma_d3_extend_found` where `g` maps an earlier tile `j2` to
/// the new tile `i`: then `h g` maps `j2` to tile `j`.
#[verifier::spinoff_prover]
#[verifier::rlimit(50)]
proof fn lemma_d3_found_case_a(t: Seq<HashGroup<D3>>, n: int, h: D3, j: int, g: D3, j2: int)
    requires
        1 <= n <= 16,
        t.len() < n * n,
        d3_table_law(t, n, t.len() as int),
        h.wf(),
        g.wf(),
        0 <= j < t.len(),
        0 <= j2 < t.len(),
        table_off(n, j) == d3_image(n, h, t.len() as int),
        d3_image(n, g, j2) == table_off(n, t.len() as int),
    ensures
        d3_hash_apply(h.spec_inverse(), t[j].view_hash()) == d3_hash_apply(
            g,
            t[j2].view_hash(),
        ),
{
    let hi = h.spec_inverse();
    lemma_table_coords(n, j);
    lemma_d3_group(h, h, h);
    let hg = h.spec_mul(g);
    lemma_d3_group(h, g, h);
    lemma_d3_action(h, g, table_off(n, j2).0, table_off(n, j2).1);
    assert(d3_image(n, hg, j2) == table_off(n, j));
    assert(t[j].view_hash() == d3_hash_apply(hg, t[j2].view_hash()));
    lemma_d3_group(hi, h, g);
    lemma_d3_hash_action(hi, hg, t[j2].view_hash());
}

/// Extending a symmetric table with the hash of tile `i` taken from an
/// earlier tile `j`, the image of `i` under `h`, keeps it symmetric.
#[verifier::spinoff_prover]
#[verifier::rlimit(50)]
proof fn lemma_d3_extend_found(t: Seq<HashGroup<D3>>, n: int, h: D3, j: int, e: HashGroup<D3>)
    requires
        1 <= n <= 16,
        t.len() < n * n,
        d3_table_law(t, n, t.len() as int),
        h.wf(),
        0 <= j < t.len(),
        table_off(n, j) == d3_image(n, h, t.len() as int),
        e.view_hash() == d3_hash_apply(h.spec_inverse(), t[j].view_hash()),
    ensures
        d3_table_law(t.push(e), n, t.len() + 1int),
{
    let i = t.len() as int;
    let t2 = t.push(e);
    lemma_table_coords(n, i);
    lemma_d3_group(h, h, h);
    lemma_d3_apply_segs(h.spec_inverse(), t[j].view_hash());
    assert forall|j2: int, g: D3|
        #![trigger d3_image(n, g, j2)]
        0 <= j2 < i + 1 && g.wf() && table_in_bounds(n, d3_image(n, g, j2)) && table_index(
            n,
            d3_image(n, g, j2),
        ) < i + 1 implies t2[table_index(n, d3_image(n, g, j2))].view_hash() == d3_hash_apply(
        g,
        t2[j2].view_hash(),
    ) by {
        let q = d3_image(n, g, j2);
        let k = table_index(n, q);
        lemma_table_index(n, q);
        if j2 < i && k < i {
        } else if j2 == i && k < i {
            lemma_d3_found_case_b(t, n, h, j, g);
        } else if j2 == i && k == i {
            lemma_d3_found_case_c(t, n, h, j, g);
        } else {
            lemma_d3_found_case_a(t, n, h, j, g, j2);
        }
    }
}

/// Extending a symmetric table with a new hash for tile `i`, when no
/// symmetry maps `i` to an earlier tile and the hash is invariant under
/// every symmetry fixing `i`, keeps it symmetric.
#[verifier::spinoff_prover]
#[verifier::rlimit(50)]
proof fn lemma_d3_extend_new(t: Seq<HashGroup<D3>>, n: int, e: HashGroup<D3>)
    requires
        1 <= n <= 16,
        t.len() < n * n,
        d3_table_law(t, n, t.len() as int),
        d3_valid(e.view_hash()),
        forall|g: D3| g.wf() ==> !#[trigger] d3_found(n, t.len() as int, g),
        forall|g: D3|
            g.wf() && #[trigger] d3_image(n, g, t.len() as int) == table_off(n, t.len() as int)
                ==> d3_hash_apply(g, e.view_hash()) == e.view_hash(),
    ensures
        d3_table_law(t.push(e), n, t.len() + 1int),
{
    let i = t.len() as int;
    let t2 = t.push(e);
    let p = table_off(n, i);
    lemma_table_coords(n, i);
    assert forall|j2: int, g: D3|
        #![trigger d3_image(n, g, j2)]
        0 <= j2 < i + 1 && g.wf() && table_in_bounds(n, d3_image(n, g, j2)) && table_index(
            n,
            d3_image(n, g, j2),
        ) < i + 1 implies t2[table_index(n, d3_image(n, g, j2))].view_hash() == d3_hash_apply(
        g,
        t2[j2].view_hash(),
    ) by {
        let q = d3_image(n, g, j2);
        let k = table_index(n, q);
        lemma_table_index(n, q);
        if j2 < i && k < i {
        } else if j2 == i && k < i {
            assert(d3_found(n, i, g));
        } else if j2 == i && k == i {
        } else {
            // The inverse of g maps p to the earlier tile j2.
            let gi = g.spec_inverse();
            lemma_table_coords(n, j2);
            lemma_d3_group(g, g, g);
            lemma_d3_inverse(g, table_off(n, j2).0, table_off(n, j2).1);
            assert(d3_image(n, gi, i) == table_off(n, j2));
            assert(d3_found(n, i, gi));
        }
    }
}

/// `Rfl(k) = Rot(k - m) * Rfl(m)`: the image of a tile fixed by `Rfl(m)`
/// under `Rfl(k)` is its image under a rotation.
proof fn lemma_d3_rfl_as_rot(n: int, i: int, m: u8, k: u8)
    requires
        m < 3,
        k < 3,
        d3_image(n, D3::Rfl(m), i) == table_off(n, i),
    ensures
        d3_image(n, D3::Rfl(k), i) == d3_image(n, D3::Rot(((k + 3 - m) % 3) as u8), i),
        ((k + 3 - m) % 3) as u8 == 0 <==> k == m,
        ((k + 3 - m) % 3) < 3,
{
    let p = table_off(n, i);
    let rk = D3::Rot(((k + 3 - m) % 3) as u8);
    lemma_d3_group(rk, D3::Rfl(m), rk);
    lemma_d3_action(rk, D3::Rfl(m), p.0, p.1);
    assert(rk.spec_mul(D3::Rfl(m)) == D3::Rfl(k));
}

/// The reflection `Rfl(m)` fixes tile `i`, which no nontrivial rotation maps
/// to an earlier tile: a hash for it invariant under `Rfl(m)` keeps the table
/// symmetric.
#[verifier::spinoff_prover]
#[verifier::rlimit(50)]
proof fn lemma_d3_self_symmetric(t: Seq<HashGroup<D3>>, n: int, m: u8, e: HashGroup<D3>)
    requires
        1 <= n <= 16,
        t.len() < n * n,
        m < 3,
        d3_table_law(t, n, t.len() as int),
        d3_image(n, D3::Rfl(m), t.len() as int) == table_off(n, t.len() as int),
        forall|k: u8| 1 <= k < 3 ==> !#[trigger] d3_found(n, t.len() as int, D3::Rot(k)),
        d3_valid(e.view_hash()),
        d3_hash_apply(D3::Rfl(m), e.view_hash()) == e.view_hash(),
    ensures
        d3_table_law(t.push(e), n, t.len() + 1int),
{
    let i = t.len() as int;
    let p = table_off(n, i);
    lemma_table_coords(n, i);
    assert forall|g: D3| g.wf() implies !#[trigger] d3_found(n, i, g) by {
        match g {
            D3::Rot(k) => {
                if k == 0 {
                    assert(d3_image(n, g, i) == p);
                } else {
                    assert(1 <= k < 3);
                    assert(!d3_found(n, i, D3::Rot(k)));
                }
            },
            D3::Rfl(k) => {
                lemma_d3_rfl_as_rot(n, i, m, k);
                if k == m {
                    assert(d3_image(n, g, i) == p);
                } else {
                    let kk = ((k + 3 - m) % 3) as u8;
                    assert(1 <= kk < 3);
                    assert(!d3_found(n, i, D3::Rot(kk)));
                    assert(d3_image(n, g, i) == d3_image(n, D3::Rot(kk), i));
                }
            },
        }
    }
    assert forall|g: D3|
        g.wf() && #[trigger] d3_image(n, g, i) == p implies d3_hash_apply(g, e.view_hash())
        == e.view_hash() by {
        match g {
            D3::Rot(k) => {
                if k != 0 {
                    lemma_d3_rot_fixed(k, p.0, p.1);
                }
            },
            D3::Rfl(k) => {
                lemma_d3_rfl_as_rot(n, i, m, k);
                if k != m {
                    lemma_d3_rot_fixed(((k + 3 - m) % 3) as u8, p.0, p.1);
                }
            },
        }
    }
    lemma_d3_extend_new(t, n, e);
}

/// No nontrivial symmetry maps tile `i` to an earlier
/// tile and no reflection fixes it: a fresh hash keeps the table symmetric.
#[verifier::spinoff_prover]
#[verifier::rlimit(50)]
proof fn lemma_d3_unique(t: Seq<HashGroup<D3>>, n: int, e: HashGroup<D3>)
    requires
        1 <= n <= 16,
        t.len() < n * n,
        d3_table_law(t, n, t.len() as int),
        forall|k: u8| 1 <= k < 3 ==> !#[trigger] d3_found(n, t.len() as int, D3::Rot(k)),
        forall|k: u8|
            k < 3 ==> !#[trigger] d3_found(n, t.len() as int, D3::Rfl(k)) && d3_image(
                n,
                D3::Rfl(k),
                t.len() as int,
            ) != table_off(n, t.len() as int),
        d3_valid(e.view_hash()),
    ensures
        d3_table_law(t.push(e), n, t.len() + 1int),
{
    let i = t.len() as int;
    let p = table_off(n, i);
    lemma_table_coords(n, i);
    lemma_d3_apply_segs(D3::Rot(0), e.view_hash());
    assert forall|g: D3| g.wf() implies !#[trigger] d3_found(n, i, g) by {
        match g {
            D3::Rot(k) => {
                if k == 0 {
                    assert(d3_image(n, g, i) == p);
                } else {
                    assert(!d3_found(n, i, D3::Rot(k)));
                }
            },
            D3::Rfl(k) => {
                assert(!d3_found(n, i, D3::Rfl(k)));
            },
        }
    }
    assert forall|g: D3|
        g.wf() && #[trigger] d3_image(n, g, i) == p implies d3_hash_apply(g, e.view_hash())
        == e.view_hash() by {
        match g {
            D3::Rot(k) => {
                if k != 0 {
                    lemma_d3_rot_fixed(k, p.0, p.1);
                }
            },
            D3::Rfl(k) => {
                assert(!d3_found(n, i, D3::Rfl(k)));
                assert(d3_image(n, D3::Rfl(k), i) != p);
            },
        }
    }
    lemma_d3_extend_new(t, n, e);
}

/// The reflections before `Rfl(r)` and `Rfl(r)` itself neither map tile `i`
/// to an earlier tile nor fix it.
proof fn lemma_d3_rfl_step(n: int, i: int, r: u8)
    requires
        r < 3,
        forall|k: u8|
            #![trigger d3_found(n, i, D3::Rfl(k))]
            k < r ==> !d3_found(n, i, D3::Rfl(k)) && d3_image(n, D3::Rfl(k), i) != table_off(n, i),
        !d3_found(n, i, D3::Rfl(r)),
        d3_image(n, D3::Rfl(r), i) != table_off(n, i),
    ensures
        forall|k: u8|
            #![trigger d3_found(n, i, D3::Rfl(k))]
            k < r + 1 ==> !d3_found(n, i, D3::Rfl(k)) && d3_image(n, D3::Rfl(k), i) != table_off(n, i),
{
}

/// No symmetry maps tile `i` to an earlier tile: its hash is not taken from
/// an earlier one.
pub open spec fn d3_new_tile(n: int, i: int) -> bool {
    forall|g: D3| g.wf() ==> !#[trigger] d3_found(n, i, g)
}

/// `h` is the hash that a new tile `i` gets from the random number `f`: on a
/// tile that the reflection `Rfl(k)` fixes, `f` made invariant under it;
/// elsewhere `f` itself; `f` keeps only the bits of a class V hash.
pub open spec fn d3_fresh(n: int, i: int, f: u64, h: u64) -> bool {
    let p = table_off(n, i);
    let b = f & V_MASK;
    &&& forall|k: u8|
        k < 3 && #[trigger] d3_image(n, D3::Rfl(k), i) == p ==> h == d3_hash_make_invariant(D3::Rfl(k), b)
    &&& (forall|k: u8| k < 3 ==> #[trigger] d3_image(n, D3::Rfl(k), i) != p) ==> h == b
}

/// `t` is the class V table of width `n` drawn from the generator with state
/// `(s0, s1)`: it is symmetric, its first tile hashes to zero, and each new
/// tile `i` gets its hash from the `i`-th number drawn (counting from one).
pub open spec fn is_v_table(t: Seq<HashGroup<D3>>, n: int, s0: u64, s1: u64) -> bool {
    &&& t.len() == n * n
    &&& d3_table_law(t, n, n * n)
    &&& t[0].view_hash() == 0
    &&& forall|i: int|
        1 <= i < n * n && d3_new_tile(n, i) ==> d3_fresh(
            n,
            i,
            xoroshiro_nth(s0, s1, (i - 1) as nat),
            (#[trigger] t[i]).view_hash(),
        )
}

/// The class V table of width 16 drawn from the generator with state
/// `(s0, s1)`.
pub closed spec fn v_table(s0: u64, s1: u64) -> Seq<HashGroup<D3>> {
    choose|t: Seq<HashGroup<D3>>| is_v_table(t, 16, s0, s1)
}

/// A new tile gets one hash from a random number.
proof fn lemma_d3_fresh_unique(n: int, i: int, f: u64, a: u64, b: u64)
    requires
        d3_fresh(n, i, f, a),
        d3_fresh(n, i, f, b),
    ensures
        a == b,
{
    let p = table_off(n, i);
    if exists|k: u8| k < 3 && #[trigger] d3_image(n, D3::Rfl(k), i) == p {
        let k = choose|k: u8| k < 3 && #[trigger] d3_image(n, D3::Rfl(k), i) == p;
    }
}

/// Two class V tables drawn from the same generator agree on their first
/// `k` tiles.
proof fn lemma_v_table_prefix(t1: Seq<HashGroup<D3>>, t2: Seq<HashGroup<D3>>, n: int, s0: u64, s1: u64, k: int)
    requires
        1 <= n <= 16,
        0 <= k <= n * n,
        is_v_table(t1, n, s0, s1),
        is_v_table(t2, n, s0, s1),
    ensures
        forall|i: int| 0 <= i < k ==> #[trigger] t1[i] == t2[i],
    decreases k,
{
    if k > 0 {
        lemma_v_table_prefix(t1, t2, n, s0, s1, k - 1);
        let i = k - 1;
        t1[i].lemma_view_hash_eq(t2[i]);
        if i == 0 {
        } else if d3_new_tile(n, i) {
            lemma_d3_fresh_unique(n, i, xoroshiro_nth(s0, s1, (i - 1) as nat), t1[i].view_hash(), t2[i].view_hash());
        } else {
            let g = choose|g: D3| g.wf() && #[trigger] d3_found(n, i, g);
            let m = table_index(n, d3_image(n, g, i));
            assert(t1[m] == t2[m]);
            let h1 = t1[i].view_hash();
            let h2 = t2[i].view_hash();
            assert(t1[m].view_hash() == d3_hash_apply(g, h1));
            assert(t2[m].view_hash() == d3_hash_apply(g, h2));
            let gi = g.spec_inverse();
            lemma_d3_group(g, g, g);
            lemma_d3_hash_action(gi, g, h1);
            lemma_d3_hash_action(gi, g, h2);
        }
    }
}

/// There is one class V table of width 16 for each generator state.
pub proof fn lemma_v_table_unique(t: Seq<HashGroup<D3>>, s0: u64, s1: u64)
    requires
        is_v_table(t, 16, s0, s1),
    ensures
        v_table(s0, s1) == t,
{
    let c = v_table(s0, s1);
    assert(is_v_table(c, 16, s0, s1));
    lemma_v_table_prefix(t, c, 16, s0, s1, 256);
    assert(t =~= c);
}

/// On symmetric class V tables, two boards whose pawns lie at the
/// images under `g` of each other's tiles hash to the images under `g` of
/// each other's hashes: pawn `j` of the second board lies at the image of
/// the tile of pawn `j` of the first, both on the table.
pub proof fn lemma_board_hash_d3(
    cur: Seq<HashGroup<D3>>,
    other: Seq<HashGroup<D3>>,
    poses1: Seq<PackedIdx>,
    poses2: Seq<PackedIdx>,
    k: int,
    origin1: (int, int),
    origin2: (int, int),
    op1: D6,
    op2: D6,
    cur_par: int,
    g: D3,
)
    requires
        g.wf(),
        cur.len() == 256,
        other.len() == 256,
        d3_table_law(cur, 16, 256),
        d3_table_law(other, 16, 256),
        forall|j: int|
            0 <= j < k ==> table_in_bounds(16, #[trigger] normalized_pos(poses1[j], origin1, op1))
                && table_in_bounds(16, normalized_pos(poses2[j], origin2, op2)) && normalized_pos(
                poses2[j],
                origin2,
                op2,
            ) == d3_apply(
                g,
                normalized_pos(poses1[j], origin1, op1).0,
                normalized_pos(poses1[j], origin1, op1).1,
            ),
    ensures
        d3_valid(board_hash_spec(cur, other, 16, poses1, k, origin1, op1, cur_par)),
        board_hash_spec(cur, other, 16, poses2, k, origin2, op2, cur_par) == d3_hash_apply(
            g,
            board_hash_spec(cur, other, 16, poses1, k, origin1, op1, cur_par),
        ),
    decreases k,
{
    if k <= 0 {
        assert(0u64 >> 60u64 == 0) by (bit_vector);
        lemma_d3_hash_xor(g, 0, 0);
    } else {
        lemma_board_hash_d3(cur, other, poses1, poses2, k - 1, origin1, origin2, op1, op2, cur_par, g);
        let j = k - 1;
        let t = if j % 2 == cur_par {
            cur
        } else {
            other
        };
        let q1 = normalized_pos(poses1[j], origin1, op1);
        let q2 = normalized_pos(poses2[j], origin2, op2);
        lemma_table_index(16, q1);
        lemma_table_index(16, q2);
        let j1 = table_index(16, q1);
        assert(d3_image(16, g, j1) == q2);
        let h1 = t[j1].view_hash();
        assert(d3_valid(h1));
        assert(t[table_index(16, q2)].view_hash() == d3_hash_apply(g, h1));
        assert(pawn_hash_spec(t, 16, poses1[j], origin1, op1) == h1);
        assert(pawn_hash_spec(t, 16, poses2[j], origin2, op2) == d3_hash_apply(g, h1));
        let b1 = board_hash_spec(cur, other, 16, poses1, j, origin1, op1, cur_par);
        lemma_d3_hash_xor(g, b1, h1);
    }
}

impl<const N: usize> HashTable<N, D3> {
    /// The hash of tile `i`, given the hashes of the tiles before it and a
    /// freshly drawn random number.
    #[verifier::spinoff_prover]
    #[verifier::rlimit(100)]
    fn d3_entry(table: &Vec<HashGroup<D3>>, i: usize, fresh: u64) -> (r: HashGroup<D3>)
        requires
            1 <= N <= 16,
            table.len() == i,
            i < N * N,
            d3_table_law(table@, N as int, i as int),
        ensures
            d3_table_law(table@.push(r), N as int, i + 1),
            i == 0 ==> r.view_hash() == 0,
            i > 0 && d3_new_tile(N as int, i as int) ==> d3_fresh(N as int, i as int, fresh, r.view_hash()),
    {
        let ghost n = N as int;
        let pos = Self::tile_offset(i);
        if i == 0 {
            let r = HashGroup::<D3>::new(0);
            proof {
                assert(0u64 & 0xfffff == 0 && (0u64 >> 20u64) & 0xfffff == 0 && (0u64 >> 40u64)
                    & 0xfffff == 0 && 0u64 >> 60u64 == 0) by (bit_vector);
                assert forall|g: D3| g.wf() implies d3_hash_apply(g, 0) == 0 by {
                    lemma_d3_uniform(0, g);
                }
                lemma_d3_extend_new(table@, n, r);
            }
            return r;
        }
        let d3b = HashGroup::<D3>::new(fresh & V_MASK);
        assert(d3_valid(fresh & V_MASK)) by (bit_vector);
        // Try the 2 nontrivial rotations.

        let mut r: u8 = 1;
        while r < 3
            invariant
                1 <= r <= 3,
                1 <= N <= 16,
                i > 0,
                table.len() == i,
                i < N * N,
                pos.pair() == table_off(n, i as int),
                -8 <= pos.x <= 8,
                -8 <= pos.y <= 8,
                n == N,
                d3_table_law(table@, n, i as int),
                forall|k: u8| 1 <= k < r ==> !#[trigger] d3_found(n, i as int, D3::Rot(k)),
            decreases 3 - r,
        {
            let s = pos.apply_d3_v(&D3::Rot(r));
            if let Some(j) = Self::computed_index(&s, i) {
                // Apply the inverse rotation to transform `s` back to `pos`.
                let e = table[j].apply(&D3::Rot(3 - r));
                proof {
                    lemma_table_index(n, s.pair());
                    lemma_d3_extend_found(table@, n, D3::Rot(r), j as int, e);
                    assert(d3_found(n, i as int, D3::Rot(r)));
                }
                return e;
            }
            r += 1;
        }
        // Try the 3 reflections.

        let mut r: u8 = 0;
        while r < 3
            invariant
                r <= 3,
                1 <= N <= 16,
                i > 0,
                table.len() == i,
                i < N * N,
                pos.pair() == table_off(n, i as int),
                -8 <= pos.x <= 8,
                -8 <= pos.y <= 8,
                n == N,
                d3_table_law(table@, n, i as int),
                d3_valid(d3b.view_hash()),
                d3b.view_hash() == fresh & V_MASK,
                forall|k: u8| 1 <= k < 3 ==> !#[trigger] d3_found(n, i as int, D3::Rot(k)),
                forall|k: u8|
                    k < r ==> !#[trigger] d3_found(n, i as int, D3::Rfl(k)) && d3_image(
                        n,
                        D3::Rfl(k),
                        i as int,
                    ) != table_off(n, i as int),
            decreases 3 - r,
        {
            let op = D3::Rfl(r);
            let s = pos.apply_d3_v(&op);
            if s == pos {
                // This tile is symmetric to itself under the reflection.
                let e = d3b.make_invariant(&op);
                proof {
                    lemma_d3_make_invariant(op, d3b.view_hash());
                    self::lemma_d3_self_symmetric(table@, n, r, e);
                    let p = table_off(n, i as int);
                    assert(d3_image(n, op, i as int) == p);
                    assert forall|k: u8| k < 3 && #[trigger] d3_image(n, D3::Rfl(k), i as int) == p implies k == r by {
                        lemma_d3_rfl_as_rot(n, i as int, r, k);
                        if k != r {
                            lemma_d3_rot_fixed(((k + 3 - r) % 3) as u8, p.0, p.1);
                        }
                    }
                    assert(e.view_hash() == d3_hash_make_invariant(D3::Rfl(r), fresh & V_MASK));
                    assert(d3_fresh(n, i as int, fresh, e.view_hash()));
                }
                return e;
            }
            if let Some(j) = Self::computed_index(&s, i) {
                let e = table[j].apply(&op);
                proof {
                    lemma_table_index(n, s.pair());
                    lemma_d3_extend_found(table@, n, op, j as int, e);
                    assert(d3_found(n, i as int, op));
                }
                return e;
            }
            assert(d3_image(n, op, i as int) != table_off(n, i as int));
            assert(!d3_found(n, i as int, op));
            proof {
                lemma_d3_rfl_step(n, i as int, r);
            }
            r += 1;
        }
        // The tile is neither symmetric to itself nor to an earlier tile: use
        // the random hash.
        proof {
            assert(r == 3);
            assert forall|k: u8|
                k < 3 implies !#[trigger] d3_found(n, i as int, D3::Rfl(k)) && d3_image(
                n,
                D3::Rfl(k),
                i as int,
            ) != table_off(n, i as int) by {
                assert(k < r);
            }
            self::lemma_d3_unique(table@, n, d3b);
            let p = table_off(n, i as int);
            assert forall|k: u8| k < 3 implies #[trigger] d3_image(n, D3::Rfl(k), i as int) != p by {
                assert(!d3_found(n, i as int, D3::Rfl(k)));
            }
            assert(d3_fresh(n, i as int, fresh, d3b.view_hash()));
        }
        d3b
    }

    /// A table of hashes for boards of symmetry class V, drawn from the
    /// generator seeded with `seed`: the first tile hashes to zero.
    fn make_v(seed: [u64; 2]) -> (r: Vec<HashGroup<D3>>)
        requires
            1 <= N <= 16,
        ensures
            is_v_table(r@, N as int, seed[0], seed[1]),
    {
        assert(1 <= N * N <= 256) by (nonlinear_arith)
            requires
                1 <= N <= 16,
        ;
        let mut table: Vec<HashGroup<D3>> = Vec::new();
        let mut rng = Xoroshiro128::from_seed(&seed);
        let mut i: usize = 0;
        while i < N * N
            invariant
                1 <= N <= 16,
                1 <= N * N <= 256,
                i <= N * N,
                table.len() == i,
                d3_table_law(table@, N as int, i as int),
                i > 0 ==> table@[0].view_hash() == 0,
                (rng.state[0], rng.state[1]) == xoroshiro_state(
                    seed[0],
                    seed[1],
                    if i == 0 {
                        0
                    } else {
                        (i - 1) as nat
                    },
                ),
                forall|j: int|
                    1 <= j < i && d3_new_tile(N as int, j) ==> d3_fresh(
                        N as int,
                        j,
                        xoroshiro_nth(seed[0], seed[1], (j - 1) as nat),
                        (#[trigger] table@[j]).view_hash(),
                    ),
            decreases N * N - i,
        {
            let fresh = if i == 0 {
                0
            } else {
                let (next, h) = rng.next_u64();
                rng = next;
                h
            };
            let e = Self::d3_entry(&table, i, fresh);
            table.push(e);
            i += 1;
        }
        table
    }

    /// Generates a hash table for boards with symmetry class V.
    pub fn new_v() -> (r: Self)
        requires
            1 <= N <= 16,
        ensures
            is_v_table(r.cur(), N as int, 0x6a09_e667_f3bc_c908, 0xbb67_ae85_84ca_a73b),
            is_v_table(r.other(), N as int, 0x3c6e_f372_fe94_f82b, 0xa54f_f53a_5f1d_36f1),
    {
        HashTable {
            cur_table: Self::make_v([0x6a09_e667_f3bc_c908, 0xbb67_ae85_84ca_a73b]),
            other_table: Self::make_v([0x3c6e_f372_fe94_f82b, 0xa54f_f53a_5f1d_36f1]),
        }
    }
}

// ---------------------------------------------------------------------------
// K4 tables: boards whose center of mass is the midpoint of an edge.
// ---------------------------------------------------------------------------

/// The image under `g` of tile `j`, relative to the center.
pub open spec fn k4_image(n: int, g: K4, j: int) -> (int, int) {
    k4_apply(g, table_off(n, j).0, table_off(n, j).1)
}

/// The image under `g` of tile `i` is a tile on the table before `i`.
pub open spec fn k4_found(n: int, i: int, g: K4) -> bool {
    table_in_bounds(n, k4_image(n, g, i)) && table_index(n, k4_image(n, g, i)) < i
}

/// The first `k` hashes of the table `t` (of width `n`) are symmetric: for
/// every tile `j` and symmetry `g`, the hash of the image of `j` under `g`
/// is `g` applied to the hash of `j`, wherever that image is among the first
/// `k` tiles.
pub open spec fn k4_table_law(t: Seq<HashGroup<K4>>, n: int, k: int) -> bool {
    &&& forall|j: int| 0 <= j < k ==> k4_valid(#[trigger] t[j].view_hash())
    &&& forall|j: int, g: K4|
        #![trigger k4_image(n, g, j)]
        0 <= j < k && g.wf() && table_in_bounds(n, k4_image(n, g, j)) && table_index(
            n,
            k4_image(n, g, j),
        ) < k ==> t[table_index(n, k4_image(n, g, j))].view_hash() == k4_hash_apply(
            g,
            t[j].view_hash(),
        )
}

/// Case of `lemma_k4_extend_found` where `g` maps the new tile `i` to an
/// earlier tile `k`: `g = (g h^-1) h`.
#[verifier::spinoff_prover]
#[verifier::rlimit(50)]
proof fn lemma_k4_found_case_b(t: Seq<HashGroup<K4>>, n: int, h: K4, j: int, g: K4)
    requires
        1 <= n <= 16,
        t.len() < n * n,
        k4_table_law(t, n, t.len() as int),
        h.wf(),
        g.wf(),
        0 <= j < t.len(),
        table_off(n, j) == k4_image(n, h, t.len() as int),
        table_in_bounds(n, k4_image(n, g, t.len() as int)),
        table_index(n, k4_image(n, g, t.len() as int)) < t.len(),
    ensures
        t[table_index(n, k4_image(n, g, t.len() as int))].view_hash() == k4_hash_apply(
            g,
            k4_hash_apply(h, t[j].view_hash()),
        ),
{
    let i = t.len() as int;
    let p = table_off(n, i);
    let hi = h;
    let q = k4_image(n, g, i);
    lemma_table_coords(n, j);
    lemma_k4_group(h, h, h);
    lemma_k4_inverse(h, p.0, p.1);
    let gh = g.spec_mul(hi);
    lemma_k4_group(g, hi, h);
    lemma_k4_action(g, hi, table_off(n, j).0, table_off(n, j).1);
    assert(k4_image(n, gh, j) == q);
    lemma_k4_hash_action(g, hi, t[j].view_hash());
}

/// Case of `lemma_k4_extend_found` where `g` fixes the new tile `i`: then
/// `h g h^-1` fixes tile `j`, so the hash of `j` is invariant under it.
#[verifier::spinoff_prover]
#[verifier::rlimit(50)]
proof fn lemma_k4_found_case_c(t: Seq<HashGroup<K4>>, n: int, h: K4, j: int, g: K4)
    requires
        1 <= n <= 16,
        t.len() < n * n,
        k4_table_law(t, n, t.len() as int),
        h.wf(),
        g.wf(),
        0 <= j < t.len(),
        table_off(n, j) == k4_image(n, h, t.len() as int),
        k4_image(n, g, t.len() as int) == table_off(n, t.len() as int),
    ensures
        k4_hash_apply(h, t[j].view_hash()) == k4_hash_apply(
            g,
            k4_hash_apply(h, t[j].view_hash()),
        ),
{
    let i = t.len() as int;
    let p = table_off(n, i);
    let hi = h;
    lemma_table_coords(n, j);
    lemma_k4_group(h, h, h);
    let c = h.spec_mul(g).spec_mul(hi);
    lemma_k4_group(h, g, hi);
    lemma_k4_action(h.spec_mul(g), hi, table_off(n, j).0, table_off(n, j).1);
    lemma_k4_inverse(h, p.0, p.1);
    lemma_k4_action(h, g, p.0, p.1);
    assert(k4_image(n, c, j) == table_off(n, j));
    assert(t[j].view_hash() == k4_hash_apply(c, t[j].view_hash()));
    // g h^-1 = h^-1 c
    lemma_k4_group(hi, h.spec_mul(g), hi);
    lemma_k4_group(hi, h, g);
    lemma_k4_group(g, hi, hi);
    lemma_k4_group(h.spec_mul(g), hi, hi);
    assert(g.spec_mul(hi) == hi.spec_mul(c));
    lemma_k4_apply_segs(hi, t[j].view_hash());
    lemma_k4_hash_action(g, hi, t[j].view_hash());
    lemma_k4_hash_action(hi, c, t[j].view_hash());
}

/// Case of `lemma_k4_extend_found` where `g` maps an earlier tile `j2` to
/// the new tile `i`: then `h g` maps `j2` to tile `j`.
#[verifier::spinoff_prover]
#[verifier::rlimit(50)]
proof fn lemma_k4_found_case_a(t: Seq<HashGroup<K4>>, n: int, h: K4, j: int, g: K4, j2: int)
    requires
        1 <= n <= 16,
        t.len() < n * n,
        k4_table_law(t, n, t.len() as int),
        h.wf(),
        g.wf(),
        0 <= j < t.len(),
        0 <= j2 < t.len(),
        table_off(n, j) == k4_image(n, h, t.len() as int),
        k4_image(n, g, j2) == table_off(n, t.len() as int),
    ensures
        k4_hash_apply(h, t[j].view_hash()) == k4_hash_apply(
            g,
            t[j2].view_hash(),
        ),
{
    let hi = h;
    lemma_table_coords(n, j);
    lemma_k4_group(h, h, h);
    let hg = h.spec_mul(g);
    lemma_k4_group(h, g, h);
    lemma_k4_action(h, g, table_off(n, j2).0, table_off(n, j2).1);
    assert(k4_image(n, hg, j2) == table_off(n, j));
    assert(t[j].view_hash() == k4_hash_apply(hg, t[j2].view_hash()));
    lemma_k4_group(hi, h, g);
    lemma_k4_hash_action(hi, hg, t[j2].view_hash());
}

/// Extending a symmetric table with the hash of tile `i` taken from an
/// earlier tile `j`, the image of `i` under `h`, keeps it symmetric.
#[verifier::spinoff_prover]
#[verifier::rlimit(50)]
proof fn lemma_k4_extend_found(t: Seq<HashGroup<K4>>, n: int, h: K4, j: int, e: HashGroup<K4>)
    requires
        1 <= n <= 16,
        t.len() < n * n,
        k4_table_law(t, n, t.len() as int),
        h.wf(),
        0 <= j < t.len(),
        table_off(n, j) == k4_image(n, h, t.len() as int),
        e.view_hash() == k4_hash_apply(h, t[j].view_hash()),
    ensures
        k4_table_law(t.push(e), n, t.len() + 1int),
{
    let i = t.len() as int;
    let t2 = t.push(e);
    lemma_table_coords(n, i);
    lemma_k4_group(h, h, h);
    lemma_k4_apply_segs(h, t[j].view_hash());
    assert forall|j2: int, g: K4|
        #![trigger k4_image(n, g, j2)]
        0 <= j2 < i + 1 && g.wf() && table_in_bounds(n, k4_image(n, g, j2)) && table_index(
            n,
            k4_image(n, g, j2),
        ) < i + 1 implies t2[table_index(n, k4_image(n, g, j2))].view_hash() == k4_hash_apply(
        g,
        t2[j2].view_hash(),
    ) by {
        let q = k4_image(n, g, j2);
        let k = table_index(n, q);
        lemma_table_index(n, q);
        if j2 < i && k < i {
        } else if j2 == i && k < i {
            lemma_k4_found_case_b(t, n, h, j, g);
        } else if j2 == i && k == i {
            lemma_k4_found_case_c(t, n, h, j, g);
        } else {
            lemma_k4_found_case_a(t, n, h, j, g, j2);
        }
    }
}

/// Extending a symmetric table with a new hash for tile `i`, when no
/// symmetry maps `i` to an earlier tile and the hash is invariant under
/// every symmetry fixing `i`, keeps it symmetric.
#[verifier::spinoff_prover]
#[verifier::rlimit(50)]
proof fn lemma_k4_extend_new(t: Seq<HashGroup<K4>>, n: int, e: HashGroup<K4>)
    requires
        1 <= n <= 16,
        t.len() < n * n,
        k4_table_law(t, n, t.len() as int),
        k4_valid(e.view_hash()),
        forall|g: K4| g.wf() ==> !#[trigger] k4_found(n, t.len() as int, g),
        forall|g: K4|
            g.wf() && #[trigger] k4_image(n, g, t.len() as int) == table_off(n, t.len() as int)
                ==> k4_hash_apply(g, e.view_hash()) == e.view_hash(),
    ensures
        k4_table_law(t.push(e), n, t.len() + 1int),
{
    let i = t.len() as int;
    let t2 = t.push(e);
    let p = table_off(n, i);
    lemma_table_coords(n, i);
    assert forall|j2: int, g: K4|
        #![trigger k4_image(n, g, j2)]
        0 <= j2 < i + 1 && g.wf() && table_in_bounds(n, k4_image(n, g, j2)) && table_index(
            n,
            k4_image(n, g, j2),
        ) < i + 1 implies t2[table_index(n, k4_image(n, g, j2))].view_hash() == k4_hash_apply(
        g,
        t2[j2].view_hash(),
    ) by {
        let q = k4_image(n, g, j2);
        let k = table_index(n, q);
        lemma_table_index(n, q);
        if j2 < i && k < i {
        } else if j2 == i && k < i {
            assert(k4_found(n, i, g));
        } else if j2 == i && k == i {
        } else {
            // The inverse of g maps p to the earlier tile j2.
            let gi = g;
            lemma_table_coords(n, j2);
            lemma_k4_group(g, g, g);
            lemma_k4_inverse(g, table_off(n, j2).0, table_off(n, j2).1);
            assert(k4_image(n, gi, i) == table_off(n, j2));
            assert(k4_found(n, i, gi));
        }
    }
}

/// The rotation by 180 degrees about the midpoint of an edge fixes no tile.
proof fn lemma_k4_half_turn_fixed(x: int, y: int)
    ensures
        k4_apply(K4 { left: C2(0), right: C2(1) }, x, y) != (x, y),
{
}

/// At most one nontrivial element of K4 fixes a tile.
proof fn lemma_k4_stabilizer(n: int, i: int, a: K4, b: K4)
    requires
        a.wf(),
        b.wf(),
        a != K4::identity_spec(),
        b != K4::identity_spec(),
        k4_image(n, a, i) == table_off(n, i),
        k4_image(n, b, i) == table_off(n, i),
    ensures
        a == b,
{
    let p = table_off(n, i);
    let half = K4 { left: C2(0), right: C2(1) };
    lemma_k4_half_turn_fixed(p.0, p.1);
    if a != b {
        if a != half && b != half {
            lemma_k4_third(a, b);
            lemma_k4_action(a, b, p.0, p.1);
        }
    }
}

/// The nontrivial `op` fixes tile `i`, which no nontrivial symmetry maps to
/// an earlier tile: a hash for it invariant under `op` keeps the table
/// symmetric.
proof fn lemma_k4_self_symmetric(t: Seq<HashGroup<K4>>, n: int, op: K4, e: HashGroup<K4>)
    requires
        1 <= n <= 16,
        t.len() < n * n,
        op.wf(),
        op != K4::identity_spec(),
        k4_table_law(t, n, t.len() as int),
        k4_image(n, op, t.len() as int) == table_off(n, t.len() as int),
        forall|g: K4|
            g.wf() && g != K4::identity_spec() ==> !#[trigger] k4_found(n, t.len() as int, g),
        k4_hash_apply(op, e.view_hash()) == e.view_hash(),
    ensures
        k4_table_law(t.push(e), n, t.len() + 1int),
{
    let i = t.len() as int;
    let p = table_off(n, i);
    lemma_table_coords(n, i);
    assert forall|g: K4| g.wf() implies !#[trigger] k4_found(n, i, g) by {
        if g == K4::identity_spec() {
            assert(k4_image(n, g, i) == p);
        }
    }
    assert forall|g: K4|
        g.wf() && #[trigger] k4_image(n, g, i) == p implies k4_hash_apply(g, e.view_hash())
        == e.view_hash() by {
        if g != K4::identity_spec() {
            lemma_k4_stabilizer(n, i, g, op);
        }
    }
    lemma_k4_extend_new(t, n, e);
}

/// No nontrivial symmetry maps tile `i` to an earlier tile or fixes it: a
/// fresh hash keeps the table symmetric.
proof fn lemma_k4_unique(t: Seq<HashGroup<K4>>, n: int, e: HashGroup<K4>)
    requires
        1 <= n <= 16,
        t.len() < n * n,
        k4_table_law(t, n, t.len() as int),
        forall|g: K4|
            g.wf() && g != K4::identity_spec() ==> !#[trigger] k4_found(n, t.len() as int, g)
                && k4_image(n, g, t.len() as int) != table_off(n, t.len() as int),
    ensures
        k4_table_law(t.push(e), n, t.len() + 1int),
{
    let i = t.len() as int;
    let p = table_off(n, i);
    lemma_table_coords(n, i);
    assert forall|g: K4| g.wf() implies !#[trigger] k4_found(n, i, g) by {
        if g == K4::identity_spec() {
            assert(k4_image(n, g, i) == p);
        }
    }
    assert forall|g: K4|
        g.wf() && #[trigger] k4_image(n, g, i) == p implies k4_hash_apply(g, e.view_hash())
        == e.view_hash() by {
        if g != K4::identity_spec() {
            assert(!k4_found(n, i, g));
        }
    }
    lemma_k4_extend_new(t, n, e);
}

/// No symmetry maps tile `i` to an earlier tile: its hash is not taken from
/// an earlier one.
pub open spec fn k4_new_tile(n: int, i: int) -> bool {
    forall|g: K4| g.wf() ==> !#[trigger] k4_found(n, i, g)
}

/// `h` is the hash that a new tile `i` gets from the random number `f`: on a
/// tile that a nontrivial symmetry `g` fixes, `f` made invariant under `g`;
/// elsewhere `f` itself; `f` keeps only the bits of a class E hash.
pub open spec fn k4_fresh(n: int, i: int, f: u64, h: u64) -> bool {
    let p = table_off(n, i);
    let b = f & E_MASK;
    &&& forall|g: K4|
        g.wf() && g != K4::identity_spec() && #[trigger] k4_image(n, g, i) == p ==> h
            == k4_hash_make_invariant(g, b)
    &&& (forall|g: K4| g.wf() && g != K4::identity_spec() ==> #[trigger] k4_image(n, g, i) != p)
        ==> h == b
}

/// `t` is the class E table of width `n` drawn from the generator with state
/// `(s0, s1)`: it is symmetric, its first tile hashes to zero, and each new
/// tile `i` gets its hash from the `i`-th number drawn (counting from one).
pub open spec fn is_e_table(t: Seq<HashGroup<K4>>, n: int, s0: u64, s1: u64) -> bool {
    &&& t.len() == n * n
    &&& k4_table_law(t, n, n * n)
    &&& t[0].view_hash() == 0
    &&& forall|i: int|
        1 <= i < n * n && k4_new_tile(n, i) ==> k4_fresh(
            n,
            i,
            xoroshiro_nth(s0, s1, (i - 1) as nat),
            (#[trigger] t[i]).view_hash(),
        )
}

/// The class E table of width 16 drawn from the generator with state
/// `(s0, s1)`.
pub closed spec fn e_table(s0: u64, s1: u64) -> Seq<HashGroup<K4>> {
    choose|t: Seq<HashGroup<K4>>| is_e_table(t, 16, s0, s1)
}

/// A new tile gets one hash from a random number.
proof fn lemma_k4_fresh_unique(n: int, i: int, f: u64, a: u64, b: u64)
    requires
        k4_fresh(n, i, f, a),
        k4_fresh(n, i, f, b),
    ensures
        a == b,
{
    let p = table_off(n, i);
    if exists|g: K4| g.wf() && g != K4::identity_spec() && #[trigger] k4_image(n, g, i) == p {
        let g = choose|g: K4| g.wf() && g != K4::identity_spec() && #[trigger] k4_image(n, g, i) == p;
    }
}

/// Two class E tables drawn from the same generator agree on their first
/// `k` tiles.
proof fn lemma_e_table_prefix(t1: Seq<HashGroup<K4>>, t2: Seq<HashGroup<K4>>, n: int, s0: u64, s1: u64, k: int)
    requires
        1 <= n <= 16,
        0 <= k <= n * n,
        is_e_table(t1, n, s0, s1),
        is_e_table(t2, n, s0, s1),
    ensures
        forall|i: int| 0 <= i < k ==> #[trigger] t1[i] == t2[i],
    decreases k,
{
    if k > 0 {
        lemma_e_table_prefix(t1, t2, n, s0, s1, k - 1);
        let i = k - 1;
        t1[i].lemma_view_hash_eq(t2[i]);
        if i == 0 {
        } else if k4_new_tile(n, i) {
            lemma_k4_fresh_unique(n, i, xoroshiro_nth(s0, s1, (i - 1) as nat), t1[i].view_hash(), t2[i].view_hash());
        } else {
            let g = choose|g: K4| g.wf() && #[trigger] k4_found(n, i, g);
            let m = table_index(n, k4_image(n, g, i));
            assert(t1[m] == t2[m]);
            let h1 = t1[i].view_hash();
            let h2 = t2[i].view_hash();
            assert(t1[m].view_hash() == k4_hash_apply(g, h1));
            assert(t2[m].view_hash() == k4_hash_apply(g, h2));
            lemma_k4_group(g, g, g);
            lemma_k4_hash_action(g, g, h1);
            lemma_k4_hash_action(g, g, h2);
        }
    }
}

/// There is one class E table of width 16 for each generator state.
pub proof fn lemma_e_table_unique(t: Seq<HashGroup<K4>>, s0: u64, s1: u64)
    requires
        is_e_table(t, 16, s0, s1),
    ensures
        e_table(s0, s1) == t,
{
    let c = e_table(s0, s1);
    assert(is_e_table(c, 16, s0, s1));
    lemma_e_table_prefix(t, c, 16, s0, s1, 256);
    assert(t =~= c);
}

/// On symmetric class E tables, two boards whose pawns lie at the
/// images under `g` of each other's tiles hash to the images under `g` of
/// each other's hashes: pawn `j` of the second board lies at the image of
/// the tile of pawn `j` of the first, both on the table.
pub proof fn lemma_board_hash_k4(
    cur: Seq<HashGroup<K4>>,
    other: Seq<HashGroup<K4>>,
    poses1: Seq<PackedIdx>,
    poses2: Seq<PackedIdx>,
    k: int,
    origin1: (int, int),
    origin2: (int, int),
    op1: D6,
    op2: D6,
    cur_par: int,
    g: K4,
)
    requires
        g.wf(),
        cur.len() == 256,
        other.len() == 256,
        k4_table_law(cur, 16, 256),
        k4_table_law(other, 16, 256),
        forall|j: int|
            0 <= j < k ==> table_in_bounds(16, #[trigger] normalized_pos(poses1[j], origin1, op1))
                && table_in_bounds(16, normalized_pos(poses2[j], origin2, op2)) && normalized_pos(
                poses2[j],
                origin2,
                op2,
            ) == k4_apply(
                g,
                normalized_pos(poses1[j], origin1, op1).0,
                normalized_pos(poses1[j], origin1, op1).1,
            ),
    ensures
        k4_valid(board_hash_spec(cur, other, 16, poses1, k, origin1, op1, cur_par)),
        board_hash_spec(cur, other, 16, poses2, k, origin2, op2, cur_par) == k4_hash_apply(
            g,
            board_hash_spec(cur, other, 16, poses1, k, origin1, op1, cur_par),
        ),
    decreases k,
{
    if k <= 0 {
        lemma_k4_hash_xor(g, 0, 0);
    } else {
        lemma_board_hash_k4(cur, other, poses1, poses2, k - 1, origin1, origin2, op1, op2, cur_par, g);
        let j = k - 1;
        let t = if j % 2 == cur_par {
            cur
        } else {
            other
        };
        let q1 = normalized_pos(poses1[j], origin1, op1);
        let q2 = normalized_pos(poses2[j], origin2, op2);
        lemma_table_index(16, q1);
        lemma_table_index(16, q2);
        let j1 = table_index(16, q1);
        assert(k4_image(16, g, j1) == q2);
        let h1 = t[j1].view_hash();
        assert(k4_valid(h1));
        assert(t[table_index(16, q2)].view_hash() == k4_hash_apply(g, h1));
        assert(pawn_hash_spec(t, 16, poses1[j], origin1, op1) == h1);
        assert(pawn_hash_spec(t, 16, poses2[j], origin2, op2) == k4_hash_apply(g, h1));
        let b1 = board_hash_spec(cur, other, 16, poses1, j, origin1, op1, cur_par);
        lemma_k4_hash_xor(g, b1, h1);
    }
}

impl<const N: usize> HashTable<N, K4> {
    /// The hash of tile `i`, given the hashes of the tiles before it and a
    /// freshly drawn random number.
    #[verifier::spinoff_prover]
    #[verifier::rlimit(100)]
    fn k4_entry(table: &Vec<HashGroup<K4>>, i: usize, fresh: u64) -> (r: HashGroup<K4>)
        requires
            1 <= N <= 16,
            table.len() == i,
            i < N * N,
            k4_table_law(table@, N as int, i as int),
        ensures
            k4_table_law(table@.push(r), N as int, i + 1),
            i == 0 ==> r.view_hash() == 0,
            i > 0 && k4_new_tile(N as int, i as int) ==> k4_fresh(N as int, i as int, fresh, r.view_hash()),
    {
        let ghost n = N as int;
        let pos = Self::tile_offset(i);
        if i == 0 {
            let r = HashGroup::<K4>::new(0);
            proof {
                assert(crate::tile_hash::k4_a(0) == 0 && crate::tile_hash::k4_b(0) == 0
                    && crate::tile_hash::k4_c(0) == 0) by (bit_vector);
                lemma_k4_extend_new(table@, n, r);
            }
            return r;
        }
        let k4b = HashGroup::<K4>::new(fresh & E_MASK);
        // Check the 3 nontrivial symmetries for existing hashes.

        let mut op_ord: usize = 1;
        while op_ord < 4
            invariant
                1 <= op_ord <= 4,
                1 <= N <= 16,
                i > 0,
                table.len() == i,
                i < N * N,
                pos.pair() == table_off(n, i as int),
                -8 <= pos.x <= 8,
                -8 <= pos.y <= 8,
                n == N,
                k4_table_law(table@, n, i as int),
                forall|g: K4|
                    g.wf() && 1 <= g.spec_ord() < op_ord ==> !#[trigger] k4_found(n, i as int, g),
            decreases 4 - op_ord,
        {
            let op = K4::from_ord(op_ord);
            let s = pos.apply_k4_e(&op);
            if let Some(j) = Self::computed_index(&s, i) {
                // Every element of K4 is its own inverse.
                let e = table[j].apply(&op);
                proof {
                    lemma_table_index(n, s.pair());
                    lemma_k4_extend_found(table@, n, op, j as int, e);
                    assert(k4_found(n, i as int, op));
                }
                return e;
            }
            proof {
                assert forall|g: K4|
                    g.wf() && 1 <= g.spec_ord() < op_ord + 1 implies !#[trigger] k4_found(
                    n,
                    i as int,
                    g,
                ) by {
                    lemma_k4_ord(g);
                }
            }
            op_ord += 1;
        }
        // Check the 3 nontrivial symmetries for self-mapping.

        let mut op_ord: usize = 1;
        while op_ord < 4
            invariant
                1 <= op_ord <= 4,
                1 <= N <= 16,
                i > 0,
                table.len() == i,
                i < N * N,
                pos.pair() == table_off(n, i as int),
                -8 <= pos.x <= 8,
                -8 <= pos.y <= 8,
                n == N,
                k4_table_law(table@, n, i as int),
                k4b.view_hash() == fresh & E_MASK,
                forall|g: K4|
                    g.wf() && 1 <= g.spec_ord() < 4 ==> !#[trigger] k4_found(n, i as int, g),
                forall|g: K4|
                    g.wf() && 1 <= g.spec_ord() < op_ord ==> #[trigger] k4_image(n, g, i as int)
                        != table_off(n, i as int),
            decreases 4 - op_ord,
        {
            let op = K4::from_ord(op_ord);
            let s = pos.apply_k4_e(&op);
            if s == pos {
                // This tile is symmetric to itself under `op`.
                let e = k4b.make_invariant(&op);
                proof {
                    lemma_k4_make_invariant(op, k4b.view_hash());
                    assert forall|g: K4|
                        g.wf() && g != K4::identity_spec() implies !#[trigger] k4_found(
                        n,
                        i as int,
                        g,
                    ) by {
                        lemma_k4_ord(g);
                    }
                    lemma_k4_ord(op);
                    lemma_k4_self_symmetric(table@, n, op, e);
                    let p = table_off(n, i as int);
                    assert forall|g: K4|
                        g.wf() && g != K4::identity_spec() && #[trigger] k4_image(n, g, i as int)
                            == p implies e.view_hash() == k4_hash_make_invariant(g, fresh & E_MASK) by {
                        lemma_k4_stabilizer(n, i as int, g, op);
                    }
                    assert(k4_image(n, op, i as int) == p);
                    assert(k4_fresh(n, i as int, fresh, e.view_hash()));
                }
                return e;
            }
            proof {
                assert forall|g: K4|
                    g.wf() && 1 <= g.spec_ord() < op_ord + 1 implies #[trigger] k4_image(
                    n,
                    g,
                    i as int,
                ) != table_off(n, i as int) by {
                    lemma_k4_ord(g);
                }
            }
            op_ord += 1;
        }
        // The tile is neither symmetric to itself nor to an earlier tile: use
        // the random hash.
        proof {
            assert forall|g: K4| g.wf() && g != K4::identity_spec() implies !#[trigger] k4_found(
                n,
                i as int,
                g,
            ) && k4_image(n, g, i as int) != table_off(n, i as int) by {
                lemma_k4_ord(g);
            }
            lemma_k4_unique(table@, n, k4b);
            assert(k4_fresh(n, i as int, fresh, k4b.view_hash()));
        }
        k4b
    }

    /// A table of hashes for boards of symmetry class E, drawn from the
    /// generator seeded with `seed`: the first tile hashes to zero.
    fn make_e(seed: [u64; 2]) -> (r: Vec<HashGroup<K4>>)
        requires
            1 <= N <= 16,
        ensures
            is_e_table(r@, N as int, seed[0], seed[1]),
    {
        assert(1 <= N * N <= 256) by (nonlinear_arith)
            requires
                1 <= N <= 16,
        ;
        let mut table: Vec<HashGroup<K4>> = Vec::new();
        let mut rng = Xoroshiro128::from_seed(&seed);
        let mut i: usize = 0;
        while i < N * N
            invariant
                1 <= N <= 16,
                1 <= N * N <= 256,
                i <= N * N,
                table.len() == i,
                k4_table_law(table@, N as int, i as int),
                i > 0 ==> table@[0].view_hash() == 0,
                (rng.state[0], rng.state[1]) == xoroshiro_state(
                    seed[0],
                    seed[1],
                    if i == 0 {
                        0
                    } else {
                        (i - 1) as nat
                    },
                ),
                forall|j: int|
                    1 <= j < i && k4_new_tile(N as int, j) ==> k4_fresh(
                        N as int,
                        j,
                        xoroshiro_nth(seed[0], seed[1], (j - 1) as nat),
                        (#[trigger] table@[j]).view_hash(),
                    ),
            decreases N * N - i,
        {
            let fresh = if i == 0 {
                0
            } else {
                let (next, h) = rng.next_u64();
                rng = next;
                h
            };
            let e = Self::k4_entry(&table, i, fresh);
            table.push(e);
            i += 1;
        }
        table
    }

    /// Generates a hash table for boards with symmetry class E.
    pub fn new_e() -> (r: Self)
        requires
            1 <= N <= 16,
        ensures
            is_e_table(r.cur(), N as int, 0x510e_527f_ade6_82d1, 0x9b05_688c_2b3e_6c1f),
            is_e_table(r.other(), N as int, 0x1f83_d9ab_fb41_bd6b, 0x5be0_cd19_137e_2179),
    {
        HashTable {
            cur_table: Self::make_e([0x510e_527f_ade6_82d1, 0x9b05_688c_2b3e_6c1f]),
            other_table: Self::make_e([0x1f83_d9ab_fb41_bd6b, 0x5be0_cd19_137e_2179]),
        }
    }
}

// ---------------------------------------------------------------------------
// C2 tables: boards whose center of mass lies on one symmetry axis.
// ---------------------------------------------------------------------------

/// The image under `g` of tile `j`, relative to the center.
pub open spec fn c2_image(cls: SymmetryClass, n: int, g: C2, j: int) -> (int, int) {
    c2_apply(cls, g, table_off(n, j).0, table_off(n, j).1)
}

/// The image under `g` of tile `i` is a tile on the table before `i`.
pub open spec fn c2_found(cls: SymmetryClass, n: int, i: int, g: C2) -> bool {
    table_in_bounds(n, c2_image(cls, n, g, i)) && table_index(n, c2_image(cls, n, g, i)) < i
}

/// The first `k` hashes of the table `t` (of width `n`) are symmetric: for
/// every tile `j` and symmetry `g`, the hash of the image of `j` under `g`
/// is `g` applied to the hash of `j`, wherever that image is among the first
/// `k` tiles.
pub open spec fn c2_table_law(cls: SymmetryClass, t: Seq<HashGroup<C2>>, n: int, k: int) -> bool {
    &&& forall|j: int| 0 <= j < k ==> c2_valid(#[trigger] t[j].view_hash())
    &&& forall|j: int, g: C2|
        #![trigger c2_image(cls, n, g, j)]
        0 <= j < k && g.wf() && table_in_bounds(n, c2_image(cls, n, g, j)) && table_index(
            n,
            c2_image(cls, n, g, j),
        ) < k ==> t[table_index(n, c2_image(cls, n, g, j))].view_hash() == c2_hash_apply(
            g,
            t[j].view_hash(),
        )
}

/// Case of `lemma_c2_extend_found` where `g` maps the new tile `i` to an
/// earlier tile `k`: `g = (g h^-1) h`.
#[verifier::spinoff_prover]
#[verifier::rlimit(50)]
proof fn lemma_c2_found_case_b(cls: SymmetryClass, t: Seq<HashGroup<C2>>, n: int, h: C2, j: int, g: C2)
    requires
        1 <= n <= 16,
        t.len() < n * n,
        c2_table_law(cls, t, n, t.len() as int),
        h.wf(),
        g.wf(),
        0 <= j < t.len(),
        table_off(n, j) == c2_image(cls, n, h, t.len() as int),
        table_in_bounds(n, c2_image(cls, n, g, t.len() as int)),
        table_index(n, c2_image(cls, n, g, t.len() as int)) < t.len(),
    ensures
        t[table_index(n, c2_image(cls, n, g, t.len() as int))].view_hash() == c2_hash_apply(
            g,
            c2_hash_apply(h, t[j].view_hash()),
        ),
{
    let i = t.len() as int;
    let p = table_off(n, i);
    let hi = h;
    let q = c2_image(cls, n, g, i);
    lemma_table_coords(n, j);
    lemma_c2_group(h, h, h);
    lemma_c2_action(cls, h, h, p.0, p.1);
    let gh = g.spec_mul(hi);
    lemma_c2_group(g, hi, h);
    lemma_c2_action(cls, g, hi, table_off(n, j).0, table_off(n, j).1);
    assert(c2_image(cls, n, gh, j) == q);
    lemma_c2_hash_action(g, hi, t[j].view_hash());
}

/// Case of `lemma_c2_extend_found` where `g` fixes the new tile `i`: then
/// `h g h^-1` fixes tile `j`, so the hash of `j` is invariant under it.
#[verifier::spinoff_prover]
#[verifier::rlimit(50)]
proof fn lemma_c2_found_case_c(cls: SymmetryClass, t: Seq<HashGroup<C2>>, n: int, h: C2, j: int, g: C2)
    requires
        1 <= n <= 16,
        t.len() < n * n,
        c2_table_law(cls, t, n, t.len() as int),
        h.wf(),
        g.wf(),
        0 <= j < t.len(),
        table_off(n, j) == c2_image(cls, n, h, t.len() as int),
        c2_image(cls, n, g, t.len() as int) == table_off(n, t.len() as int),
    ensures
        c2_hash_apply(h, t[j].view_hash()) == c2_hash_apply(
            g,
            c2_hash_apply(h, t[j].view_hash()),
        ),
{
    let i = t.len() as int;
    let p = table_off(n, i);
    let hi = h;
    lemma_table_coords(n, j);
    lemma_c2_group(h, h, h);
    let c = h.spec_mul(g).spec_mul(hi);
    lemma_c2_group(h, g, hi);
    lemma_c2_action(cls, h.spec_mul(g), hi, table_off(n, j).0, table_off(n, j).1);
    lemma_c2_action(cls, h, h, p.0, p.1);
    lemma_c2_action(cls, h, g, p.0, p.1);
    assert(c2_image(cls, n, c, j) == table_off(n, j));
    assert(t[j].view_hash() == c2_hash_apply(c, t[j].view_hash()));
    // g h^-1 = h^-1 c
    lemma_c2_group(hi, h.spec_mul(g), hi);
    lemma_c2_group(hi, h, g);
    lemma_c2_group(g, hi, hi);
    lemma_c2_group(h.spec_mul(g), hi, hi);
    assert(g.spec_mul(hi) == hi.spec_mul(c));
    lemma_c2_hash_action(g, hi, t[j].view_hash());
    lemma_c2_hash_action(hi, c, t[j].view_hash());
}

/// Case of `lemma_c2_extend_found` where `g` maps an earlier tile `j2` to
/// the new tile `i`: then `h g` maps `j2` to tile `j`.
#[verifier::spinoff_prover]
#[verifier::rlimit(50)]
proof fn lemma_c2_found_case_a(cls: SymmetryClass, t: Seq<HashGroup<C2>>, n: int, h: C2, j: int, g: C2, j2: int)
    requires
        1 <= n <= 16,
        t.len() < n * n,
        c2_table_law(cls, t, n, t.len() as int),
        h.wf(),
        g.wf(),
        0 <= j < t.len(),
        0 <= j2 < t.len(),
        table_off(n, j) == c2_image(cls, n, h, t.len() as int),
        c2_image(cls, n, g, j2) == table_off(n, t.len() as int),
    ensures
        c2_hash_apply(h, t[j].view_hash()) == c2_hash_apply(
            g,
            t[j2].view_hash(),
        ),
{
    let hi = h;
    lemma_table_coords(n, j);
    lemma_c2_group(h, h, h);
    let hg = h.spec_mul(g);
    lemma_c2_group(h, g, h);
    lemma_c2_action(cls, h, g, table_off(n, j2).0, table_off(n, j2).1);
    assert(c2_image(cls, n, hg, j2) == table_off(n, j));
    assert(t[j].view_hash() == c2_hash_apply(hg, t[j2].view_hash()));
    lemma_c2_group(hi, h, g);
    lemma_c2_hash_action(hi, hg, t[j2].view_hash());
}

/// Extending a symmetric table with the hash of tile `i` taken from an
/// earlier tile `j`, the image of `i` under `h`, keeps it symmetric.
#[verifier::spinoff_prover]
#[verifier::rlimit(50)]
proof fn lemma_c2_extend_found(cls: SymmetryClass, t: Seq<HashGroup<C2>>, n: int, h: C2, j: int, e: HashGroup<C2>)
    requires
        1 <= n <= 16,
        t.len() < n * n,
        c2_table_law(cls, t, n, t.len() as int),
        h.wf(),
        0 <= j < t.len(),
        table_off(n, j) == c2_image(cls, n, h, t.len() as int),
        e.view_hash() == c2_hash_apply(h, t[j].view_hash()),
    ensures
        c2_table_law(cls, t.push(e), n, t.len() + 1int),
{
    let i = t.len() as int;
    let t2 = t.push(e);
    lemma_table_coords(n, i);
    lemma_c2_group(h, h, h);
    assert forall|j2: int, g: C2|
        #![trigger c2_image(cls, n, g, j2)]
        0 <= j2 < i + 1 && g.wf() && table_in_bounds(n, c2_image(cls, n, g, j2)) && table_index(
            n,
            c2_image(cls, n, g, j2),
        ) < i + 1 implies t2[table_index(n, c2_image(cls, n, g, j2))].view_hash() == c2_hash_apply(
        g,
        t2[j2].view_hash(),
    ) by {
        let q = c2_image(cls, n, g, j2);
        let k = table_index(n, q);
        lemma_table_index(n, q);
        if j2 < i && k < i {
        } else if j2 == i && k < i {
            lemma_c2_found_case_b(cls, t, n, h, j, g);
        } else if j2 == i && k == i {
            lemma_c2_found_case_c(cls, t, n, h, j, g);
        } else {
            lemma_c2_found_case_a(cls, t, n, h, j, g, j2);
        }
    }
}

/// Extending a symmetric table with a new hash for tile `i`, when no
/// symmetry maps `i` to an earlier tile and the hash is invariant under
/// every symmetry fixing `i`, keeps it symmetric.
#[verifier::spinoff_prover]
#[verifier::rlimit(50)]
proof fn lemma_c2_extend_new(cls: SymmetryClass, t: Seq<HashGroup<C2>>, n: int, e: HashGroup<C2>)
    requires
        1 <= n <= 16,
        t.len() < n * n,
        c2_table_law(cls, t, n, t.len() as int),
        c2_valid(e.view_hash()),
        forall|g: C2| g.wf() ==> !#[trigger] c2_found(cls, n, t.len() as int, g),
        forall|g: C2|
            g.wf() && #[trigger] c2_image(cls, n, g, t.len() as int) == table_off(n, t.len() as int)
                ==> c2_hash_apply(g, e.view_hash()) == e.view_hash(),
    ensures
        c2_table_law(cls, t.push(e), n, t.len() + 1int),
{
    let i = t.len() as int;
    let t2 = t.push(e);
    let p = table_off(n, i);
    lemma_table_coords(n, i);
    assert forall|j2: int, g: C2|
        #![trigger c2_image(cls, n, g, j2)]
        0 <= j2 < i + 1 && g.wf() && table_in_bounds(n, c2_image(cls, n, g, j2)) && table_index(
            n,
            c2_image(cls, n, g, j2),
        ) < i + 1 implies t2[table_index(n, c2_image(cls, n, g, j2))].view_hash() == c2_hash_apply(
        g,
        t2[j2].view_hash(),
    ) by {
        let q = c2_image(cls, n, g, j2);
        let k = table_index(n, q);
        lemma_table_index(n, q);
        if j2 < i && k < i {
        } else if j2 == i && k < i {
            assert(c2_found(cls, n, i, g));
        } else if j2 == i && k == i {
        } else {
            // The inverse of g maps p to the earlier tile j2.
            let gi = g;
            lemma_table_coords(n, j2);
            lemma_c2_group(g, g, g);
            lemma_c2_action(cls, g, g, table_off(n, j2).0, table_off(n, j2).1);
            assert(c2_image(cls, n, gi, i) == table_off(n, j2));
            assert(c2_found(cls, n, i, gi));
        }
    }
}

/// The classes whose symmetry group is C2.
pub open spec fn c2_class(cls: SymmetryClass) -> bool {
    cls == SymmetryClass::CV || cls == SymmetryClass::CE || cls == SymmetryClass::EV
}

/// No symmetry maps tile `i` to an earlier tile: its hash is not taken from
/// an earlier one.
pub open spec fn c2_new_tile(cls: SymmetryClass, n: int, i: int) -> bool {
    forall|g: C2| g.wf() ==> !#[trigger] c2_found(cls, n, i, g)
}

/// `h` is the hash that a new tile `i` gets from the random number `f`: on a
/// tile of the symmetry axis, `f` made invariant under the reflection;
/// elsewhere `f` itself.
pub open spec fn c2_fresh(cls: SymmetryClass, n: int, i: int, f: u64, h: u64) -> bool {
    if c2_image(cls, n, C2(1), i) == table_off(n, i) {
        h == c2_make_a(f)
    } else {
        h == f
    }
}

/// `t` is the class `cls` table of width `n` drawn from the generator with
/// state `(s0, s1)`: it is symmetric, its first tile hashes to zero, and each
/// new tile `i` gets its hash from the `i`-th number drawn (counting from
/// one).
pub open spec fn is_c2_table(cls: SymmetryClass, t: Seq<HashGroup<C2>>, n: int, s0: u64, s1: u64) -> bool {
    &&& t.len() == n * n
    &&& c2_table_law(cls, t, n, n * n)
    &&& t[0].view_hash() == 0
    &&& forall|i: int|
        1 <= i < n * n && c2_new_tile(cls, n, i) ==> c2_fresh(
            cls,
            n,
            i,
            xoroshiro_nth(s0, s1, (i - 1) as nat),
            (#[trigger] t[i]).view_hash(),
        )
}

/// The class `cls` table of width 16 drawn from the generator with state
/// `(s0, s1)`.
pub closed spec fn c2_table(cls: SymmetryClass, s0: u64, s1: u64) -> Seq<HashGroup<C2>> {
    choose|t: Seq<HashGroup<C2>>| is_c2_table(cls, t, 16, s0, s1)
}

/// Two class `cls` tables drawn from the same generator agree on their
/// first `k` tiles.
proof fn lemma_c2_table_prefix(
    cls: SymmetryClass,
    t1: Seq<HashGroup<C2>>,
    t2: Seq<HashGroup<C2>>,
    n: int,
    s0: u64,
    s1: u64,
    k: int,
)
    requires
        1 <= n <= 16,
        0 <= k <= n * n,
        is_c2_table(cls, t1, n, s0, s1),
        is_c2_table(cls, t2, n, s0, s1),
    ensures
        forall|i: int| 0 <= i < k ==> #[trigger] t1[i] == t2[i],
    decreases k,
{
    if k > 0 {
        lemma_c2_table_prefix(cls, t1, t2, n, s0, s1, k - 1);
        let i = k - 1;
        t1[i].lemma_view_hash_eq(t2[i]);
        if i == 0 {
        } else if c2_new_tile(cls, n, i) {
        } else {
            let g = choose|g: C2| g.wf() && #[trigger] c2_found(cls, n, i, g);
            let m = table_index(n, c2_image(cls, n, g, i));
            assert(t1[m] == t2[m]);
            let h1 = t1[i].view_hash();
            let h2 = t2[i].view_hash();
            assert(t1[m].view_hash() == c2_hash_apply(g, h1));
            assert(t2[m].view_hash() == c2_hash_apply(g, h2));
            lemma_c2_group(g, g, g);
            lemma_c2_hash_action(g, g, h1);
            lemma_c2_hash_action(g, g, h2);
        }
    }
}

/// There is one class `cls` table of width 16 for each generator state.
pub proof fn lemma_c2_table_unique(cls: SymmetryClass, t: Seq<HashGroup<C2>>, s0: u64, s1: u64)
    requires
        is_c2_table(cls, t, 16, s0, s1),
    ensures
        c2_table(cls, s0, s1) == t,
{
    let c = c2_table(cls, s0, s1);
    assert(is_c2_table(cls, c, 16, s0, s1));
    lemma_c2_table_prefix(cls, t, c, 16, s0, s1, 256);
    assert(t =~= c);
}

/// On symmetric class CV, CE or EV tables, two boards whose pawns lie at the
/// images under `g` of each other's tiles hash to the images under `g` of
/// each other's hashes: pawn `j` of the second board lies at the image of
/// the tile of pawn `j` of the first, both on the table.
pub proof fn lemma_board_hash_c2(
    cls: SymmetryClass,
    cur: Seq<HashGroup<C2>>,
    other: Seq<HashGroup<C2>>,
    poses1: Seq<PackedIdx>,
    poses2: Seq<PackedIdx>,
    k: int,
    origin1: (int, int),
    origin2: (int, int),
    op1: D6,
    op2: D6,
    cur_par: int,
    g: C2,
)
    requires
        g.wf(),
        cur.len() == 256,
        other.len() == 256,
        c2_table_law(cls, cur, 16, 256),
        c2_table_law(cls, other, 16, 256),
        forall|j: int|
            0 <= j < k ==> table_in_bounds(16, #[trigger] normalized_pos(poses1[j], origin1, op1))
                && table_in_bounds(16, normalized_pos(poses2[j], origin2, op2)) && normalized_pos(
                poses2[j],
                origin2,
                op2,
            ) == c2_apply(
                cls, g,
                normalized_pos(poses1[j], origin1, op1).0,
                normalized_pos(poses1[j], origin1, op1).1,
            ),
    ensures
        c2_valid(board_hash_spec(cur, other, 16, poses1, k, origin1, op1, cur_par)),
        board_hash_spec(cur, other, 16, poses2, k, origin2, op2, cur_par) == c2_hash_apply(
            g,
            board_hash_spec(cur, other, 16, poses1, k, origin1, op1, cur_par),
        ),
    decreases k,
{
    if k <= 0 {
        lemma_c2_hash_xor(g, 0, 0);
    } else {
        lemma_board_hash_c2(cls, cur, other, poses1, poses2, k - 1, origin1, origin2, op1, op2, cur_par, g);
        let j = k - 1;
        let t = if j % 2 == cur_par {
            cur
        } else {
            other
        };
        let q1 = normalized_pos(poses1[j], origin1, op1);
        let q2 = normalized_pos(poses2[j], origin2, op2);
        lemma_table_index(16, q1);
        lemma_table_index(16, q2);
        let j1 = table_index(16, q1);
        assert(c2_image(cls, 16, g, j1) == q2);
        let h1 = t[j1].view_hash();
        assert(c2_valid(h1));
        assert(t[table_index(16, q2)].view_hash() == c2_hash_apply(g, h1));
        assert(pawn_hash_spec(t, 16, poses1[j], origin1, op1) == h1);
        assert(pawn_hash_spec(t, 16, poses2[j], origin2, op2) == c2_hash_apply(g, h1));
        let b1 = board_hash_spec(cur, other, 16, poses1, j, origin1, op1, cur_par);
        lemma_c2_hash_xor(g, b1, h1);
    }
}

impl<const N: usize> HashTable<N, C2> {
    /// Applies `op` about the symmetry axis of class `cls`.
    fn apply_c2(cls: SymmetryClass, pos: &HexPosOffset, op: &C2) -> (r: HexPosOffset)
        requires
            pos.small(),
            op.wf(),
        ensures
            r.pair() == c2_apply(cls, *op, pos.x as int, pos.y as int),
    {
        match cls {
            SymmetryClass::CV => pos.apply_c2_cv(op),
            SymmetryClass::CE => pos.apply_c2_ce(op),
            _ => pos.apply_c2_ev(op),
        }
    }

    /// The hash of tile `i`, given the hashes of the tiles before it and a
    /// freshly drawn random number.
    #[verifier::spinoff_prover]
    #[verifier::rlimit(40)]
    fn c2_entry(cls: SymmetryClass, table: &Vec<HashGroup<C2>>, i: usize, fresh: u64) -> (r:
        HashGroup<C2>)
        requires
            1 <= N <= 16,
            table.len() == i,
            i < N * N,
            c2_table_law(cls, table@, N as int, i as int),
        ensures
            c2_table_law(cls, table@.push(r), N as int, i + 1),
            i == 0 ==> r.view_hash() == 0,
            i > 0 && c2_new_tile(cls, N as int, i as int) ==> c2_fresh(
                cls,
                N as int,
                i as int,
                fresh,
                r.view_hash(),
            ),
    {
        let ghost n = N as int;
        let pos = Self::tile_offset(i);
        if i == 0 {
            let r = HashGroup::<C2>::new(0);
            proof {
                assert(crate::tile_hash::c2_a(0) == 0) by (bit_vector);
                lemma_c2_extend_new(cls, table@, n, r);
            }
            return r;
        }
        let c2b = HashGroup::<C2>::new(fresh);
        // Check the symmetry for self-mapping and existing hashes.
        let op = C2(1);
        let s = Self::apply_c2(cls, &pos, &op);
        proof {
            lemma_table_coords(n, i as int);
            assert(c2_image(cls, n, C2(0), i as int) == table_off(n, i as int));
        }
        if s == pos {
            let e = c2b.make_invariant(&op);
            proof {
                lemma_c2_make_invariant(c2b.view_hash());
                assert forall|g: C2| g.wf() implies !#[trigger] c2_found(cls, n, i as int, g) by {
                    assert(c2_image(cls, n, g, i as int) == table_off(n, i as int));
                }
                lemma_c2_extend_new(cls, table@, n, e);
            }
            e
        } else if let Some(j) = Self::computed_index(&s, i) {
            // The symmetry is its own inverse.
            let e = table[j].apply(&op);
            proof {
                lemma_table_index(n, s.pair());
                lemma_c2_extend_found(cls, table@, n, op, j as int, e);
                assert(c2_found(cls, n, i as int, op));
            }
            e
        } else {
            proof {
                assert forall|g: C2| g.wf() implies !#[trigger] c2_found(cls, n, i as int, g) by {
                    if g.0 == 1 {
                        assert(g == op);
                    }
                }
                assert forall|g: C2|
                    g.wf() && #[trigger] c2_image(cls, n, g, i as int) == table_off(
                        n,
                        i as int,
                    ) implies c2_hash_apply(g, c2b.view_hash()) == c2b.view_hash() by {
                    if g.0 == 1 {
                        assert(g == op);
                    }
                }
                lemma_c2_extend_new(cls, table@, n, c2b);
            }
            c2b
        }
    }

    /// A table of hashes for boards of class `cls` (CV, CE or EV), drawn
    /// from `rng`: the first tile hashes to zero. The other classes have no
    /// such table.
    fn make_c2(cls: SymmetryClass, rng: Xoroshiro128) -> (r: Vec<HashGroup<C2>>)
        requires
            1 <= N <= 16,
            c2_class(cls),
        ensures
            is_c2_table(cls, r@, N as int, rng.state[0], rng.state[1]),
    {
        assert(1 <= N * N <= 256) by (nonlinear_arith)
            requires
                1 <= N <= 16,
        ;
        let ghost s0 = rng.state[0];
        let ghost s1 = rng.state[1];
        let mut rng = rng;
        let mut table: Vec<HashGroup<C2>> = Vec::new();
        let mut i: usize = 0;
        while i < N * N
            invariant
                1 <= N <= 16,
                1 <= N * N <= 256,
                i <= N * N,
                table.len() == i,
                c2_table_law(cls, table@, N as int, i as int),
                i > 0 ==> table@[0].view_hash() == 0,
                (rng.state[0], rng.state[1]) == xoroshiro_state(
                    s0,
                    s1,
                    if i == 0 {
                        0
                    } else {
                        (i - 1) as nat
                    },
                ),
                forall|j: int|
                    1 <= j < i && c2_new_tile(cls, N as int, j) ==> c2_fresh(
                        cls,
                        N as int,
                        j,
                        xoroshiro_nth(s0, s1, (j - 1) as nat),
                        (#[trigger] table@[j]).view_hash(),
                    ),
            decreases N * N - i,
        {
            let fresh = if i == 0 {
                0
            } else {
                let (next, h) = rng.next_u64();
                rng = next;
                h
            };
            let e = Self::c2_entry(cls, &table, i, fresh);
            table.push(e);
            i += 1;
        }
        table
    }

    /// A hash table for boards of class `cls`, both of whose tables are
    /// drawn from the same generator state.
    fn new_c2(cls: SymmetryClass, seed: [u64; 2]) -> (r: Self)
        requires
            1 <= N <= 16,
            c2_class(cls),
        ensures
            is_c2_table(cls, r.cur(), N as int, seed[0], seed[1]),
            is_c2_table(cls, r.other(), N as int, seed[0], seed[1]),
    {
        let rng = Xoroshiro128::from_seed(&seed);
        HashTable { cur_table: Self::make_c2(cls, rng), other_table: Self::make_c2(cls, rng) }
    }

    /// Generates a hash table for boards with symmetry class CV.
    pub fn new_cv() -> (r: Self)
        requires
            1 <= N <= 16,
        ensures
            is_c2_table(SymmetryClass::CV, r.cur(), N as int, 0xcbbb_9d5d_c105_9ed8, 0x629a_292a_367c_d507),
            is_c2_table(SymmetryClass::CV, r.other(), N as int, 0xcbbb_9d5d_c105_9ed8, 0x629a_292a_367c_d507),
    {
        Self::new_c2(SymmetryClass::CV, [0xcbbb_9d5d_c105_9ed8, 0x629a_292a_367c_d507])
    }

    /// Generates a hash table for boards with symmetry class CE.
    pub fn new_ce() -> (r: Self)
        requires
            1 <= N <= 16,
        ensures
            is_c2_table(SymmetryClass::CE, r.cur(), N as int, 0x9159_015a_3070_dd17, 0x152f_ecd8_f70e_5939),
            is_c2_table(SymmetryClass::CE, r.other(), N as int, 0x9159_015a_3070_dd17, 0x152f_ecd8_f70e_5939),
    {
        Self::new_c2(SymmetryClass::CE, [0x9159_015a_3070_dd17, 0x152f_ecd8_f70e_5939])
    }

    /// Generates a hash table for boards with symmetry class EV.
    pub fn new_ev() -> (r: Self)
        requires
            1 <= N <= 16,
        ensures
            is_c2_table(SymmetryClass::EV, r.cur(), N as int, 0x6733_2667_ffc0_0b31, 0x8eb4_4a87_6858_1511),
            is_c2_table(SymmetryClass::EV, r.other(), N as int, 0x6733_2667_ffc0_0b31, 0x8eb4_4a87_6858_1511),
    {
        Self::new_c2(SymmetryClass::EV, [0x6733_2667_ffc0_0b31, 0x8eb4_4a87_6858_1511])
    }
}

/// `t` is the table of width `n` for boards without symmetry drawn from the
/// generator with state `(s0, s1)`: its first tile hashes to zero, and tile
/// `i` to the `i`-th number drawn (counting from one).
pub open spec fn is_trivial_table(t: Seq<HashGroup<Trivial>>, n: int, s0: u64, s1: u64) -> bool {
    &&& t.len() == n * n
    &&& t[0].view_hash() == 0
    &&& forall|i: int|
        1 <= i < n * n ==> #[trigger] t[i].view_hash() == xoroshiro_nth(s0, s1, (i - 1) as nat)
}

/// The table of width 16 for boards without symmetry drawn from the
/// generator with state `(s0, s1)`.
pub closed spec fn trivial_table(s0: u64, s1: u64) -> Seq<HashGroup<Trivial>> {
    choose|t: Seq<HashGroup<Trivial>>| is_trivial_table(t, 16, s0, s1)
}

/// There is one table of width 16 for boards without symmetry for each
/// generator state.
pub proof fn lemma_trivial_table_unique(t: Seq<HashGroup<Trivial>>, s0: u64, s1: u64)
    requires
        is_trivial_table(t, 16, s0, s1),
    ensures
        trivial_table(s0, s1) == t,
{
    let c = trivial_table(s0, s1);
    assert(is_trivial_table(c, 16, s0, s1));
    assert forall|i: int| 0 <= i < 256 implies #[trigger] t[i] == c[i] by {
        t[i].lemma_view_hash_eq(c[i]);
    }
    assert(t =~= c);
}

impl<const N: usize> HashTable<N, Trivial> {
    /// A table of hashes for boards without symmetry: the first tile hashes
    /// to zero, and tile `i` to the `i - 1`-th number drawn from the
    /// generator seeded with `seed`.
    fn make_trivial(seed: [u64; 2]) -> (r: Vec<HashGroup<Trivial>>)
        requires
            1 <= N <= 16,
        ensures
            r.len() == N * N,
            r@[0].view_hash() == 0,
            forall|i: int|
                1 <= i < N * N ==> #[trigger] r@[i].view_hash() == xoroshiro_nth(
                    seed[0],
                    seed[1],
                    (i - 1) as nat,
                ),
    {
        assert(1 <= N * N <= 256) by (nonlinear_arith)
            requires
                1 <= N <= 16,
        ;
        let mut table: Vec<HashGroup<Trivial>> = Vec::new();
        let mut rng = Xoroshiro128::from_seed(&seed);
        table.push(HashGroup::<Trivial>::new(0));
        let mut i: usize = 1;
        while i < N * N
            invariant
                1 <= N <= 16,
                1 <= N * N <= 256,
                1 <= i <= N * N,
                table.len() == i,
                table@[0].view_hash() == 0,
                (rng.state[0], rng.state[1]) == xoroshiro_state(seed[0], seed[1], (i - 1) as nat),
                forall|k: int|
                    1 <= k < i ==> #[trigger] table@[k].view_hash() == xoroshiro_nth(
                        seed[0],
                        seed[1],
                        (k - 1) as nat,
                    ),
            decreases N * N - i,
        {
            let (next, h) = rng.next_u64();
            rng = next;
            table.push(HashGroup::<Trivial>::new(h));
            i += 1;
        }
        table
    }

    /// Generates a hash table for boards with trivial symmetry class.
    pub fn new_trivial() -> (r: Self)
        requires
            1 <= N <= 16,
        ensures
            is_trivial_table(r.cur(), N as int, 0x243f_6a88_85a3_08d3, 0x1319_8a2e_0370_7344),
            is_trivial_table(r.other(), N as int, 0xa409_3822_299f_31d0, 0x082e_fa98_ec4e_6c89),
    {
        HashTable {
            cur_table: Self::make_trivial([0x243f_6a88_85a3_08d3, 0x1319_8a2e_0370_7344]),
            other_table: Self::make_trivial([0xa409_3822_299f_31d0, 0x082e_fa98_ec4e_6c89]),
        }
    }
}

} // verus!
