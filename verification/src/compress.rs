use vstd::prelude::*;

use crate::error::OnoroError;
use crate::hex_pos::HexPosOffset;
use crate::hex_pos::neighbor_dir;
use crate::onoro::{Pawn, PawnColor, TileState};
use crate::onoro_impl::OnoroImpl;
use crate::onoro_initialize::{black_count, color_tile, counts_balanced, distinct_positions, pawns_fit_inside, placed_tile};
use crate::onoro_view::{pawn_color_spec, OnoroView};

verus! {

/// A game state that can be packed into a compact representation and
/// unpacked from it.
pub trait Compress: Sized {
    type Repr;

    fn compress(&self) -> Self::Repr;

    fn decompress(repr: Self::Repr) -> Result<Self, OnoroError>;
}

/// `(x1, y1)` comes before `(x2, y2)` ordering by x and then y.
pub open spec fn lex_le(x1: int, y1: int, x2: int, y2: int) -> bool {
    x1 < x2 || (x1 == x2 && y1 <= y2)
}

/// Pawn `s` of `onoro` is at the first position, ordering by x and then y.
pub open spec fn is_start_pawn<const N: usize>(onoro: OnoroImpl<N>, s: int) -> bool {
    &&& 0 <= s < onoro.n_spec()
    &&& forall|j: int|
        0 <= j < onoro.n_spec() ==> lex_le(
            onoro.poses()[s].sx(),
            onoro.poses()[s].sy(),
            #[trigger] onoro.poses()[j].sx(),
            onoro.poses()[j].sy(),
        )
}

/// The number of set bits of `x` among its `k` lowest bits.
pub open spec fn popcount_spec(x: u64, k: nat) -> nat
    decreases k,
{
    if k == 0 {
        0
    } else {
        popcount_spec(x, (k - 1) as nat) + (if (x >> ((k - 1) as u64)) & 1 == 1 {
            1nat
        } else {
            0nat
        })
    }
}

/// The number of set bits of `x`.
pub fn count_ones(x: u64) -> (r: u32)
    ensures
        r == popcount_spec(x, 64),
{
    let mut count: u32 = 0;
    let mut i: u64 = 0;
    while i < 64
        invariant
            i <= 64,
            count == popcount_spec(x, i as nat),
            count <= i,
        decreases 64 - i,
    {
        if (x >> i) & 1 == 1 {
            count += 1;
        }
        i += 1;
    }
    count
}

/// The index in `tiles` of the tile at `pos`, if it is known.
fn find_tile(tiles: &Vec<(HexPosOffset, TileState)>, pos: &HexPosOffset) -> (r: Option<usize>)
    ensures
        match r {
            Some(i) => i < tiles.len() && tiles[i as int].0 == *pos,
            None => forall|i: int| 0 <= i < tiles.len() ==> tiles[i].0 != *pos,
        },
{
    let mut i: usize = 0;
    while i < tiles.len()
        invariant
            i <= tiles.len(),
            forall|j: int| 0 <= j < i ==> tiles[j].0 != *pos,
        decreases tiles.len() - i,
    {
        if tiles[i].0 == *pos {
            return Some(i);
        }
        i += 1;
    }
    None
}

/// The number of black pawns among `pawns`.
fn count_black(pawns: &Vec<(HexPosOffset, PawnColor)>) -> (r: usize)
    ensures
        r == black_count(pawns@, pawns.len() as int),
{
    let mut count: usize = 0;
    let mut i: usize = 0;
    while i < pawns.len()
        invariant
            i <= pawns.len(),
            count == black_count(pawns@, i as int),
            count <= i,
        decreases pawns.len() - i,
    {
        if pawns[i].1 == PawnColor::Black {
            count += 1;
        }
        i += 1;
    }
    count
}

/// The walk that `compress` makes over the board: the tiles seen so far, the
/// pawns still to visit, and the color bits (set for black) and position bits
/// (set for a pawn) written so far.
pub struct CompressWalk {
    pub known: Seq<HexPosOffset>,
    pub stack: Seq<HexPosOffset>,
    pub colors: Seq<bool>,
    pub positions: Seq<bool>,
}

/// Whether a pawn of `g` is at `p`, and if so whether it is black.
pub open spec fn pawn_at<const N: usize>(g: OnoroImpl<N>, p: HexPosOffset) -> Option<bool> {
    if exists|i: int|
        0 <= i < g.n_spec() && #[trigger] g.poses()[i].sx() == p.x && g.poses()[i].sy() == p.y {
        let i = choose|i: int|
            0 <= i < g.n_spec() && #[trigger] g.poses()[i].sx() == p.x && g.poses()[i].sy() == p.y;
        Some(i % 2 == 0)
    } else {
        None
    }
}

/// The position `d` away from `p`.
pub open spec fn offset(p: HexPosOffset, d: (int, int)) -> HexPosOffset {
    HexPosOffset { x: (p.x + d.0) as i32, y: (p.y + d.1) as i32 }
}

/// The walk visits tile `q`: a tile seen before is skipped; otherwise it
/// writes a position bit, and for a pawn a color bit, and stacks the pawn.
pub open spec fn walk_visit<const N: usize>(
    g: OnoroImpl<N>,
    w: CompressWalk,
    q: HexPosOffset,
) -> CompressWalk {
    if w.known.contains(q) {
        w
    } else {
        match pawn_at(g, q) {
            Some(black) => CompressWalk {
                known: w.known.push(q),
                stack: w.stack.push(q),
                colors: w.colors.push(black),
                positions: w.positions.push(true),
            },
            None => CompressWalk {
                known: w.known.push(q),
                stack: w.stack,
                colors: w.colors,
                positions: w.positions.push(false),
            },
        }
    }
}

/// The walk visits the first `k` neighbors of `p`, in the order of
/// `neighbor_dir`.
pub open spec fn walk_neighbors<const N: usize>(
    g: OnoroImpl<N>,
    w: CompressWalk,
    p: HexPosOffset,
    k: nat,
) -> CompressWalk
    decreases k,
{
    if k == 0 {
        w
    } else {
        walk_visit(g, walk_neighbors(g, w, p, (k - 1) as nat), offset(p, neighbor_dir(k - 1)))
    }
}

/// One step of the walk: the pawn on top of the stack is taken off and its
/// six neighbors are visited.
pub open spec fn walk_step<const N: usize>(g: OnoroImpl<N>, w: CompressWalk) -> CompressWalk {
    walk_neighbors(
        g,
        CompressWalk { known: w.known, stack: w.stack.drop_last(), colors: w.colors, positions: w.positions },
        w.stack.last(),
        6,
    )
}

/// The walk after `steps` steps, or after its stack ran empty.
pub open spec fn walk<const N: usize>(g: OnoroImpl<N>, w: CompressWalk, steps: nat) -> CompressWalk
    decreases steps,
{
    if steps == 0 {
        w
    } else {
        let prev = walk(g, w, (steps - 1) as nat);
        if prev.stack.len() == 0 {
            prev
        } else {
            walk_step(g, prev)
        }
    }
}

/// The pawn at the first position, ordering by x and then y.
pub open spec fn start_pawn<const N: usize>(g: OnoroImpl<N>) -> int {
    choose|s: int| is_start_pawn(g, s)
}

/// The walk starts at the first pawn, with the tiles left of and below it
/// counted as seen.
pub open spec fn walk_start<const N: usize>(g: OnoroImpl<N>) -> CompressWalk {
    let s = start_pawn(g);
    let p = HexPosOffset { x: g.poses()[s].sx() as i32, y: g.poses()[s].sy() as i32 };
    CompressWalk {
        known: seq![p, offset(p, (-1, 0)), offset(p, (-1, -1)), offset(p, (0, -1))],
        stack: seq![p],
        colors: seq![s % 2 == 0],
        positions: Seq::empty(),
    }
}

/// The bits that `compress` writes, lowest first: the color bits and then the
/// position bits of the walk from the first pawn.
pub open spec fn compress_bits<const N: usize>(g: OnoroImpl<N>) -> Seq<bool> {
    let w = walk(g, walk_start(g), 16);
    w.colors + w.positions
}

/// Bit `i` of `r` is set.
pub open spec fn bit_set(r: u64, i: u64) -> bool {
    (r >> i) & 1 == 1
}

proof fn lemma_set_bit(acc: u64, idx: u64, i: u64)
    by (bit_vector)
    requires
        idx < 64,
        i < 64,
    ensures
        ((acc | (1u64 << idx)) >> i) & 1 == 1 <==> ((acc >> i) & 1 == 1 || i == idx),
{
}

proof fn lemma_zero_bits(i: u64)
    by (bit_vector)
    requires
        i < 64,
    ensures
        (0u64 >> i) & 1 != 1,
{
}

/// The walk does not change once its stack is empty.
pub(crate) proof fn lemma_walk_stops<const N: usize>(g: OnoroImpl<N>, w: CompressWalk, a: nat, b: nat)
    requires
        a <= b,
        walk(g, w, a).stack.len() == 0,
    ensures
        walk(g, w, b) == walk(g, w, a),
    decreases b - a,
{
    if a < b {
        lemma_walk_stops(g, w, a, (b - 1) as nat);
    }
}

/// The positions of the pawns of `g`.
pub open spec fn pawn_positions<const N: usize>(g: OnoroImpl<N>) -> Set<HexPosOffset> {
    Set::new(|p: HexPosOffset| pawn_at(g, p) is Some)
}

/// The pawns that the walk has found.
pub open spec fn found_pawns<const N: usize>(g: OnoroImpl<N>, w: CompressWalk) -> Set<HexPosOffset> {
    Set::new(|p: HexPosOffset| w.known.contains(p) && pawn_at(g, p) is Some)
}

/// The walk has written one color bit for each pawn it found, and has taken
/// `steps` pawns off of its stack.
pub open spec fn walk_counts<const N: usize>(g: OnoroImpl<N>, w: CompressWalk, steps: int) -> bool {
    &&& found_pawns(g, w).finite()
    &&& w.colors.len() == found_pawns(g, w).len()
    &&& w.colors.len() - w.stack.len() == steps
}

/// There are at most as many pawn positions as pawns.
proof fn lemma_pawn_positions_bound<const N: usize>(g: OnoroImpl<N>)
    requires
        g.wf(),
    ensures
        pawn_positions(g).finite(),
        pawn_positions(g).len() <= g.n_spec(),
{
    let n = g.n_spec();
    let f = |i: int| HexPosOffset { x: g.poses()[i].sx() as i32, y: g.poses()[i].sy() as i32 };
    let range = vstd::set_lib::set_int_range(0, n as int);
    vstd::set_lib::lemma_int_range(0, n as int);
    assert forall|p: HexPosOffset| pawn_positions(g).contains(p) <==> #[trigger] range.map(f).contains(p) by {
        if pawn_positions(g).contains(p) {
            let i = choose|i: int|
                0 <= i < g.n_spec() && #[trigger] g.poses()[i].sx() == p.x && g.poses()[i].sy() == p.y;
            g.poses()[i].lemma_raw();
            assert(range.contains(i));
            assert(f(i) == p);
        }
        if range.map(f).contains(p) {
            let i = choose|i: int| range.contains(i) && f(i) == p;
            g.poses()[i].lemma_raw();
            assert(g.poses()[i].sx() == p.x && g.poses()[i].sy() == p.y);
        }
    }
    assert(range.map(f) =~= pawn_positions(g));
    vstd::set_lib::lemma_map_size_bound(range, pawn_positions(g), f);
}

/// Visiting a tile keeps the counts of the walk.
proof fn lemma_visit_counts<const N: usize>(g: OnoroImpl<N>, w: CompressWalk, q: HexPosOffset, steps: int)
    requires
        walk_counts(g, w, steps),
    ensures
        walk_counts(g, walk_visit(g, w, q), steps),
{
    let w2 = walk_visit(g, w, q);
    if !w.known.contains(q) {
        if pawn_at(g, q) is Some {
            assert forall|p: HexPosOffset| #[trigger] found_pawns(g, w2).contains(p) <==> found_pawns(g, w).insert(q).contains(p) by {
                if w.known.contains(p) {
                    let i = choose|i: int| 0 <= i < w.known.len() && w.known[i] == p;
                    assert(w2.known[i] == p);
                }
                if w2.known.contains(p) && p != q {
                    let i = choose|i: int| 0 <= i < w2.known.len() && w2.known[i] == p;
                    assert(w.known[i] == p);
                }
                assert(w2.known[w.known.len() as int] == q);
            }
            assert(found_pawns(g, w2) =~= found_pawns(g, w).insert(q));
            assert(!found_pawns(g, w).contains(q));
        } else {
            assert forall|p: HexPosOffset| #[trigger] found_pawns(g, w2).contains(p) <==> found_pawns(g, w).contains(p) by {
                if w.known.contains(p) {
                    let i = choose|i: int| 0 <= i < w.known.len() && w.known[i] == p;
                    assert(w2.known[i] == p);
                }
                if w2.known.contains(p) && p != q {
                    let i = choose|i: int| 0 <= i < w2.known.len() && w2.known[i] == p;
                    assert(w.known[i] == p);
                }
            }
            assert(found_pawns(g, w2) =~= found_pawns(g, w));
        }
    }
}

/// Visiting neighbors keeps the counts of the walk.
proof fn lemma_neighbors_counts<const N: usize>(
    g: OnoroImpl<N>,
    w: CompressWalk,
    p: HexPosOffset,
    k: nat,
    steps: int,
)
    requires
        walk_counts(g, w, steps),
    ensures
        walk_counts(g, walk_neighbors(g, w, p, k), steps),
    decreases k,
{
    if k > 0 {
        lemma_neighbors_counts(g, w, p, (k - 1) as nat, steps);
        lemma_visit_counts(g, walk_neighbors(g, w, p, (k - 1) as nat), offset(p, neighbor_dir(k - 1)), steps);
    }
}

/// The walk from the first pawn has found one pawn and taken none off of
/// its stack.
proof fn lemma_start_counts<const N: usize>(g: OnoroImpl<N>)
    requires
        g.wf(),
        is_start_pawn(g, start_pawn(g)),
    ensures
        walk_counts(g, walk_start(g), 0),
{
    let s = start_pawn(g);
    let w = walk_start(g);
    let p = w.stack[0];
    g.poses()[s].lemma_raw();
    assert(pawn_at(g, p) is Some);
    assert forall|q: HexPosOffset| #[trigger] found_pawns(g, w).contains(q) <==> set![p].contains(q) by {
        if found_pawns(g, w).contains(q) && q != p {
            let i = choose|i: int| 0 <= i < w.known.len() && w.known[i] == q;
            let j = choose|j: int|
                0 <= j < g.n_spec() && #[trigger] g.poses()[j].sx() == q.x && g.poses()[j].sy() == q.y;
            assert(lex_le(g.poses()[s].sx(), g.poses()[s].sy(), g.poses()[j].sx(), g.poses()[j].sy()));
        }
        if q == p {
            assert(w.known[0] == p);
        }
    }
    assert(found_pawns(g, w) =~= set![p]);
}

/// Each step of the walk takes one pawn off of its stack until it is empty.
pub(crate) proof fn lemma_walk_counts<const N: usize>(g: OnoroImpl<N>, steps: nat)
    requires
        g.wf(),
        is_start_pawn(g, start_pawn(g)),
    ensures
        walk(g, walk_start(g), steps).stack.len() == 0 || walk_counts(
            g,
            walk(g, walk_start(g), steps),
            steps as int,
        ),
        (steps == 0 || walk(g, walk_start(g), (steps - 1) as nat).stack.len() != 0) ==> walk_counts(
            g,
            walk(g, walk_start(g), steps),
            steps as int,
        ),
    decreases steps,
{
    if steps == 0 {
        lemma_start_counts(g);
    } else {
        lemma_walk_counts(g, (steps - 1) as nat);
        let prev = walk(g, walk_start(g), (steps - 1) as nat);
        if prev.stack.len() != 0 {
            let popped = CompressWalk {
                known: prev.known,
                stack: prev.stack.drop_last(),
                colors: prev.colors,
                positions: prev.positions,
            };
            assert(found_pawns(g, popped) =~= found_pawns(g, prev));
            lemma_neighbors_counts(g, popped, prev.stack.last(), 6, steps as int);
        }
    }
}

/// The walk ends within as many steps as there are pawns.
pub(crate) proof fn lemma_walk_ends<const N: usize>(g: OnoroImpl<N>)
    requires
        g.wf(),
        is_start_pawn(g, start_pawn(g)),
    ensures
        walk(g, walk_start(g), g.n_spec() as nat).stack.len() == 0,
{
    let n = g.n_spec() as nat;
    lemma_walk_counts(g, n);
    lemma_pawn_positions_bound(g);
    let w = walk(g, walk_start(g), n);
    if w.stack.len() != 0 {
        assert(found_pawns(g, w).subset_of(pawn_positions(g)));
        vstd::set_lib::lemma_len_subset(found_pawns(g, w), pawn_positions(g));
    }
}

/// The index of the pawn at the first position, ordering by x and then y.
fn first_pawn<const N: usize>(onoro: &OnoroImpl<N>, pawns: &Vec<Pawn>) -> (r: usize)
    requires
        onoro.wf(),
        pawns.len() == onoro.n_spec(),
        forall|j: int| 0 <= j < pawns.len() ==> (#[trigger] pawns[j]).pos == onoro.poses()[j],
    ensures
        is_start_pawn(*onoro, r as int),
        r as int == start_pawn(*onoro),
{
    let mut start: usize = 0;
    let mut i: usize = 1;
    while i < pawns.len()
        invariant
            onoro.wf(),
            pawns.len() == onoro.n_spec(),
            forall|j: int| 0 <= j < pawns.len() ==> (#[trigger] pawns[j]).pos == onoro.poses()[j],
            1 <= i <= pawns.len(),
            start < i,
            forall|j: int|
                0 <= j < i ==> lex_le(
                    onoro.poses()[start as int].sx(),
                    onoro.poses()[start as int].sy(),
                    #[trigger] onoro.poses()[j].sx(),
                    onoro.poses()[j].sy(),
                ),
        decreases pawns.len() - i,
    {
        let (x, y) = (pawns[i].pos.x(), pawns[i].pos.y());
        let (bx, by) = (pawns[start].pos.x(), pawns[start].pos.y());
        if x < bx || (x == bx && y < by) {
            start = i;
        }
        i += 1;
    }
    proof {
        let g = *onoro;
        assert(is_start_pawn(g, start as int));
        let c = start_pawn(g);
        assert(is_start_pawn(g, c));
        let ps = g.poses();
        assert(lex_le(ps[c].sx(), ps[c].sy(), ps[start as int].sx(), ps[start as int].sy()));
        assert(lex_le(ps[start as int].sx(), ps[start as int].sy(), ps[c].sx(), ps[c].sy()));
        ps[c].lemma_coords_eq(ps[start as int]);
        if c != start {
            if c < start {
                assert(ps[c] != ps[start as int]);
            } else {
                assert(ps[start as int] != ps[c]);
            }
        }
    }
    start
}

/// Whether a pawn is at `pos`, and if so whether it is black.
fn find_pawn<const N: usize>(onoro: &OnoroImpl<N>, pawns: &Vec<Pawn>, pos: HexPosOffset) -> (r:
    Option<bool>)
    requires
        onoro.wf(),
        pawns.len() == onoro.n_spec(),
        forall|j: int|
            0 <= j < pawns.len() ==> (#[trigger] pawns[j]).pos == onoro.poses()[j] && pawns[j].color
                == pawn_color_spec(j),
    ensures
        r == pawn_at(*onoro, pos),
{
    let ghost g = *onoro;
    let mut found: Option<bool> = None;
    let ghost mut at: int = 0;
    let mut p: usize = 0;
    while p < pawns.len()
        invariant
            p <= pawns.len(),
            pawns.len() == g.n_spec(),
            forall|j: int|
                0 <= j < pawns.len() ==> (#[trigger] pawns[j]).pos == g.poses()[j] && pawns[j].color
                    == pawn_color_spec(j),
            found is None <==> forall|j: int|
                0 <= j < p ==> !(#[trigger] g.poses()[j].sx() == pos.x && g.poses()[j].sy() == pos.y),
            found is Some ==> 0 <= at < p && g.poses()[at].sx() == pos.x && g.poses()[at].sy() == pos.y
                && found == Some(at % 2 == 0),
        decreases pawns.len() - p,
    {
        if pawns[p].pos.x() as i32 == pos.x && pawns[p].pos.y() as i32 == pos.y {
            found = Some(pawns[p].color == PawnColor::Black);
            proof {
                at = p as int;
            }
        }
        p += 1;
    }
    proof {
        if found is Some {
            assert(g.poses()[at].sx() == pos.x && g.poses()[at].sy() == pos.y);
            let c = choose|i: int|
                0 <= i < g.n_spec() && #[trigger] g.poses()[i].sx() == pos.x && g.poses()[i].sy() == pos.y;
            g.poses()[c].lemma_coords_eq(g.poses()[at]);
            if c != at {
                if c < at {
                    assert(g.poses()[c] != g.poses()[at]);
                } else {
                    assert(g.poses()[at] != g.poses()[c]);
                }
            }
        }
    }
    found
}

/// Whether `pos` is among `known`.
fn is_known(known: &Vec<HexPosOffset>, pos: HexPosOffset) -> (r: bool)
    ensures
        r == known@.contains(pos),
{
    let mut t: usize = 0;
    while t < known.len()
        invariant
            t <= known.len(),
            forall|j: int| 0 <= j < t ==> known[j] != pos,
        decreases known.len() - t,
    {
        if known[t] == pos {
            assert(known@[t as int] == pos);
            return true;
        }
        t += 1;
    }
    false
}

/// The bits `colors` followed by `positions`, lowest first; bits past the
/// 64th are dropped.
fn pack_bits(colors: &Vec<bool>, positions: &Vec<bool>) -> (r: u64)
    requires
        colors.len() + positions.len() <= 1000,
    ensures
        forall|i: u64|
            i < 64 ==> (#[trigger] bit_set(r, i) <==> (i < colors.len() + positions.len() && (colors@
                + positions@)[i as int])),
{
    let ghost bits = colors@ + positions@;
    let mut acc: u64 = 0;
    let mut idx: u64 = 0;
    proof {
        assert forall|i: u64| i < 64 implies !#[trigger] bit_set(acc, i) by {
            lemma_zero_bits(i);
        }
    }
    let mut c: usize = 0;
    while c < colors.len()
        invariant
            colors.len() + positions.len() <= 1000,
            bits == colors@ + positions@,
            c <= colors.len(),
            idx == c,
            forall|i: u64| i < 64 ==> (#[trigger] bit_set(acc, i) <==> (i < idx && bits[i as int])),
        decreases colors.len() - c,
    {
        assert(bits[idx as int] == colors@[c as int]);
        if colors[c] && idx < 64 {
            let old_acc = acc;
            acc = acc | (1u64 << idx);
            proof {
                assert forall|i: u64| i < 64 implies (#[trigger] bit_set(acc, i) <==> (i < idx + 1
                    && bits[i as int])) by {
                    lemma_set_bit(old_acc, idx, i);
                    assert(bit_set(old_acc, i) <==> (i < idx && bits[i as int]));
                }
            }
        }
        idx += 1;
        c += 1;
    }
    let mut q: usize = 0;
    while q < positions.len()
        invariant
            colors.len() + positions.len() <= 1000,
            bits == colors@ + positions@,
            q <= positions.len(),
            idx == colors.len() + q,
            forall|i: u64| i < 64 ==> (#[trigger] bit_set(acc, i) <==> (i < idx && bits[i as int])),
        decreases positions.len() - q,
    {
        assert(bits[idx as int] == positions@[q as int]);
        if positions[q] && idx < 64 {
            let old_acc = acc;
            acc = acc | (1u64 << idx);
            proof {
                assert forall|i: u64| i < 64 implies (#[trigger] bit_set(acc, i) <==> (i < idx + 1
                    && bits[i as int])) by {
                    lemma_set_bit(old_acc, idx, i);
                    assert(bit_set(old_acc, i) <==> (i < idx && bits[i as int]));
                }
            }
        }
        idx += 1;
        q += 1;
    }
    acc
}

/// The walk that `decompress` makes over a packed board: the tiles placed
/// so far, the pawns whose neighbors are still to be placed, and the indices
/// of the next position bit and the next color bit.
pub struct DecodeWalk {
    pub board: Seq<(HexPosOffset, TileState)>,
    pub stack: Seq<HexPosOffset>,
    pub pos_idx: int,
    pub color_idx: int,
}

/// A tile at `q` is on `board`.
pub open spec fn board_has(board: Seq<(HexPosOffset, TileState)>, q: HexPosOffset) -> bool {
    exists|i: int| 0 <= i < board.len() && (#[trigger] board[i]).0 == q
}

/// No two tiles of `board` are at the same position.
pub open spec fn distinct_board(board: Seq<(HexPosOffset, TileState)>) -> bool {
    forall|i: int, j: int| 0 <= i < j < board.len() ==> (#[trigger] board[i]).0 != (#[trigger] board[j]).0
}

/// The contents of the tile at `q` on `board`, empty if it is not there.
pub open spec fn board_tile(board: Seq<(HexPosOffset, TileState)>, q: HexPosOffset) -> TileState {
    if board_has(board, q) {
        board[choose|i: int| 0 <= i < board.len() && (#[trigger] board[i]).0 == q].1
    } else {
        TileState::Empty
    }
}

/// The number of the first `k` neighbors of `p` (in the order of
/// `neighbor_dir`) that hold a pawn on `board`.
pub open spec fn neighbor_pawns(board: Seq<(HexPosOffset, TileState)>, p: HexPosOffset, k: nat) -> nat
    decreases k,
{
    if k == 0 {
        0
    } else {
        neighbor_pawns(board, p, (k - 1) as nat) + if board_tile(board, offset(p, neighbor_dir(k - 1)))
            != TileState::Empty {
            1nat
        } else {
            0nat
        }
    }
}

/// The walk places tile `q`, unless it is placed already: the next position
/// bit tells whether it holds a pawn, and then the next color bit whether the
/// pawn is black. Fails when the bits run out.
pub open spec fn decode_visit(repr: u64, w: DecodeWalk, q: HexPosOffset) -> Option<DecodeWalk> {
    if board_has(w.board, q) {
        Some(w)
    } else if w.pos_idx >= 64 || w.color_idx >= 64 {
        None
    } else if bit_set(repr, w.pos_idx as u64) {
        let color = if bit_set(repr, w.color_idx as u64) {
            TileState::Black
        } else {
            TileState::White
        };
        Some(
            DecodeWalk {
                board: w.board.push((q, color)),
                stack: w.stack.push(q),
                pos_idx: w.pos_idx + 1,
                color_idx: w.color_idx + 1,
            },
        )
    } else {
        Some(
            DecodeWalk {
                board: w.board.push((q, TileState::Empty)),
                stack: w.stack,
                pos_idx: w.pos_idx + 1,
                color_idx: w.color_idx,
            },
        )
    }
}

/// The walk places the first `k` neighbors of `p`.
pub open spec fn decode_neighbors(repr: u64, w: DecodeWalk, p: HexPosOffset, k: nat) -> Option<
    DecodeWalk,
>
    decreases k,
{
    if k == 0 {
        Some(w)
    } else {
        match decode_neighbors(repr, w, p, (k - 1) as nat) {
            Some(w1) => decode_visit(repr, w1, offset(p, neighbor_dir(k - 1))),
            None => None,
        }
    }
}

/// One round: the pawn on top of the stack is taken off, its neighbors are
/// placed, and it must then have at least two neighboring pawns.
pub open spec fn decode_round(repr: u64, w: DecodeWalk) -> Option<DecodeWalk> {
    if w.stack.len() == 0 {
        None
    } else {
        let p = w.stack.last();
        let popped = DecodeWalk {
            board: w.board,
            stack: w.stack.drop_last(),
            pos_idx: w.pos_idx,
            color_idx: w.color_idx,
        };
        match decode_neighbors(repr, popped, p, 6) {
            Some(w1) => if neighbor_pawns(w1.board, p, 6) < 2 {
                None
            } else {
                Some(w1)
            },
            None => None,
        }
    }
}

/// The walk after `k` rounds.
pub open spec fn decode_rounds(repr: u64, w: DecodeWalk, k: nat) -> Option<DecodeWalk>
    decreases k,
{
    if k == 0 {
        Some(w)
    } else {
        match decode_rounds(repr, w, (k - 1) as nat) {
            Some(w1) => decode_round(repr, w1),
            None => None,
        }
    }
}

/// The walk starts with a pawn at the origin, colored by bit 0, and with the
/// tiles left of and below it empty; position bits start at bit 16.
pub open spec fn decode_start(repr: u64) -> DecodeWalk {
    let o = HexPosOffset { x: 0, y: 0 };
    DecodeWalk {
        board: seq![
            (o, if bit_set(repr, 0) {
                TileState::Black
            } else {
                TileState::White
            }),
            (offset(o, (-1, 0)), TileState::Empty),
            (offset(o, (-1, -1)), TileState::Empty),
            (offset(o, (0, -1)), TileState::Empty),
        ],
        stack: seq![o],
        pos_idx: 16,
        color_idx: 1,
    }
}

/// The board that `repr` packs, if it is well formed: 8 of the 16 color
/// bits set and 15 position bits set, 15 rounds that succeed, and a last
/// pawn on the stack with at least two neighboring pawns.
pub open spec fn decode_board(repr: u64) -> Option<Seq<(HexPosOffset, TileState)>> {
    if popcount_spec(repr & 0xffff, 64) != 8 || popcount_spec(repr & 0xffff_ffff_ffff_0000, 64) != 15 {
        None
    } else {
        match decode_rounds(repr, decode_start(repr), 15) {
            Some(w) => if w.stack.len() == 0 || neighbor_pawns(w.board, w.stack.last(), 6) < 2 {
                None
            } else {
                Some(w.board)
            },
            None => None,
        }
    }
}

/// The pawns on `board`, in order.
pub open spec fn board_pawns(board: Seq<(HexPosOffset, TileState)>) -> Seq<(HexPosOffset, PawnColor)>
    decreases board.len(),
{
    if board.len() == 0 {
        Seq::empty()
    } else {
        let rest = board_pawns(board.drop_last());
        let t = board.last();
        match t.1 {
            TileState::Black => rest.push((t.0, PawnColor::Black)),
            TileState::White => rest.push((t.0, PawnColor::White)),
            TileState::Empty => rest,
        }
    }
}

pub(crate) proof fn lemma_board_tile_at(board: Seq<(HexPosOffset, TileState)>, i: int)
    requires
        distinct_board(board),
        0 <= i < board.len(),
    ensures
        board_has(board, board[i].0),
        board_tile(board, board[i].0) == board[i].1,
{
    let q = board[i].0;
    assert(board_has(board, q));
    let c = choose|c: int| 0 <= c < board.len() && (#[trigger] board[c]).0 == q;
    if c < i {
        assert(board[c].0 != board[i].0);
    } else if i < c {
        assert(board[i].0 != board[c].0);
    }
}

/// Placing a tile at a new position keeps the tiles at the others.
proof fn lemma_board_push(board: Seq<(HexPosOffset, TileState)>, e: (HexPosOffset, TileState), q: HexPosOffset)
    requires
        distinct_board(board),
        !board_has(board, e.0),
        board_has(board, q),
    ensures
        distinct_board(board.push(e)),
        board_has(board.push(e), q),
        board_tile(board.push(e), q) == board_tile(board, q),
{
    let b2 = board.push(e);
    assert forall|i: int, j: int| 0 <= i < j < b2.len() implies (#[trigger] b2[i]).0 != (#[trigger] b2[j]).0 by {
        if j == board.len() {
            assert(b2[i] == board[i]);
        } else {
            assert(b2[i] == board[i] && b2[j] == board[j]);
        }
    }
    let i = choose|i: int| 0 <= i < board.len() && (#[trigger] board[i]).0 == q;
    lemma_board_tile_at(board, i);
    assert(b2[i] == board[i]);
    lemma_board_tile_at(b2, i);
}

/// Placing a tile at a new position keeps the count of neighboring pawns
/// of neighbors already placed.
proof fn lemma_neighbor_pawns_push(
    board: Seq<(HexPosOffset, TileState)>,
    e: (HexPosOffset, TileState),
    p: HexPosOffset,
    k: nat,
)
    requires
        distinct_board(board),
        !board_has(board, e.0),
        k <= 6,
        forall|j: int| 0 <= j < k ==> board_has(board, #[trigger] offset(p, neighbor_dir(j))),
    ensures
        neighbor_pawns(board.push(e), p, k) == neighbor_pawns(board, p, k),
    decreases k,
{
    if k > 0 {
        lemma_neighbor_pawns_push(board, e, p, (k - 1) as nat);
        lemma_board_push(board, e, offset(p, neighbor_dir(k - 1)));
    }
}

/// Once a round fails, so do all later ones.
proof fn lemma_rounds_fail(repr: u64, w: DecodeWalk, k: nat, m: nat)
    requires
        k <= m,
        decode_rounds(repr, w, k) is None,
    ensures
        decode_rounds(repr, w, m) is None,
    decreases m - k,
{
    if k < m {
        lemma_rounds_fail(repr, w, k, (m - 1) as nat);
    }
}

/// Once placing a neighbor fails, so does placing all six.
proof fn lemma_neighbors_fail(repr: u64, w: DecodeWalk, p: HexPosOffset, k: nat, m: nat)
    requires
        k <= m,
        decode_neighbors(repr, w, p, k) is None,
    ensures
        decode_neighbors(repr, w, p, m) is None,
    decreases m - k,
{
    if k < m {
        lemma_neighbors_fail(repr, w, p, k, (m - 1) as nat);
    }
}

/// The pawns of a board lie on it, with the colors of their tiles.
pub(crate) proof fn lemma_board_pawns_from(board: Seq<(HexPosOffset, TileState)>, j: int)
    requires
        0 <= j < board_pawns(board).len(),
    ensures
        exists|i: int|
            0 <= i < board.len() && (#[trigger] board[i]).0 == board_pawns(board)[j].0 && board[i].1
                == color_tile(board_pawns(board)[j].1),
    decreases board.len(),
{
    let rest = board_pawns(board.drop_last());
    if j < rest.len() {
        lemma_board_pawns_from(board.drop_last(), j);
        let i = choose|i: int|
            0 <= i < board.len() - 1 && (#[trigger] board.drop_last()[i]).0 == rest[j].0
                && board.drop_last()[i].1 == color_tile(rest[j].1);
        assert(board[i] == board.drop_last()[i]);
    } else {
        assert(board[board.len() - 1] == board.last());
    }
}

proof fn lemma_board_pawns_bounded(board: Seq<(HexPosOffset, TileState)>, b: int)
    requires
        forall|j: int| 0 <= j < board.len() ==> (#[trigger] board[j]).0.bounded(b),
    ensures
        forall|j: int| 0 <= j < board_pawns(board).len() ==> (#[trigger] board_pawns(board)[j]).0.bounded(b),
        board_pawns(board).len() <= board.len(),
    decreases board.len(),
{
    if board.len() > 0 {
        lemma_board_pawns_bounded(board.drop_last(), b);
        assert(board[board.len() - 1] == board.last());
    }
}

proof fn lemma_board_pawns_distinct(board: Seq<(HexPosOffset, TileState)>)
    requires
        distinct_board(board),
    ensures
        distinct_positions(board_pawns(board)),
    decreases board.len(),
{
    if board.len() > 0 {
        let init = board.drop_last();
        assert(distinct_board(init)) by {
            assert forall|i: int, j: int| 0 <= i < j < init.len() implies (#[trigger] init[i]).0 != (#[trigger] init[j]).0 by {
                assert(init[i] == board[i] && init[j] == board[j]);
            }
        }
        lemma_board_pawns_distinct(init);
        let rest = board_pawns(init);
        let t = board.last();
        if t.1 != TileState::Empty {
            let bp = board_pawns(board);
            assert forall|a: int, b: int| 0 <= a < b < bp.len() implies #[trigger] bp[a].0 != #[trigger] bp[b].0 by {
                if b < rest.len() {
                    assert(bp[a] == rest[a] && bp[b] == rest[b]);
                } else {
                    assert(bp[a] == rest[a]);
                    assert(bp[b].0 == t.0);
                    lemma_board_pawns_from(init, a);
                    let i = choose|i: int|
                        0 <= i < init.len() && (#[trigger] init[i]).0 == rest[a].0 && init[i].1
                            == color_tile(rest[a].1);
                    assert(init[i] == board[i]);
                    assert(board[i].0 != board[board.len() - 1].0);
                }
            }
        }
    }
}

/// The state of `decompress`'s walk.
struct Decoder {
    board: Vec<(HexPosOffset, TileState)>,
    stack: Vec<HexPosOffset>,
    pos_idx: u64,
    color_idx: u64,
}

impl Decoder {
    spec fn walk(&self) -> DecodeWalk {
        DecodeWalk {
            board: self.board@,
            stack: self.stack@,
            pos_idx: self.pos_idx as int,
            color_idx: self.color_idx as int,
        }
    }

    /// After `k` rounds, positions are at most `k` tiles from the origin
    /// for the stacked pawns, and `k + 1` for the tiles.
    spec fn bounded_by(&self, k: int) -> bool {
        &&& self.pos_idx <= 64
        &&& self.color_idx <= 64
        &&& self.board.len() <= 4 + 6 * k
        &&& forall|j: int| 0 <= j < self.stack.len() ==> (#[trigger] self.stack[j]).bounded(k)
        &&& forall|j: int| 0 <= j < self.board.len() ==> (#[trigger] self.board[j]).0.bounded(k + 1)
        &&& distinct_board(self.board@)
    }

    /// Plays one round of the walk.
    fn round(&mut self, repr: u64, k: usize) -> (r: Result<(), OnoroError>)
        requires
            old(self).bounded_by(k as int),
            k < 16,
        ensures
            (r is Ok) == (decode_round(repr, old(self).walk()) is Some),
            r is Ok ==> final(self).walk() == decode_round(repr, old(self).walk())->0,
            r is Ok ==> final(self).bounded_by(k + 1),
    {
        let ghost w = self.walk();
        let pawn = match self.stack.pop() {
            Some(p) => p,
            None => {
                return Err(OnoroError::new("Unexpected end of stack".to_owned()));
            },
        };
        let ghost popped = self.walk();
        assert(pawn.bounded(k as int));
        let neighbors = pawn.each_neighbor();
        proof {
            assert forall|j: int| 0 <= j < 6 implies #[trigger] neighbors[j] == offset(
                pawn,
                neighbor_dir(j),
            ) by {
                let o = offset(pawn, neighbor_dir(j));
                assert(o.x == neighbors[j].x);
                assert(o.y == neighbors[j].y);
            }
        }
        let mut count: u32 = 0;
        let mut i: usize = 0;
        while i < 6
            invariant
                i <= 6,
                k < 16,
                w == old(self).walk(),
                pawn == w.stack.last(),
                w.stack.len() > 0,
                popped == (DecodeWalk {
                    board: w.board,
                    stack: w.stack.drop_last(),
                    pos_idx: w.pos_idx,
                    color_idx: w.color_idx,
                }),
                neighbors.len() == 6,
                forall|j: int| 0 <= j < 6 ==> #[trigger] neighbors[j] == offset(pawn, neighbor_dir(j)),
                pawn.bounded(k as int),
                count <= i,
                count == neighbor_pawns(self.board@, pawn, i as nat),
                decode_neighbors(repr, popped, pawn, i as nat) == Some(self.walk()),
                forall|j: int| 0 <= j < i ==> board_has(self.board@, #[trigger] offset(pawn, neighbor_dir(j))),
                self.pos_idx <= 64,
                self.color_idx <= 64,
                self.board.len() <= 4 + 6 * k + i,
                forall|j: int| 0 <= j < self.stack.len() ==> (#[trigger] self.stack[j]).bounded(k + 1),
                forall|j: int| 0 <= j < self.board.len() ==> (#[trigger] self.board[j]).0.bounded(k + 2),
                distinct_board(self.board@),
            decreases 6 - i,
        {
            let q = neighbors[i];
            let ghost before = self.walk();
            match find_tile(&self.board, &q) {
                Some(t) => {
                    proof {
                        lemma_board_tile_at(self.board@, t as int);
                        assert(self.board@[t as int].0 == q);
                    }
                    if self.board[t].1 != TileState::Empty {
                        count += 1;
                    }
                },
                None => {
                    proof {
                        assert(!board_has(self.board@, q));
                    }
                    if self.pos_idx >= 64 || self.color_idx >= 64 {
                        proof {
                            assert(decode_neighbors(repr, popped, pawn, (i + 1) as nat) is None);
                            lemma_neighbors_fail(repr, popped, pawn, (i + 1) as nat, 6);
                        }
                        return Err(OnoroError::new("Too many tiles to decode.".to_owned()));
                    }
                    proof {
                        let pi = self.pos_idx;
                        let ci = self.color_idx;
                        assert(((repr >> pi) & 1 != 0) == bit_set(repr, pi)) by (bit_vector);
                        assert(((repr >> ci) & 1 != 0) == bit_set(repr, ci)) by (bit_vector);
                    }
                    let e = if (repr >> self.pos_idx) & 1 != 0 {
                        self.stack.push(q);
                        let color = if (repr >> self.color_idx) & 1 != 0 {
                            TileState::Black
                        } else {
                            TileState::White
                        };
                        count += 1;
                        self.color_idx += 1;
                        (q, color)
                    } else {
                        (q, TileState::Empty)
                    };
                    proof {
                        lemma_neighbor_pawns_push(before.board, e, pawn, i as nat);
                    }
                    self.board.push(e);
                    self.pos_idx += 1;
                    proof {
                        lemma_board_tile_at(self.board@, self.board.len() - 1);
                        assert forall|j: int| 0 <= j < i implies board_has(
                            self.board@,
                            #[trigger] offset(pawn, neighbor_dir(j)),
                        ) by {
                            let c = choose|c: int|
                                0 <= c < before.board.len() && (#[trigger] before.board[c]).0 == offset(
                                    pawn,
                                    neighbor_dir(j),
                                );
                            assert(self.board@[c] == before.board[c]);
                        }
                    }
                },
            }
            i += 1;
        }
        if count < 2 {
            return Err(OnoroError::new("Not enough neighbors of pawn!".to_owned()));
        }
        Ok(())
    }
}

/// The number of neighbors of `p` that hold a pawn on `board`.
fn count_pawn_neighbors(board: &Vec<(HexPosOffset, TileState)>, p: HexPosOffset) -> (r: u32)
    requires
        p.bounded(16),
        distinct_board(board@),
    ensures
        r == neighbor_pawns(board@, p, 6),
{
    let neighbors = p.each_neighbor();
    proof {
        assert forall|j: int| 0 <= j < 6 implies #[trigger] neighbors[j] == offset(p, neighbor_dir(j)) by {
            let o = offset(p, neighbor_dir(j));
            assert(o.x == neighbors[j].x);
            assert(o.y == neighbors[j].y);
        }
    }
    let mut count: u32 = 0;
    let mut k: usize = 0;
    while k < 6
        invariant
            k <= 6,
            count <= k,
            count == neighbor_pawns(board@, p, k as nat),
            neighbors.len() == 6,
            forall|j: int| 0 <= j < 6 ==> #[trigger] neighbors[j] == offset(p, neighbor_dir(j)),
            p.bounded(16),
            distinct_board(board@),
        decreases 6 - k,
    {
        let q = neighbors[k];
        if let Some(t) = find_tile(board, &q) {
            proof {
                lemma_board_tile_at(board@, t as int);
            }
            if board[t].1 != TileState::Empty {
                count += 1;
            }
        }
        k += 1;
    }
    count
}

impl Compress for OnoroView<16> {
    type Repr = u64;

    /// Packs the board into 64 bits: starting from the pawn at the first
    /// position (ordering by x and then y), the pawns are visited depth
    /// first. For each tile adjacent to a visited pawn which was not seen
    /// before, a position bit tells whether it holds a pawn. The color bits
    /// (set for black) of the pawns, in order of discovery, come first,
    /// followed by the position bits. Bits past the 64th are dropped.
    fn compress(&self) -> (r: u64)
        ensures
            walk(self.onoro_spec(), walk_start(self.onoro_spec()), 16).stack.len() == 0,
            forall|i: u64|
                i < 64 ==> (#[trigger] bit_set(r, i) <==> (i < compress_bits(self.onoro_spec()).len()
                    && compress_bits(self.onoro_spec())[i as int])),
            exists|s: int|
                is_start_pawn(self.onoro_spec(), s) && ((r & 1 == 1) <==> pawn_color_spec(s)
                    == PawnColor::Black),
    {
        let onoro = self.onoro();
        let ghost g = *onoro;
        let pawns = onoro.pawns();
        let start = first_pawn(onoro, &pawns);
        proof {
            onoro.poses()[start as int].lemma_raw();
        }
        let start_pos = pawns[start].pos.to_hex_offset();
        let start_black = pawns[start].color == PawnColor::Black;
        // The tiles seen so far.
        let mut known: Vec<HexPosOffset> = Vec::new();
        known.push(start_pos);
        let top_left = start_pos.each_top_left_neighbor();
        known.push(top_left[0]);
        known.push(top_left[1]);
        known.push(top_left[2]);
        let mut position_bits: Vec<bool> = Vec::new();
        let mut color_bits: Vec<bool> = Vec::new();
        color_bits.push(start_black);
        let mut pawn_stack: Vec<HexPosOffset> = Vec::new();
        pawn_stack.push(start_pos);
        proof {
            let w0 = walk_start(g);
            assert(known@ == w0.known);
            assert(pawn_stack@ == w0.stack);
            assert(color_bits@ == w0.colors);
            assert(position_bits@ == w0.positions);
            assert(g.poses()[start as int].sx() == start_pos.x);
            assert(pawn_at(g, start_pos) is Some);
        }
        // Each pawn is stacked at most once, so at most 16 are taken off.
        let mut pops: usize = 0;
        while pops < 16 && pawn_stack.len() > 0
            invariant
                onoro.wf(),
                g == *onoro,
                pawns.len() == onoro.n_spec(),
                forall|j: int|
                    0 <= j < pawns.len() ==> (#[trigger] pawns[j]).pos == onoro.poses()[j]
                        && pawns[j].color == pawn_color_spec(j),
                pops <= 16,
                color_bits.len() >= 1,
                color_bits[0] == start_black,
                position_bits.len() <= 6 * pops,
                color_bits.len() <= 1 + 6 * pops,
                (CompressWalk {
                    known: known@,
                    stack: pawn_stack@,
                    colors: color_bits@,
                    positions: position_bits@,
                }) == walk(g, walk_start(g), pops as nat),
                forall|j: int| 0 <= j < pawn_stack.len() ==> pawn_at(g, #[trigger] pawn_stack[j]) is Some,
            decreases 16 - pops,
        {
            let ghost before = CompressWalk {
                known: known@,
                stack: pawn_stack@,
                colors: color_bits@,
                positions: position_bits@,
            };
            let current = pawn_stack.pop().unwrap();
            proof {
                assert(pawn_at(g, before.stack[before.stack.len() - 1]) is Some);
                let i = choose|i: int|
                    0 <= i < g.n_spec() && #[trigger] g.poses()[i].sx() == current.x && g.poses()[i].sy() == current.y;
                g.poses()[i].lemma_raw();
            }
            let neighbors = current.each_neighbor();
            proof {
                assert forall|j: int| 0 <= j < 6 implies #[trigger] neighbors[j] == offset(
                    current,
                    neighbor_dir(j),
                ) by {
                    let o = offset(current, neighbor_dir(j));
                    assert(o.x == neighbors[j].x);
                    assert(o.y == neighbors[j].y);
                }
            }
            let mut k: usize = 0;
            while k < 6
                invariant
                    onoro.wf(),
                    g == *onoro,
                    pawns.len() == onoro.n_spec(),
                    forall|j: int|
                        0 <= j < pawns.len() ==> (#[trigger] pawns[j]).pos == onoro.poses()[j]
                            && pawns[j].color == pawn_color_spec(j),
                    k <= 6,
                    pops < 16,
                    color_bits.len() >= 1,
                    color_bits[0] == start_black,
                    neighbors.len() == 6,
                    current.bounded(16),
                    current == before.stack.last(),
                    forall|j: int|
                        0 <= j < 6 ==> #[trigger] neighbors[j] == offset(current, neighbor_dir(j)),
                    position_bits.len() <= 6 * pops + k,
                    color_bits.len() <= 1 + 6 * pops + k,
                    (CompressWalk {
                        known: known@,
                        stack: pawn_stack@,
                        colors: color_bits@,
                        positions: position_bits@,
                    }) == walk_neighbors(
                        g,
                        CompressWalk {
                            known: before.known,
                            stack: before.stack.drop_last(),
                            colors: before.colors,
                            positions: before.positions,
                        },
                        current,
                        k as nat,
                    ),
                    forall|j: int| 0 <= j < pawn_stack.len() ==> pawn_at(g, #[trigger] pawn_stack[j]) is Some,
                decreases 6 - k,
            {
                let neighbor_pos = neighbors[k];
                if !is_known(&known, neighbor_pos) {
                    known.push(neighbor_pos);
                    let found = find_pawn(onoro, &pawns, neighbor_pos);
                    position_bits.push(found.is_some());
                    if let Some(black) = found {
                        color_bits.push(black);
                        pawn_stack.push(neighbor_pos);
                    }
                }
                k += 1;
            }
            pops += 1;
        }
        proof {
            if pops < 16 {
                lemma_walk_stops(g, walk_start(g), pops as nat, 16);
            }
            lemma_walk_ends(g);
            lemma_walk_stops(g, walk_start(g), g.n_spec() as nat, 16);
        }
        let r = pack_bits(&color_bits, &position_bits);
        proof {
            let bits = compress_bits(g);
            assert(bits == color_bits@ + position_bits@);
            assert(bit_set(r, 0) <==> bits[0]);
            assert(bits[0] == color_bits@[0]);
            assert(r & 1 == 1 <==> bit_set(r, 0)) by (bit_vector);
            assert(is_start_pawn(g, start as int));
        }
        r
    }

    /// Unpacks a board packed by `compress`, checking that it holds 16
    /// pawns, half of them white, each with at least two neighbors. The
    /// pawns are placed with the leftmost and lowest ones one tile off of the
    /// border, as `from_pawns` does.
    fn decompress(repr: u64) -> (r: Result<Self, OnoroError>)
        ensures
            decode_board(repr) is None ==> r is Err,
            r is Ok ==> decode_board(repr) is Some && r->Ok_0.onoro_spec().wf()
                && r->Ok_0.onoro_spec().n_spec() == board_pawns(decode_board(repr)->0).len(),
            ({
                let b = board_pawns(decode_board(repr)->0);
                (decode_board(repr) is Some && b.len() <= 16 && black_count(b, b.len() as int) >= 1
                    && counts_balanced(b) && pawns_fit_inside(b, 16)) ==> r is Ok
            }),
            ({
                let b = board_pawns(decode_board(repr)->0);
                r is Ok && pawns_fit_inside(b, 16) ==> {
                    &&& forall|j: int|
                        0 <= j < b.len() ==> r->Ok_0.onoro_spec().tile_spec(
                            (#[trigger] placed_tile(b, j)).0,
                            placed_tile(b, j).1,
                        ) == color_tile(b[j].1)
                    &&& forall|x: int, y: int|
                        #[trigger] r->Ok_0.onoro_spec().tile_spec(x, y) != TileState::Empty
                            ==> exists|j: int| 0 <= j < b.len() && #[trigger] placed_tile(b, j) == (x, y)
                }
            }),
    {
        if count_ones(repr & 0xffff) != 8 {
            return Err(OnoroError::new("Expect 8 of the 16 pawns to be white.".to_owned()));
        }
        if count_ones(repr & 0xffff_ffff_ffff_0000) != 15 {
            return Err(OnoroError::new("Expect 16 pawns.".to_owned()));
        }
        let origin = HexPosOffset::origin();
        let top_left = origin.each_top_left_neighbor();
        let mut board: Vec<(HexPosOffset, TileState)> = Vec::new();
        board.push(
            (
                origin,
                if repr & 1 != 0 {
                    TileState::Black
                } else {
                    TileState::White
                },
            ),
        );
        board.push((top_left[0], TileState::Empty));
        board.push((top_left[1], TileState::Empty));
        board.push((top_left[2], TileState::Empty));
        let mut stack: Vec<HexPosOffset> = Vec::new();
        stack.push(origin);
        let mut dec = Decoder { board, stack, pos_idx: 16, color_idx: 1 };
        proof {
            assert(repr & 1 != 0 <==> bit_set(repr, 0)) by (bit_vector);
            let w0 = decode_start(repr);
            assert(dec.board@ =~= w0.board);
            assert(dec.stack@ =~= w0.stack);
            assert(dec.walk() == w0);
            assert(dec.bounded_by(0));
        }
        let mut round: usize = 1;
        while round < 16
            invariant
                1 <= round <= 16,
                dec.bounded_by(round - 1),
                decode_rounds(repr, decode_start(repr), (round - 1) as nat) == Some(dec.walk()),
            decreases 16 - round,
        {
            match dec.round(repr, round - 1) {
                Ok(()) => {},
                Err(e) => {
                    proof {
                        lemma_rounds_fail(repr, decode_start(repr), round as nat, 15);
                    }
                    return Err(e);
                },
            }
            round += 1;
        }
        let pawn = match dec.stack.pop() {
            Some(p) => p,
            None => {
                return Err(OnoroError::new("Unexpected end of stack".to_owned()));
            },
        };
        if count_pawn_neighbors(&dec.board, pawn) < 2 {
            return Err(OnoroError::new("Not enough neighbors of pawn!".to_owned()));
        }
        let ghost bd = dec.board@;
        assert(decode_board(repr) == Some(bd));
        let board = dec.board;
        let mut pawns: Vec<(HexPosOffset, PawnColor)> = Vec::new();
        let mut t: usize = 0;
        while t < board.len()
            invariant
                t <= board.len(),
                board@ == bd,
                pawns.len() <= t,
                board.len() <= 100,
                forall|j: int| 0 <= j < board.len() ==> (#[trigger] board[j]).0.bounded(33),
                pawns@ == board_pawns(bd.take(t as int)),
            decreases board.len() - t,
        {
            proof {
                assert(bd.take(t + 1).drop_last() =~= bd.take(t as int));
            }
            match board[t].1 {
                TileState::Black => pawns.push((board[t].0, PawnColor::Black)),
                TileState::White => pawns.push((board[t].0, PawnColor::White)),
                TileState::Empty => {},
            }
            t += 1;
        }
        proof {
            assert(bd.take(board.len() as int) =~= bd);
            lemma_board_pawns_bounded(bd, 33);
            lemma_board_pawns_distinct(bd);
        }
        if pawns.len() == 0 || pawns.len() > 16 || count_black(&pawns) == 0 {
            return Err(OnoroError::new("Unexpected number of pawns.".to_owned()));
        }
        match OnoroImpl::<16>::from_pawns(pawns) {
            Ok(onoro) => Ok(OnoroView::new(onoro)),
            Err(message) => Err(OnoroError::new(message)),
        }
    }
}

} // verus!
