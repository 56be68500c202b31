use vstd::prelude::*;

use crate::compress::{
    compress_bits, found_pawns, is_start_pawn, lemma_walk_counts, lemma_walk_ends, lemma_walk_stops, lex_le, offset, pawn_at,
    pawn_positions, start_pawn, walk, walk_neighbors, walk_start, walk_step, walk_visit,
    CompressWalk,
};
use crate::move_gen::{connected, lemma_reach_label, pawns_adjacent, reach};
use crate::onoro_view::pawn_color_spec;
use crate::compress::{
    bit_set, board_has, board_pawns, board_tile, decode_neighbors, decode_round, decode_rounds, decode_start,
    decode_visit, distinct_board, lemma_board_tile_at, neighbor_pawns, DecodeWalk, decode_board,
    lemma_board_pawns_from, popcount_spec,
};
use crate::hex_pos::{neighbor_dir, HexPosOffset};
use crate::onoro::{PawnColor, TileState};
use crate::onoro_initialize::{black_count, color_tile};
use crate::onoro_impl::OnoroImpl;

verus! {

broadcast use vstd::seq_lib::lemma_seq_contains_after_push;

/// The number of set entries of `s`.
pub open spec fn count_true(s: Seq<bool>) -> nat
    decreases s.len(),
{
    if s.len() == 0 {
        0
    } else {
        count_true(s.drop_last()) + if s.last() {
            1nat
        } else {
            0nat
        }
    }
}

/// All six neighbors of `q` are among `known`.
pub open spec fn all_neighbors_known(known: Seq<HexPosOffset>, q: HexPosOffset) -> bool {
    forall|d: int| 0 <= d < 6 ==> known.contains(#[trigger] offset(q, neighbor_dir(d)))
}

/// The black pawns that the walk has found.
pub open spec fn found_black<const N: usize>(g: OnoroImpl<N>, w: CompressWalk) -> Set<HexPosOffset> {
    Set::new(|p: HexPosOffset| w.known.contains(p) && pawn_at(g, p) == Some(true))
}

/// What holds of the walk that `compress` makes at each step: its tiles are
/// near the board and distinct, its stack holds pawns it has found, and it
/// has written one set position bit and one color bit for each pawn found
/// after the first, the color bit set for the black ones.
pub open spec fn walk_basic<const N: usize>(g: OnoroImpl<N>, w: CompressWalk) -> bool {
    &&& forall|i: int| 0 <= i < w.known.len() ==> (#[trigger] w.known[i]).bounded(17)
    &&& forall|i: int, j: int| 0 <= i < j < w.known.len() ==> #[trigger] w.known[i] != #[trigger] w.known[j]
    &&& forall|j: int|
        0 <= j < w.stack.len() ==> w.known.contains(#[trigger] w.stack[j]) && pawn_at(g, w.stack[j]) is Some
    &&& count_true(w.positions) + 1 == w.colors.len()
    &&& found_black(g, w).finite()
    &&& count_true(w.colors) == found_black(g, w).len()
    &&& found_pawns(g, w).finite()
    &&& w.colors.len() == found_pawns(g, w).len()
}

/// Each pawn that the walk has found, other than `p`, is stacked or has all
/// its neighbors seen.
pub open spec fn closed_except<const N: usize>(g: OnoroImpl<N>, w: CompressWalk, p: HexPosOffset) -> bool {
    forall|q: HexPosOffset|
        #![trigger w.known.contains(q)]
        w.known.contains(q) && pawn_at(g, q) is Some && q != p ==> w.stack.contains(q)
            || all_neighbors_known(w.known, q)
}

/// The walk is as `walk_basic` says, and each pawn it has found is stacked
/// or has all its neighbors seen.
pub open spec fn walk_good<const N: usize>(g: OnoroImpl<N>, w: CompressWalk) -> bool {
    &&& walk_basic(g, w)
    &&& forall|q: HexPosOffset|
        #![trigger w.known.contains(q)]
        w.known.contains(q) && pawn_at(g, q) is Some ==> w.stack.contains(q) || all_neighbors_known(w.known, q)
}

/// A tile holding a pawn of `g` is on the board.
proof fn lemma_pawn_bounded<const N: usize>(g: OnoroImpl<N>, p: HexPosOffset)
    requires
        g.wf(),
        N <= 16,
        pawn_at(g, p) is Some,
    ensures
        0 <= p.x < 16,
        0 <= p.y < 16,
{
    let i = choose|i: int|
        0 <= i < g.n_spec() && #[trigger] g.poses()[i].sx() == p.x && g.poses()[i].sy() == p.y;
    g.poses()[i].lemma_raw();
}

/// Visiting a tile next to a pawn keeps the walk good, and the tile is then
/// seen.
proof fn lemma_visit_good<const N: usize>(g: OnoroImpl<N>, w: CompressWalk, q: HexPosOffset, p: HexPosOffset)
    requires
        g.wf(),
        N <= 16,
        walk_basic(g, w),
        closed_except(g, w, p),
        q.bounded(17),
    ensures
        walk_basic(g, walk_visit(g, w, q)),
        closed_except(g, walk_visit(g, w, q), p),
        walk_visit(g, w, q).known.contains(q),
        forall|x: HexPosOffset| w.known.contains(x) ==> #[trigger] walk_visit(g, w, q).known.contains(x),
        forall|x: HexPosOffset| w.stack.contains(x) ==> #[trigger] walk_visit(g, w, q).stack.contains(x),
{
    let w2 = walk_visit(g, w, q);
    if !w.known.contains(q) {
        let k2 = w2.known;
        assert(k2 == w.known.push(q));
        assert forall|i: int| 0 <= i < k2.len() implies (#[trigger] k2[i]).bounded(17) by {
            if i < w.known.len() {
                assert(k2[i] == w.known[i]);
            }
        }
        assert forall|i: int, j: int| 0 <= i < j < k2.len() implies #[trigger] k2[i] != #[trigger] k2[j] by {
            if j < w.known.len() {
                assert(k2[i] == w.known[i] && k2[j] == w.known[j]);
            } else {
                assert(k2[i] == w.known[i]);
                assert(w.known.contains(w.known[i]));
            }
        }
        assert forall|j: int| 0 <= j < w2.stack.len() implies k2.contains(#[trigger] w2.stack[j])
            && pawn_at(g, w2.stack[j]) is Some by {
            if j < w.stack.len() {
                assert(w2.stack[j] == w.stack[j]);
            }
        }
        assert forall|x: HexPosOffset| w.stack.contains(x) implies #[trigger] w2.stack.contains(x) by {
            if pawn_at(g, q) is Some {
                let i = choose|i: int| 0 <= i < w.stack.len() && w.stack[i] == x;
                assert(w2.stack[i] == x);
            }
        }
        assert forall|x: HexPosOffset|
            #![trigger k2.contains(x)]
            k2.contains(x) && pawn_at(g, x) is Some && x != p implies w2.stack.contains(x) || all_neighbors_known(k2, x) by {
            if x == q {
                assert(w2.stack[w2.stack.len() - 1] == q);
            } else {
                assert(w.known.contains(x));
                if !w.stack.contains(x) {
                    assert(all_neighbors_known(w.known, x));
                    assert forall|d: int| 0 <= d < 6 implies k2.contains(#[trigger] offset(x, neighbor_dir(d))) by {
                        assert(w.known.contains(offset(x, neighbor_dir(d))));
                    }
                }
            }
        }
        if pawn_at(g, q) is Some {
            assert(found_pawns(g, w2) =~= found_pawns(g, w).insert(q));
            assert(!found_pawns(g, w).contains(q));
        } else {
            assert(found_pawns(g, w2) =~= found_pawns(g, w));
        }
        if pawn_at(g, q) == Some(true) {
            assert(found_black(g, w2) =~= found_black(g, w).insert(q));
            assert(!found_black(g, w).contains(q));
            assert(w2.colors.drop_last() =~= w.colors);
            assert(w2.positions.drop_last() =~= w.positions);
        } else {
            assert(found_black(g, w2) =~= found_black(g, w));
            if pawn_at(g, q) is Some {
                assert(w2.colors.drop_last() =~= w.colors);
            }
            assert(w2.positions.drop_last() =~= w.positions);
        }
    }
}

/// Visiting the first `k` neighbors of the pawn at `p` keeps the walk good
/// but for `p`, and they are then seen.
proof fn lemma_neighbors_good<const N: usize>(g: OnoroImpl<N>, w: CompressWalk, p: HexPosOffset, k: nat)
    requires
        g.wf(),
        N <= 16,
        walk_basic(g, w),
        closed_except(g, w, p),
        0 <= p.x < 16,
        0 <= p.y < 16,
        k <= 6,
    ensures
        walk_basic(g, walk_neighbors(g, w, p, k)),
        closed_except(g, walk_neighbors(g, w, p, k), p),
        forall|d: int| 0 <= d < k ==> walk_neighbors(g, w, p, k).known.contains(#[trigger] offset(p, neighbor_dir(d))),
        forall|x: HexPosOffset| w.known.contains(x) ==> #[trigger] walk_neighbors(g, w, p, k).known.contains(x),
        forall|x: HexPosOffset| w.stack.contains(x) ==> #[trigger] walk_neighbors(g, w, p, k).stack.contains(x),
    decreases k,
{
    if k > 0 {
        let k1 = (k - 1) as nat;
        lemma_neighbors_good(g, w, p, k1);
        let prev = walk_neighbors(g, w, p, k1);
        let q = offset(p, neighbor_dir(k - 1));
        lemma_visit_good(g, prev, q, p);
    }
}

/// A step keeps the walk good.
proof fn lemma_step_good<const N: usize>(g: OnoroImpl<N>, w: CompressWalk)
    requires
        g.wf(),
        N <= 16,
        walk_good(g, w),
        w.stack.len() > 0,
    ensures
        walk_good(g, walk_step(g, w)),
{
    let p = w.stack.last();
    assert(w.stack[w.stack.len() - 1] == p);
    lemma_pawn_bounded(g, p);
    let popped = CompressWalk { known: w.known, stack: w.stack.drop_last(), colors: w.colors, positions: w.positions };
    assert forall|j: int| 0 <= j < popped.stack.len() implies popped.known.contains(#[trigger] popped.stack[j])
        && pawn_at(g, popped.stack[j]) is Some by {
        assert(popped.stack[j] == w.stack[j]);
    }
    assert(found_black(g, popped) =~= found_black(g, w));
    assert(found_pawns(g, popped) =~= found_pawns(g, w));
    assert forall|q: HexPosOffset|
        #![trigger popped.known.contains(q)]
        popped.known.contains(q) && pawn_at(g, q) is Some && q != p implies popped.stack.contains(q)
            || all_neighbors_known(popped.known, q) by {
        if w.stack.contains(q) {
            let i = choose|i: int| 0 <= i < w.stack.len() && w.stack[i] == q;
            assert(i != w.stack.len() - 1);
            assert(popped.stack[i] == q);
        }
    }
    lemma_neighbors_good(g, popped, p, 6);
    let w2 = walk_step(g, w);
    assert forall|q: HexPosOffset|
        #![trigger w2.known.contains(q)]
        w2.known.contains(q) && pawn_at(g, q) is Some implies w2.stack.contains(q) || all_neighbors_known(w2.known, q) by {
        if q == p {
            assert forall|d: int| 0 <= d < 6 implies w2.known.contains(#[trigger] offset(q, neighbor_dir(d))) by {
            }
        }
    }
}

/// The position of pawn `i` of `g`.
pub open spec fn pawn_pos<const N: usize>(g: OnoroImpl<N>, i: int) -> HexPosOffset {
    HexPosOffset { x: g.poses()[i].sx() as i32, y: g.poses()[i].sy() as i32 }
}

/// Pawn `i` of `g` is the pawn at its position.
proof fn lemma_pawn_at_pos<const N: usize>(g: OnoroImpl<N>, i: int)
    requires
        g.wf(),
        0 <= i < g.n_spec(),
    ensures
        pawn_at(g, pawn_pos(g, i)) == Some(i % 2 == 0),
        0 <= pawn_pos(g, i).x < 16 && 0 <= pawn_pos(g, i).y < 16,
{
    let p = pawn_pos(g, i);
    g.poses()[i].lemma_raw();
    assert(g.poses()[i].sx() == p.x && g.poses()[i].sy() == p.y);
    let c = choose|c: int|
        0 <= c < g.n_spec() && #[trigger] g.poses()[c].sx() == p.x && g.poses()[c].sy() == p.y;
    g.poses()[c].lemma_coords_eq(g.poses()[i]);
    if c < i {
        assert(g.poses()[c] != g.poses()[i]);
    } else if i < c {
        assert(g.poses()[i] != g.poses()[c]);
    }
}

/// A pawn is at `p` exactly when some pawn's position is `p`.
proof fn lemma_pawn_at_some<const N: usize>(g: OnoroImpl<N>, p: HexPosOffset)
    requires
        g.wf(),
        pawn_at(g, p) is Some,
    ensures
        exists|i: int| 0 <= i < g.n_spec() && #[trigger] pawn_pos(g, i) == p && pawn_at(g, p) == Some(i % 2 == 0),
{
    let i = choose|i: int|
        0 <= i < g.n_spec() && #[trigger] g.poses()[i].sx() == p.x && g.poses()[i].sy() == p.y;
    lemma_pawn_at_pos(g, i);
    assert(pawn_pos(g, i) == p);
}

/// The walk starts good.
proof fn lemma_start_good<const N: usize>(g: OnoroImpl<N>)
    requires
        g.wf(),
        N <= 16,
        is_start_pawn(g, start_pawn(g)),
    ensures
        walk_good(g, walk_start(g)),
{
    let s = start_pawn(g);
    let w = walk_start(g);
    let p = w.stack[0];
    lemma_pawn_at_pos(g, s);
    assert(p == pawn_pos(g, s));
    // The tiles left of and below the first pawn hold no pawn.
    assert forall|j: int| 1 <= j < 4 implies pawn_at(g, #[trigger] w.known[j]) is None by {
        let q = w.known[j];
        if pawn_at(g, q) is Some {
            let i = choose|i: int|
                0 <= i < g.n_spec() && #[trigger] g.poses()[i].sx() == q.x && g.poses()[i].sy() == q.y;
            assert(lex_le(g.poses()[s].sx(), g.poses()[s].sy(), g.poses()[i].sx(), g.poses()[i].sy()));
        }
    }
    assert forall|i: int, j: int| 0 <= i < j < w.known.len() implies #[trigger] w.known[i] != #[trigger] w.known[j] by {
    }
    if s % 2 == 0 {
        assert(found_black(g, w) =~= set![p]);
    } else {
        assert(found_black(g, w) =~= Set::empty());
    }
    assert(found_pawns(g, w) =~= set![p]);
    assert(w.colors.drop_last() =~= Seq::<bool>::empty());
    assert forall|q: HexPosOffset|
        #![trigger w.known.contains(q)]
        w.known.contains(q) && pawn_at(g, q) is Some implies w.stack.contains(q) || all_neighbors_known(w.known, q) by {
        let j = choose|j: int| 0 <= j < w.known.len() && w.known[j] == q;
        assert(j == 0);
        assert(w.stack[0] == q);
    }
    assert forall|i: int| 0 <= i < w.known.len() implies (#[trigger] w.known[i]).bounded(17) by {}
    assert forall|j: int| 0 <= j < w.stack.len() implies w.known.contains(#[trigger] w.stack[j])
        && pawn_at(g, w.stack[j]) is Some by {
        assert(w.known[0] == w.stack[0]);
    }
    assert(count_true(w.positions) + 1 == w.colors.len());
    assert(found_black(g, w).finite());
    assert(count_true(w.colors) == found_black(g, w).len());
}

/// The walk stays good.
proof fn lemma_walk_good<const N: usize>(g: OnoroImpl<N>, k: nat)
    requires
        g.wf(),
        N <= 16,
        is_start_pawn(g, start_pawn(g)),
    ensures
        walk_good(g, walk(g, walk_start(g), k)),
    decreases k,
{
    if k == 0 {
        lemma_start_good(g);
    } else {
        lemma_walk_good(g, (k - 1) as nat);
        let prev = walk(g, walk_start(g), (k - 1) as nat);
        if prev.stack.len() != 0 {
            lemma_step_good(g, prev);
        }
    }
}

/// For a connected board, the walk finds every pawn.
proof fn lemma_walk_finds_all<const N: usize>(g: OnoroImpl<N>)
    requires
        g.wf(),
        N <= 16,
        is_start_pawn(g, start_pawn(g)),
        connected(g.poses(), g.n_spec()),
    ensures
        forall|i: int| 0 <= i < g.n_spec() ==> walk(g, walk_start(g), 16).known.contains(#[trigger] pawn_pos(g, i)),
{
    let n = g.n_spec();
    let s = g.poses();
    lemma_walk_ends(g);
    lemma_walk_stops(g, walk_start(g), n as nat, 16);
    lemma_walk_good(g, 16);
    let w = walk(g, walk_start(g), 16);
    let lab = |i: int| if w.known.contains(pawn_pos(g, i)) { 1int } else { 0int };
    assert forall|i: int, j: int|
        0 <= i < n && 0 <= j < n && #[trigger] pawns_adjacent(s[i], s[j]) implies lab(i) == lab(j) by {
        lemma_pawn_at_pos(g, i);
        lemma_pawn_at_pos(g, j);
        let pi = pawn_pos(g, i);
        let pj = pawn_pos(g, j);
        let dx = pj.x - pi.x;
        let dy = pj.y - pi.y;
        let d: int = if dx == 1 && dy == 0 {
            0
        } else if dx == 1 && dy == 1 {
            1
        } else if dx == 0 && dy == 1 {
            2
        } else if dx == -1 && dy == 0 {
            3
        } else if dx == -1 && dy == -1 {
            4
        } else {
            5
        };
        let e: int = (d + 3) % 6;
        assert(offset(pi, neighbor_dir(d)) == pj);
        assert(offset(pj, neighbor_dir(e)) == pi);
        if w.known.contains(pi) {
            assert(w.known.contains(offset(pi, neighbor_dir(d))));
        }
        if w.known.contains(pj) {
            assert(w.known.contains(offset(pj, neighbor_dir(e))));
        }
    }
    lemma_reach_label(s, n, lab, n as nat);
    let st = start_pawn(g);
    lemma_pawn_at_pos(g, st);
    assert(w.known.contains(pawn_pos(g, st))) by {
        assert(walk_start(g).known[0] == pawn_pos(g, st));
        lemma_walk_known_grows(g, 16);
    }
    assert(reach(s, n, n as nat).contains(st));
    assert forall|i: int| 0 <= i < n implies w.known.contains(#[trigger] pawn_pos(g, i)) by {
        assert(reach(s, n, n as nat).contains(i));
    }
}

/// The walk keeps the tiles it has seen.
proof fn lemma_walk_known_grows<const N: usize>(g: OnoroImpl<N>, k: nat)
    requires
        g.wf(),
        N <= 16,
        is_start_pawn(g, start_pawn(g)),
    ensures
        forall|x: HexPosOffset| walk_start(g).known.contains(x) ==> #[trigger] walk(g, walk_start(g), k).known.contains(x),
    decreases k,
{
    if k > 0 {
        lemma_walk_known_grows(g, (k - 1) as nat);
        let prev = walk(g, walk_start(g), (k - 1) as nat);
        if prev.stack.len() != 0 {
            lemma_walk_good(g, (k - 1) as nat);
            let p = prev.stack.last();
            assert(prev.stack[prev.stack.len() - 1] == p);
            lemma_pawn_bounded(g, p);
            let popped = CompressWalk {
                known: prev.known,
                stack: prev.stack.drop_last(),
                colors: prev.colors,
                positions: prev.positions,
            };
            assert forall|j: int| 0 <= j < popped.stack.len() implies popped.known.contains(#[trigger] popped.stack[j])
                && pawn_at(g, popped.stack[j]) is Some by {
                assert(popped.stack[j] == prev.stack[j]);
            }
            assert(found_black(g, popped) =~= found_black(g, prev));
            assert(found_pawns(g, popped) =~= found_pawns(g, prev));
            assert forall|q: HexPosOffset|
                #![trigger popped.known.contains(q)]
                popped.known.contains(q) && pawn_at(g, q) is Some && q != p implies popped.stack.contains(q)
                    || all_neighbors_known(popped.known, q) by {
                if prev.stack.contains(q) {
                    let i = choose|i: int| 0 <= i < prev.stack.len() && prev.stack[i] == q;
                    assert(popped.stack[i] == q);
                }
            }
            lemma_neighbors_good(g, popped, p, 6);
        }
    }
}

/// The black pawns of `g`.
pub open spec fn black_positions<const N: usize>(g: OnoroImpl<N>) -> Set<HexPosOffset> {
    Set::new(|p: HexPosOffset| pawn_at(g, p) == Some(true))
}

/// There are as many pawn positions as pawns, and half of them, rounded up,
/// are black.
proof fn lemma_position_counts<const N: usize>(g: OnoroImpl<N>)
    requires
        g.wf(),
    ensures
        pawn_positions(g).finite(),
        pawn_positions(g).len() == g.n_spec(),
        black_positions(g).finite(),
        black_positions(g).len() == (g.n_spec() + 1) / 2,
{
    let n = g.n_spec();
    let f = |i: int| pawn_pos(g, i);
    let range = vstd::set_lib::set_int_range(0, n as int);
    vstd::set_lib::lemma_int_range(0, n as int);
    assert forall|i: int, j: int| range.contains(i) && range.contains(j) && #[trigger] f(i) == #[trigger] f(j) implies i == j by {
        lemma_pawn_at_pos(g, i);
        lemma_pawn_at_pos(g, j);
        g.poses()[i].lemma_coords_eq(g.poses()[j]);
        if i < j {
            assert(g.poses()[i] != g.poses()[j]);
        } else if j < i {
            assert(g.poses()[j] != g.poses()[i]);
        }
    }
    assert forall|p: HexPosOffset| pawn_positions(g).contains(p) <==> #[trigger] range.map(f).contains(p) by {
        if pawn_positions(g).contains(p) {
            lemma_pawn_at_some(g, p);
            let i = choose|i: int| 0 <= i < g.n_spec() && #[trigger] pawn_pos(g, i) == p && pawn_at(g, p) == Some(i % 2 == 0);
            assert(range.contains(i));
        }
        if range.map(f).contains(p) {
            let i = choose|i: int| range.contains(i) && f(i) == p;
            lemma_pawn_at_pos(g, i);
        }
    }
    assert(range.map(f) =~= pawn_positions(g));
    vstd::set_lib::lemma_map_size(range, pawn_positions(g), f);
    let h = (n + 1) / 2;
    let fb = |k: int| pawn_pos(g, 2 * k);
    let hr = vstd::set_lib::set_int_range(0, h as int);
    vstd::set_lib::lemma_int_range(0, h as int);
    assert forall|i: int, j: int| hr.contains(i) && hr.contains(j) && #[trigger] fb(i) == #[trigger] fb(j) implies i == j by {
        assert(f(2 * i) == f(2 * j));
        assert(range.contains(2 * i) && range.contains(2 * j));
    }
    assert forall|p: HexPosOffset| black_positions(g).contains(p) <==> #[trigger] hr.map(fb).contains(p) by {
        if black_positions(g).contains(p) {
            lemma_pawn_at_some(g, p);
            let i = choose|i: int| 0 <= i < g.n_spec() && #[trigger] pawn_pos(g, i) == p && pawn_at(g, p) == Some(i % 2 == 0);
            assert(hr.contains(i / 2));
            assert(fb(i / 2) == p);
        }
        if hr.map(fb).contains(p) {
            let k = choose|k: int| hr.contains(k) && fb(k) == p;
            lemma_pawn_at_pos(g, 2 * k);
        }
    }
    assert(hr.map(fb) =~= black_positions(g));
    vstd::set_lib::lemma_map_size(hr, black_positions(g), fb);
}

/// Once the walk has found every pawn, it has written one color bit for
/// each, set for the black ones.
proof fn lemma_found_all_counts<const N: usize>(g: OnoroImpl<N>, w: CompressWalk)
    requires
        g.wf(),
        walk_basic(g, w),
        forall|i: int| 0 <= i < g.n_spec() ==> w.known.contains(#[trigger] pawn_pos(g, i)),
    ensures
        found_pawns(g, w) == pawn_positions(g),
        found_black(g, w) == black_positions(g),
        w.colors.len() == g.n_spec(),
        count_true(w.colors) == (g.n_spec() + 1) / 2,
{
    lemma_position_counts(g);
    assert forall|p: HexPosOffset| #[trigger] pawn_positions(g).contains(p) implies found_pawns(g, w).contains(p) by {
        lemma_pawn_at_some(g, p);
    }
    assert(found_pawns(g, w) =~= pawn_positions(g));
    assert forall|p: HexPosOffset| #[trigger] black_positions(g).contains(p) implies found_black(g, w).contains(p) by {
        lemma_pawn_at_some(g, p);
    }
    assert(found_black(g, w) =~= black_positions(g));
}

/// Once the stack runs empty, the walk has written at most as many color bits
/// as it has taken steps.
proof fn lemma_empty_stack_colors<const N: usize>(g: OnoroImpl<N>, t: nat)
    requires
        g.wf(),
        N <= 16,
        is_start_pawn(g, start_pawn(g)),
        walk(g, walk_start(g), t).stack.len() == 0,
    ensures
        walk(g, walk_start(g), t).colors.len() <= t,
    decreases t,
{
    lemma_walk_counts(g, t);
    if t > 0 {
        let prev = walk(g, walk_start(g), (t - 1) as nat);
        if prev.stack.len() == 0 {
            lemma_empty_stack_colors(g, (t - 1) as nat);
        }
    }
}

/// On a connected board of 16 pawns, the walk finds every pawn by its 16th
/// step and its stack holds pawns until then.
proof fn lemma_walk_sixteen<const N: usize>(g: OnoroImpl<N>, t: nat)
    requires
        g.wf(),
        N <= 16,
        g.n_spec() == 16,
        is_start_pawn(g, start_pawn(g)),
        connected(g.poses(), g.n_spec()),
        t < 16,
    ensures
        walk(g, walk_start(g), t).stack.len() > 0,
        walk(g, walk_start(g), 16).colors.len() == 16,
        count_true(walk(g, walk_start(g), 16).colors) == 8,
{
    lemma_walk_finds_all(g);
    lemma_walk_good(g, 16);
    lemma_found_all_counts(g, walk(g, walk_start(g), 16));
    if walk(g, walk_start(g), t).stack.len() == 0 {
        lemma_empty_stack_colors(g, t);
        lemma_walk_stops(g, walk_start(g), t, 16);
    }
}

/// The contents of the tile of `g` at `q`.
pub open spec fn tile_state<const N: usize>(g: OnoroImpl<N>, q: HexPosOffset) -> TileState {
    match pawn_at(g, q) {
        Some(black) => if black {
            TileState::Black
        } else {
            TileState::White
        },
        None => TileState::Empty,
    }
}

/// The position `p` relative to `o`.
pub open spec fn relative(p: HexPosOffset, o: HexPosOffset) -> HexPosOffset {
    HexPosOffset { x: (p.x - o.x) as i32, y: (p.y - o.y) as i32 }
}

/// The walk of `decompress` that matches the walk `w` of `compress`, with
/// positions relative to the first pawn `o`.
pub open spec fn as_decode<const N: usize>(g: OnoroImpl<N>, w: CompressWalk, o: HexPosOffset) -> DecodeWalk {
    DecodeWalk {
        board: Seq::new(w.known.len(), |i: int| (relative(w.known[i], o), tile_state(g, w.known[i]))),
        stack: Seq::new(w.stack.len(), |i: int| relative(w.stack[i], o)),
        pos_idx: 16 + w.positions.len() as int,
        color_idx: w.colors.len() as int,
    }
}

/// The bits written by `w1` begin those written by `w2`.
pub open spec fn extends(w1: CompressWalk, w2: CompressWalk) -> bool {
    &&& w1.colors.len() <= w2.colors.len()
    &&& forall|i: int| 0 <= i < w1.colors.len() ==> #[trigger] w1.colors[i] == w2.colors[i]
    &&& w1.positions.len() <= w2.positions.len()
    &&& forall|i: int| 0 <= i < w1.positions.len() ==> #[trigger] w1.positions[i] == w2.positions[i]
}

/// `r` holds the bits of the finished walk `w`: 16 color bits, then the
/// position bits.
pub open spec fn bits_agree(r: u64, w: CompressWalk) -> bool {
    &&& w.colors.len() == 16
    &&& w.positions.len() <= 48
    &&& forall|i: u64|
        i < 64 ==> (#[trigger] bit_set(r, i) <==> (i < 16 + w.positions.len() && (w.colors
            + w.positions)[i as int]))
}

/// The number of the first `k` neighbors of `p` (in the order of
/// `neighbor_dir`) that hold a pawn of `g`.
pub open spec fn pawn_neighbor_count<const N: usize>(g: OnoroImpl<N>, p: HexPosOffset, k: nat) -> nat
    decreases k,
{
    if k == 0 {
        0
    } else {
        pawn_neighbor_count(g, p, (k - 1) as nat) + if pawn_at(g, offset(p, neighbor_dir(k - 1))) is Some {
            1nat
        } else {
            0nat
        }
    }
}

proof fn lemma_extends_trans(a: CompressWalk, b: CompressWalk, c: CompressWalk)
    requires
        extends(a, b),
        extends(b, c),
    ensures
        extends(a, c),
{
    assert forall|i: int| 0 <= i < a.colors.len() implies #[trigger] a.colors[i] == c.colors[i] by {
        assert(a.colors[i] == b.colors[i]);
    }
    assert forall|i: int| 0 <= i < a.positions.len() implies #[trigger] a.positions[i] == c.positions[i] by {
        assert(a.positions[i] == b.positions[i]);
    }
}

proof fn lemma_neighbors_extends<const N: usize>(g: OnoroImpl<N>, w: CompressWalk, p: HexPosOffset, j: nat, k: nat)
    requires
        j <= k,
    ensures
        extends(walk_neighbors(g, w, p, j), walk_neighbors(g, w, p, k)),
    decreases k - j,
{
    if j < k {
        lemma_neighbors_extends(g, w, p, j, (k - 1) as nat);
        let prev = walk_neighbors(g, w, p, (k - 1) as nat);
        let next = walk_neighbors(g, w, p, k);
        assert(extends(prev, next));
        lemma_extends_trans(walk_neighbors(g, w, p, j), prev, next);
    }
}

proof fn lemma_walk_extends<const N: usize>(g: OnoroImpl<N>, a: nat, b: nat)
    requires
        a <= b,
    ensures
        extends(walk(g, walk_start(g), a), walk(g, walk_start(g), b)),
    decreases b - a,
{
    if a < b {
        lemma_walk_extends(g, a, (b - 1) as nat);
        let prev = walk(g, walk_start(g), (b - 1) as nat);
        if prev.stack.len() != 0 {
            let popped = CompressWalk {
                known: prev.known,
                stack: prev.stack.drop_last(),
                colors: prev.colors,
                positions: prev.positions,
            };
            lemma_neighbors_extends(g, popped, prev.stack.last(), 0, 6);
            lemma_extends_trans(walk(g, walk_start(g), a), prev, walk(g, walk_start(g), b));
        }
    }
}

/// Positions near the board keep apart relative to a pawn.
proof fn lemma_relative_injective(a: HexPosOffset, b: HexPosOffset, o: HexPosOffset)
    requires
        a.bounded(17),
        b.bounded(17),
        0 <= o.x < 16,
        0 <= o.y < 16,
        relative(a, o) == relative(b, o),
    ensures
        a == b,
{
}

/// Moving to a neighbor commutes with taking positions relative to a pawn.
proof fn lemma_relative_offset(p: HexPosOffset, o: HexPosOffset, d: int)
    requires
        0 <= p.x < 16,
        0 <= p.y < 16,
        0 <= o.x < 16,
        0 <= o.y < 16,
        0 <= d < 6,
    ensures
        offset(relative(p, o), neighbor_dir(d)) == relative(offset(p, neighbor_dir(d)), o),
        offset(p, neighbor_dir(d)).bounded(17),
{
}

/// The board of the matching walk has distinct tiles, holding what `g` holds
/// for every tile that the walk has seen or that holds no pawn.
proof fn lemma_tile_sim<const N: usize>(g: OnoroImpl<N>, w: CompressWalk, o: HexPosOffset, q: HexPosOffset)
    requires
        walk_basic(g, w),
        q.bounded(17),
        0 <= o.x < 16,
        0 <= o.y < 16,
        w.known.contains(q) || pawn_at(g, q) is None,
    ensures
        distinct_board(as_decode(g, w, o).board),
        board_has(as_decode(g, w, o).board, relative(q, o)) <==> w.known.contains(q),
        board_tile(as_decode(g, w, o).board, relative(q, o)) == tile_state(g, q),
{
    let b = as_decode(g, w, o).board;
    assert forall|i: int, j: int| 0 <= i < j < b.len() implies (#[trigger] b[i]).0 != (#[trigger] b[j]).0 by {
        if b[i].0 == b[j].0 {
            lemma_relative_injective(w.known[i], w.known[j], o);
            assert(w.known[i] != w.known[j]);
        }
    }
    if w.known.contains(q) {
        let i = choose|i: int| 0 <= i < w.known.len() && w.known[i] == q;
        assert(b[i].0 == relative(q, o));
        lemma_board_tile_at(b, i);
    } else if board_has(b, relative(q, o)) {
        let i = choose|i: int| 0 <= i < b.len() && (#[trigger] b[i]).0 == relative(q, o);
        lemma_relative_injective(w.known[i], q, o);
    }
}

/// Visiting a tile in the walk of `compress` matches placing it in the walk
/// of `decompress`, when `r` holds the bits of a finished walk that writes
/// what this visit writes.
proof fn lemma_visit_sim<const N: usize>(
    g: OnoroImpl<N>,
    r: u64,
    o: HexPosOffset,
    w: CompressWalk,
    q: HexPosOffset,
    fin: CompressWalk,
)
    requires
        walk_basic(g, w),
        q.bounded(17),
        0 <= o.x < 16,
        0 <= o.y < 16,
        bits_agree(r, fin),
        extends(walk_visit(g, w, q), fin),
    ensures
        decode_visit(r, as_decode(g, w, o), relative(q, o)) == Some(as_decode(g, walk_visit(g, w, q), o)),
{
    let d = as_decode(g, w, o);
    let rq = relative(q, o);
    let w2 = walk_visit(g, w, q);
    if w.known.contains(q) {
        let i = choose|i: int| 0 <= i < w.known.len() && w.known[i] == q;
        assert(d.board[i].0 == rq);
    } else {
        if board_has(d.board, rq) {
            let i = choose|i: int| 0 <= i < d.board.len() && (#[trigger] d.board[i]).0 == rq;
            lemma_relative_injective(w.known[i], q, o);
        }
        let all = fin.colors + fin.positions;
        let np = w.positions.len();
        let pi = (16 + np) as u64;
        assert(w2.positions[np as int] == fin.positions[np as int]);
        assert(bit_set(r, pi) == all[16 + np as int]);
        assert(all[16 + np as int] == fin.positions[np as int]);
        if pawn_at(g, q) is Some {
            let nc = w.colors.len();
            assert(w2.colors[nc as int] == fin.colors[nc as int]);
            assert(bit_set(r, nc as u64) == all[nc as int]);
        }
        assert(as_decode(g, w2, o).board =~= d.board.push((rq, tile_state(g, q))));
        if pawn_at(g, q) is Some {
            assert(as_decode(g, w2, o).stack =~= d.stack.push(rq));
        } else {
            assert(as_decode(g, w2, o).stack =~= d.stack);
        }
    }
}

/// Visiting the first `k` neighbors of the pawn at `p` in the walk of
/// `compress` matches placing them in the walk of `decompress`.
proof fn lemma_neighbors_sim<const N: usize>(
    g: OnoroImpl<N>,
    r: u64,
    o: HexPosOffset,
    w: CompressWalk,
    p: HexPosOffset,
    k: nat,
    fin: CompressWalk,
)
    requires
        g.wf(),
        N <= 16,
        walk_basic(g, w),
        closed_except(g, w, p),
        0 <= p.x < 16,
        0 <= p.y < 16,
        0 <= o.x < 16,
        0 <= o.y < 16,
        k <= 6,
        bits_agree(r, fin),
        extends(walk_neighbors(g, w, p, k), fin),
    ensures
        decode_neighbors(r, as_decode(g, w, o), relative(p, o), k) == Some(
            as_decode(g, walk_neighbors(g, w, p, k), o),
        ),
    decreases k,
{
    if k > 0 {
        let k1 = (k - 1) as nat;
        lemma_neighbors_extends(g, w, p, k1, k);
        lemma_extends_trans(walk_neighbors(g, w, p, k1), walk_neighbors(g, w, p, k), fin);
        lemma_neighbors_sim(g, r, o, w, p, k1, fin);
        lemma_neighbors_good(g, w, p, k1);
        lemma_relative_offset(p, o, k - 1);
        lemma_visit_sim(g, r, o, walk_neighbors(g, w, p, k1), offset(p, neighbor_dir(k - 1)), fin);
    }
}

/// On the matching board, a pawn's neighbors that the walk has seen, or that
/// hold no pawn, are counted as on `g`.
proof fn lemma_neighbor_count_sim<const N: usize>(
    g: OnoroImpl<N>,
    w: CompressWalk,
    o: HexPosOffset,
    p: HexPosOffset,
    k: nat,
)
    requires
        walk_basic(g, w),
        0 <= p.x < 16,
        0 <= p.y < 16,
        0 <= o.x < 16,
        0 <= o.y < 16,
        k <= 6,
        forall|d: int|
            0 <= d < k ==> w.known.contains(#[trigger] offset(p, neighbor_dir(d))) || pawn_at(
                g,
                offset(p, neighbor_dir(d)),
            ) is None,
    ensures
        neighbor_pawns(as_decode(g, w, o).board, relative(p, o), k) == pawn_neighbor_count(g, p, k),
    decreases k,
{
    if k > 0 {
        lemma_neighbor_count_sim(g, w, o, p, (k - 1) as nat);
        let q = offset(p, neighbor_dir(k - 1));
        lemma_relative_offset(p, o, k - 1);
        lemma_tile_sim(g, w, o, q);
    }
}

/// A step of the walk of `compress` matches a round of the walk of
/// `decompress`.
proof fn lemma_round_sim<const N: usize>(g: OnoroImpl<N>, r: u64, o: HexPosOffset, w: CompressWalk, fin: CompressWalk)
    requires
        g.wf(),
        N <= 16,
        walk_good(g, w),
        w.stack.len() > 0,
        0 <= o.x < 16,
        0 <= o.y < 16,
        bits_agree(r, fin),
        extends(walk_step(g, w), fin),
        pawn_neighbor_count(g, w.stack.last(), 6) >= 2,
    ensures
        decode_round(r, as_decode(g, w, o)) == Some(as_decode(g, walk_step(g, w), o)),
{
    let p = w.stack.last();
    assert(w.stack[w.stack.len() - 1] == p);
    lemma_pawn_bounded(g, p);
    let popped = CompressWalk { known: w.known, stack: w.stack.drop_last(), colors: w.colors, positions: w.positions };
    assert forall|j: int| 0 <= j < popped.stack.len() implies popped.known.contains(#[trigger] popped.stack[j])
        && pawn_at(g, popped.stack[j]) is Some by {
        assert(popped.stack[j] == w.stack[j]);
    }
    assert(found_black(g, popped) =~= found_black(g, w));
    assert(found_pawns(g, popped) =~= found_pawns(g, w));
    assert forall|q: HexPosOffset|
        #![trigger popped.known.contains(q)]
        popped.known.contains(q) && pawn_at(g, q) is Some && q != p implies popped.stack.contains(q)
            || all_neighbors_known(popped.known, q) by {
        if w.stack.contains(q) {
            let i = choose|i: int| 0 <= i < w.stack.len() && w.stack[i] == q;
            assert(popped.stack[i] == q);
        }
    }
    let d = as_decode(g, w, o);
    assert(d.stack.last() == relative(p, o));
    let dp = DecodeWalk { board: d.board, stack: d.stack.drop_last(), pos_idx: d.pos_idx, color_idx: d.color_idx };
    assert(dp.stack =~= as_decode(g, popped, o).stack);
    assert(dp == as_decode(g, popped, o));
    lemma_neighbors_sim(g, r, o, popped, p, 6, fin);
    lemma_neighbors_good(g, popped, p, 6);
    lemma_neighbor_count_sim(g, walk_step(g, w), o, p, 6);
}

/// The walk of `decompress` starts as that of `compress`, relative to the
/// first pawn.
proof fn lemma_start_sim<const N: usize>(g: OnoroImpl<N>, r: u64, fin: CompressWalk)
    requires
        g.wf(),
        is_start_pawn(g, start_pawn(g)),
        bits_agree(r, fin),
        extends(walk_start(g), fin),
    ensures
        decode_start(r) == as_decode(g, walk_start(g), pawn_pos(g, start_pawn(g))),
{
    let s = start_pawn(g);
    let w = walk_start(g);
    let o = pawn_pos(g, s);
    lemma_pawn_at_pos(g, s);
    assert(w.stack[0] == o);
    assert forall|j: int| 1 <= j < 4 implies pawn_at(g, #[trigger] w.known[j]) is None by {
        let q = w.known[j];
        if pawn_at(g, q) is Some {
            let i = choose|i: int|
                0 <= i < g.n_spec() && #[trigger] g.poses()[i].sx() == q.x && g.poses()[i].sy() == q.y;
            assert(lex_le(g.poses()[s].sx(), g.poses()[s].sy(), g.poses()[i].sx(), g.poses()[i].sy()));
        }
    }
    assert(w.colors[0] == fin.colors[0]);
    assert(bit_set(r, 0) == (fin.colors + fin.positions)[0]);
    let a = decode_start(r);
    let b = as_decode(g, w, o);
    assert(a.board =~= b.board);
    assert(a.stack =~= b.stack);
}

/// The number of set entries of a concatenation.
proof fn lemma_count_true_add(a: Seq<bool>, b: Seq<bool>)
    ensures
        count_true(a + b) == count_true(a) + count_true(b),
    decreases b.len(),
{
    if b.len() > 0 {
        assert((a + b).drop_last() =~= a + b.drop_last());
        lemma_count_true_add(a, b.drop_last());
    } else {
        assert(a + b =~= a);
    }
}

/// No entry of a run of unset entries is set.
proof fn lemma_count_true_none(n: nat)
    ensures
        count_true(Seq::new(n, |i: int| false)) == 0,
    decreases n,
{
    if n > 0 {
        assert(Seq::new(n, |i: int| false).drop_last() =~= Seq::new((n - 1) as nat, |i: int| false));
        lemma_count_true_none((n - 1) as nat);
    }
}

/// The set bits of `x` among its `k` lowest are the set entries of `s`
/// among its first `k`.
proof fn lemma_popcount_seq(x: u64, s: Seq<bool>, k: nat)
    requires
        k <= 64,
        k <= s.len(),
        forall|i: u64| i < k ==> #[trigger] bit_set(x, i) == s[i as int],
    ensures
        popcount_spec(x, k) == count_true(s.take(k as int)),
    decreases k,
{
    if k > 0 {
        lemma_popcount_seq(x, s, (k - 1) as nat);
        assert(s.take(k as int).drop_last() =~= s.take(k - 1));
        assert(bit_set(x, (k - 1) as u64) == s[k - 1]);
    }
}

proof fn lemma_low_bits(r: u64, i: u64)
    by (bit_vector)
    requires
        i < 64,
    ensures
        ((r & 0xffff) >> i) & 1 == 1 <==> (i < 16 && (r >> i) & 1 == 1),
        ((r & 0xffff_ffff_ffff_0000) >> i) & 1 == 1 <==> (i >= 16 && (r >> i) & 1 == 1),
{
}

/// The counts of set bits that `decompress` checks are those of the colors
/// and of the positions of the walk.
proof fn lemma_popcounts(r: u64, fin: CompressWalk)
    requires
        bits_agree(r, fin),
    ensures
        popcount_spec(r & 0xffff, 64) == count_true(fin.colors),
        popcount_spec(r & 0xffff_ffff_ffff_0000, 64) == count_true(fin.positions),
{
    let all = fin.colors + fin.positions;
    let lo = fin.colors + Seq::new(48, |i: int| false);
    let np = fin.positions.len();
    let hi = Seq::new(16, |i: int| false) + fin.positions + Seq::new((48 - np) as nat, |i: int| false);
    assert forall|i: u64| i < 64 implies #[trigger] bit_set(r & 0xffff, i) == lo[i as int] by {
        lemma_low_bits(r, i);
        assert(bit_set(r, i) <==> (i < 16 + np && all[i as int]));
        if i < 16 {
            assert(all[i as int] == fin.colors[i as int]);
            assert(lo[i as int] == fin.colors[i as int]);
        } else {
            assert(!lo[i as int]);
        }
    }
    assert forall|i: u64| i < 64 implies #[trigger] bit_set(r & 0xffff_ffff_ffff_0000, i) == hi[i as int] by {
        lemma_low_bits(r, i);
        assert(bit_set(r, i) <==> (i < 16 + np && all[i as int]));
        if 16 <= i < 16 + np {
            assert(all[i as int] == fin.positions[i - 16]);
            assert(hi[i as int] == fin.positions[i - 16]);
        } else {
            assert(!hi[i as int]);
        }
    }
    lemma_popcount_seq(r & 0xffff, lo, 64);
    lemma_popcount_seq(r & 0xffff_ffff_ffff_0000, hi, 64);
    assert(lo.take(64) =~= lo);
    assert(hi.take(64) =~= hi);
    lemma_count_true_add(fin.colors, Seq::new(48, |i: int| false));
    lemma_count_true_none(48);
    lemma_count_true_add(Seq::new(16, |i: int| false), fin.positions);
    lemma_count_true_add(Seq::new(16, |i: int| false) + fin.positions, Seq::new((48 - np) as nat, |i: int| false));
    lemma_count_true_none(16);
    lemma_count_true_none((48 - np) as nat);
}

/// The matching board holds one pawn for each color bit of the walk, black
/// for each set one.
pub open spec fn decode_counts<const N: usize>(g: OnoroImpl<N>, w: CompressWalk, o: HexPosOffset) -> bool {
    let bp = board_pawns(as_decode(g, w, o).board);
    &&& bp.len() == w.colors.len()
    &&& black_count(bp, bp.len() as int) == count_true(w.colors)
}

proof fn lemma_black_count_prefix(s: Seq<(HexPosOffset, PawnColor)>, x: (HexPosOffset, PawnColor), k: int)
    requires
        0 <= k <= s.len(),
    ensures
        black_count(s.push(x), k) == black_count(s, k),
    decreases k,
{
    if k > 0 {
        lemma_black_count_prefix(s, x, k - 1);
        assert(s.push(x)[k - 1] == s[k - 1]);
    }
}

proof fn lemma_visit_decode_counts<const N: usize>(g: OnoroImpl<N>, w: CompressWalk, q: HexPosOffset, o: HexPosOffset)
    requires
        decode_counts(g, w, o),
    ensures
        decode_counts(g, walk_visit(g, w, q), o),
{
    if !w.known.contains(q) {
        let w2 = walk_visit(g, w, q);
        let b = as_decode(g, w, o).board;
        let e = (relative(q, o), tile_state(g, q));
        let b2 = as_decode(g, w2, o).board;
        assert(b2 =~= b.push(e));
        assert(b2.drop_last() =~= b);
        let bp = board_pawns(b);
        if pawn_at(g, q) is Some {
            let black = pawn_at(g, q)->0;
            let x = (relative(q, o), if black { PawnColor::Black } else { PawnColor::White });
            assert(board_pawns(b2) == bp.push(x));
            lemma_black_count_prefix(bp, x, bp.len() as int);
            assert(w2.colors.drop_last() =~= w.colors);
        } else {
            assert(board_pawns(b2) == bp);
        }
    }
}

proof fn lemma_neighbors_decode_counts<const N: usize>(
    g: OnoroImpl<N>,
    w: CompressWalk,
    p: HexPosOffset,
    k: nat,
    o: HexPosOffset,
)
    requires
        decode_counts(g, w, o),
    ensures
        decode_counts(g, walk_neighbors(g, w, p, k), o),
    decreases k,
{
    if k > 0 {
        lemma_neighbors_decode_counts(g, w, p, (k - 1) as nat, o);
        lemma_visit_decode_counts(g, walk_neighbors(g, w, p, (k - 1) as nat), offset(p, neighbor_dir(k - 1)), o);
    }
}

proof fn lemma_walk_decode_counts<const N: usize>(g: OnoroImpl<N>, k: nat, o: HexPosOffset)
    requires
        g.wf(),
        is_start_pawn(g, start_pawn(g)),
    ensures
        decode_counts(g, walk(g, walk_start(g), k), o),
    decreases k,
{
    if k == 0 {
        let s = start_pawn(g);
        let w = walk_start(g);
        lemma_pawn_at_pos(g, s);
        assert(w.stack[0] == pawn_pos(g, s));
        assert forall|j: int| 1 <= j < 4 implies pawn_at(g, #[trigger] w.known[j]) is None by {
            let q = w.known[j];
            if pawn_at(g, q) is Some {
                let i = choose|i: int|
                    0 <= i < g.n_spec() && #[trigger] g.poses()[i].sx() == q.x && g.poses()[i].sy() == q.y;
                assert(lex_le(g.poses()[s].sx(), g.poses()[s].sy(), g.poses()[i].sx(), g.poses()[i].sy()));
            }
        }
        let b = as_decode(g, w, o).board;
        let b1 = b.take(1);
        let b2 = b.take(2);
        let b3 = b.take(3);
        assert(b1.drop_last() =~= Seq::<(HexPosOffset, TileState)>::empty());
        assert(b2.drop_last() =~= b1);
        assert(b3.drop_last() =~= b2);
        assert(b.drop_last() =~= b3);
        assert(b1.last() == b[0]);
        assert(b2.last() == b[1]);
        assert(b3.last() == b[2]);
        assert(b.last() == b[3]);
        let bp = board_pawns(b);
        assert(w.known[0] == pawn_pos(g, s));
        assert(b[0].1 != TileState::Empty);
        assert(board_pawns(b1.drop_last()).len() == 0);
        assert(board_pawns(b1).len() == 1);
        assert(board_pawns(b2) == board_pawns(b1));
        assert(board_pawns(b3) == board_pawns(b1));
        assert(bp == board_pawns(b1));
        assert(w.colors.drop_last() =~= Seq::<bool>::empty());
        assert(bp[0].1 == PawnColor::Black <==> s % 2 == 0);
        assert(black_count(bp, 0) == 0);
        assert(count_true(Seq::<bool>::empty()) == 0);
        assert(count_true(w.colors) == if s % 2 == 0 { 1nat } else { 0nat });
        assert(black_count(bp, 1) == if s % 2 == 0 { 1int } else { 0int });
        assert(walk(g, walk_start(g), 0) == w);
        assert(decode_counts(g, w, o));
    } else {
        lemma_walk_decode_counts(g, (k - 1) as nat, o);
        let prev = walk(g, walk_start(g), (k - 1) as nat);
        if prev.stack.len() != 0 {
            let popped = CompressWalk {
                known: prev.known,
                stack: prev.stack.drop_last(),
                colors: prev.colors,
                positions: prev.positions,
            };
            assert(as_decode(g, popped, o).board == as_decode(g, prev, o).board);
            lemma_neighbors_decode_counts(g, popped, prev.stack.last(), 6, o);
        }
    }
}

/// Each tile holding a pawn gives a pawn of the board, of its color.
proof fn lemma_board_pawns_to(board: Seq<(HexPosOffset, TileState)>, j: int)
    requires
        0 <= j < board.len(),
        board[j].1 != TileState::Empty,
    ensures
        exists|k: int|
            0 <= k < board_pawns(board).len() && (#[trigger] board_pawns(board)[k]).0 == board[j].0
                && color_tile(board_pawns(board)[k].1) == board[j].1,
    decreases board.len(),
{
    let rest = board_pawns(board.drop_last());
    let bp = board_pawns(board);
    if j == board.len() - 1 {
        assert(bp[rest.len() as int].0 == board[j].0);
    } else {
        lemma_board_pawns_to(board.drop_last(), j);
        let k = choose|k: int|
            0 <= k < rest.len() && (#[trigger] rest[k]).0 == board.drop_last()[j].0
                && color_tile(rest[k].1) == board.drop_last()[j].1;
        assert(bp[k] == rest[k]);
    }
}

/// Pawn `s` is at the first position among the first `k` pawns, ordering
/// by x and then y.
pub open spec fn first_among<const N: usize>(g: OnoroImpl<N>, s: int, k: int) -> bool {
    &&& 0 <= s < k
    &&& forall|j: int|
        0 <= j < k ==> lex_le(
            g.poses()[s].sx(),
            g.poses()[s].sy(),
            #[trigger] g.poses()[j].sx(),
            g.poses()[j].sy(),
        )
}

/// Some pawn is at the first position, ordering by x and then y.
proof fn lemma_start_exists<const N: usize>(g: OnoroImpl<N>, k: int)
    requires
        g.wf(),
        1 <= k <= g.n_spec(),
    ensures
        exists|s: int| #[trigger] first_among(g, s, k),
        k == g.n_spec() ==> is_start_pawn(g, start_pawn(g)),
    decreases k,
{
    let ps = g.poses();
    if k > 1 {
        lemma_start_exists(g, k - 1);
        let s = choose|s: int| #[trigger] first_among(g, s, k - 1);
        if lex_le(ps[s].sx(), ps[s].sy(), ps[k - 1].sx(), ps[k - 1].sy()) {
            assert(first_among(g, s, k));
        } else {
            assert forall|j: int| 0 <= j < k implies lex_le(ps[k - 1].sx(), ps[k - 1].sy(), #[trigger] ps[j].sx(), ps[j].sy()) by {
                if j < k - 1 {
                    assert(lex_le(ps[s].sx(), ps[s].sy(), ps[j].sx(), ps[j].sy()));
                }
            }
            assert(first_among(g, k - 1, k));
        }
    } else {
        assert(first_among(g, 0, k));
    }
    if k == g.n_spec() {
        let s = choose|s: int| #[trigger] first_among(g, s, k);
        assert(is_start_pawn(g, s));
    }
}

/// The walks of `compress` and of `decompress` match for 15 rounds.
proof fn lemma_rounds_sim<const N: usize>(g: OnoroImpl<N>, r: u64, k: nat)
    requires
        g.wf(),
        N <= 16,
        g.n_spec() == 16,
        is_start_pawn(g, start_pawn(g)),
        connected(g.poses(), g.n_spec()),
        forall|i: int| 0 <= i < 16 ==> pawn_neighbor_count(g, #[trigger] pawn_pos(g, i), 6) >= 2,
        bits_agree(r, walk(g, walk_start(g), 16)),
        k <= 15,
    ensures
        decode_rounds(r, decode_start(r), k) == Some(
            as_decode(g, walk(g, walk_start(g), k), pawn_pos(g, start_pawn(g))),
        ),
    decreases k,
{
    let o = pawn_pos(g, start_pawn(g));
    lemma_pawn_at_pos(g, start_pawn(g));
    let fin = walk(g, walk_start(g), 16);
    if k == 0 {
        lemma_walk_extends(g, 0, 16);
        lemma_start_sim(g, r, fin);
    } else {
        lemma_rounds_sim(g, r, (k - 1) as nat);
        let prev = walk(g, walk_start(g), (k - 1) as nat);
        lemma_walk_sixteen(g, (k - 1) as nat);
        lemma_walk_good(g, (k - 1) as nat);
        lemma_walk_extends(g, k, 16);
        let p = prev.stack.last();
        assert(prev.stack[prev.stack.len() - 1] == p);
        lemma_pawn_at_some(g, p);
        let i = choose|i: int| 0 <= i < g.n_spec() && #[trigger] pawn_pos(g, i) == p && pawn_at(g, p) == Some(i % 2 == 0);
        assert(pawn_neighbor_count(g, pawn_pos(g, i), 6) >= 2);
        lemma_round_sim(g, r, o, prev, fin);
    }
}

/// On a connected board of 16 pawns, each next to at least two others,
/// whose packing takes no more than 64 bits, unpacking succeeds with the
/// board that the walk of `compress` has seen after 15 steps, when every
/// pawn has been found.
proof fn lemma_decode_succeeds(g: OnoroImpl<16>, r: u64)
    requires
        g.wf(),
        g.n_spec() == 16,
        is_start_pawn(g, start_pawn(g)),
        connected(g.poses(), 16),
        forall|i: int| 0 <= i < 16 ==> pawn_neighbor_count(g, #[trigger] pawn_pos(g, i), 6) >= 2,
        bits_agree(r, walk(g, walk_start(g), 16)),
    ensures
        decode_board(r) == Some(
            as_decode(g, walk(g, walk_start(g), 15), pawn_pos(g, start_pawn(g))).board,
        ),
        forall|i: int| 0 <= i < 16 ==> walk(g, walk_start(g), 15).known.contains(#[trigger] pawn_pos(g, i)),
{
    let o = pawn_pos(g, start_pawn(g));
    lemma_pawn_at_pos(g, start_pawn(g));
    let fin = walk(g, walk_start(g), 16);
    lemma_walk_sixteen(g, 15);
    lemma_walk_good(g, 16);
    lemma_popcounts(r, fin);
    lemma_rounds_sim(g, r, 15);
    let w = walk(g, walk_start(g), 15);
    let d = as_decode(g, w, o);
    lemma_walk_good(g, 15);
    lemma_walk_counts(g, 15);
    lemma_walk_sixteen(g, 14);
    lemma_position_counts(g);
    assert(found_pawns(g, w).subset_of(pawn_positions(g)));
    vstd::set_lib::lemma_len_subset(found_pawns(g, w), pawn_positions(g));
    vstd::set_lib::lemma_subset_equality(found_pawns(g, w), pawn_positions(g));
    assert forall|i: int| 0 <= i < 16 implies w.known.contains(#[trigger] pawn_pos(g, i)) by {
        lemma_pawn_at_pos(g, i);
        assert(pawn_positions(g).contains(pawn_pos(g, i)));
    }
    let p = w.stack.last();
    assert(w.stack[w.stack.len() - 1] == p);
    lemma_pawn_at_some(g, p);
    let ip = choose|i: int| 0 <= i < g.n_spec() && #[trigger] pawn_pos(g, i) == p && pawn_at(g, p) == Some(i % 2 == 0);
    assert(pawn_neighbor_count(g, pawn_pos(g, ip), 6) >= 2);
    assert forall|dd: int| 0 <= dd < 6 implies w.known.contains(#[trigger] offset(p, neighbor_dir(dd))) || pawn_at(
        g,
        offset(p, neighbor_dir(dd)),
    ) is None by {
        let q = offset(p, neighbor_dir(dd));
        if pawn_at(g, q) is Some {
            lemma_pawn_at_some(g, q);
            let iq = choose|i: int| 0 <= i < g.n_spec() && #[trigger] pawn_pos(g, i) == q && pawn_at(g, q) == Some(i % 2 == 0);
            assert(w.known.contains(pawn_pos(g, iq)));
        }
    }
    lemma_neighbor_count_sim(g, w, o, p, 6);
    assert(d.stack.last() == relative(p, o));
}

/// Packing a connected board of 16 pawns, each next to at least two others,
/// and unpacking it again gives back its pawns, at positions relative to the
/// first pawn (ordering by x and then y), when the packing takes no more than
/// 64 bits.
#[verifier::spinoff_prover]
pub proof fn lemma_compress_round_trip(g: OnoroImpl<16>, r: u64)
    requires
        g.wf(),
        g.n_spec() == 16,
        connected(g.poses(), 16),
        forall|i: int| 0 <= i < 16 ==> pawn_neighbor_count(g, #[trigger] pawn_pos(g, i), 6) >= 2,
        compress_bits(g).len() <= 64,
        forall|i: u64|
            i < 64 ==> (#[trigger] bit_set(r, i) <==> (i < compress_bits(g).len() && compress_bits(g)[i as int])),
    ensures
        decode_board(r) is Some,
        ({
            let b = board_pawns(decode_board(r)->0);
            let o = pawn_pos(g, start_pawn(g));
            &&& b.len() == 16
            &&& black_count(b, 16) == 8
            &&& forall|k: int|
                0 <= k < 16 ==> exists|i: int|
                    0 <= i < 16 && #[trigger] b[k] == (relative(pawn_pos(g, i), o), pawn_color_spec(i))
            &&& forall|i: int|
                0 <= i < 16 ==> exists|k: int|
                    0 <= k < 16 && b[k] == (relative(#[trigger] pawn_pos(g, i), o), pawn_color_spec(i))
        }),
{
    lemma_start_exists(g, 16);
    let o = pawn_pos(g, start_pawn(g));
    lemma_pawn_at_pos(g, start_pawn(g));
    lemma_walk_sixteen(g, 15);
    assert(bits_agree(r, walk(g, walk_start(g), 16)));
    lemma_decode_succeeds(g, r);
    let w = walk(g, walk_start(g), 15);
    lemma_walk_good(g, 15);
    lemma_found_all_counts(g, w);
    lemma_walk_decode_counts(g, 15, o);
    lemma_board_pawns_are_pawns(g, w, o);
}

/// The pawns on the board of the walk after 15 steps are the pawns of `g`,
/// relative to `o`, once every pawn has been found.
#[verifier::spinoff_prover]
proof fn lemma_board_pawns_are_pawns(g: OnoroImpl<16>, w: CompressWalk, o: HexPosOffset)
    requires
        g.wf(),
        g.n_spec() == 16,
        walk_basic(g, w),
        0 <= o.x < 16,
        0 <= o.y < 16,
        decode_counts(g, w, o),
        w.colors.len() == 16,
        forall|i: int| 0 <= i < 16 ==> w.known.contains(#[trigger] pawn_pos(g, i)),
    ensures
        ({
            let b = board_pawns(as_decode(g, w, o).board);
            &&& forall|k: int|
                0 <= k < 16 ==> exists|i: int|
                    0 <= i < 16 && #[trigger] b[k] == (relative(pawn_pos(g, i), o), pawn_color_spec(i))
            &&& forall|i: int|
                0 <= i < 16 ==> exists|k: int|
                    0 <= k < 16 && b[k] == (relative(#[trigger] pawn_pos(g, i), o), pawn_color_spec(i))
        }),
{
    let d = as_decode(g, w, o);
    let b = board_pawns(d.board);
    assert forall|k: int| 0 <= k < 16 implies exists|i: int|
        0 <= i < 16 && #[trigger] b[k] == (relative(pawn_pos(g, i), o), pawn_color_spec(i)) by {
        lemma_board_pawns_from(d.board, k);
        let j = choose|j: int|
            0 <= j < d.board.len() && (#[trigger] d.board[j]).0 == b[k].0 && d.board[j].1 == color_tile(b[k].1);
        let q = w.known[j];
        assert(pawn_at(g, q) is Some);
        lemma_pawn_at_some(g, q);
        let i = choose|i: int| 0 <= i < g.n_spec() && #[trigger] pawn_pos(g, i) == q && pawn_at(g, q) == Some(i % 2 == 0);
        assert(b[k] == (relative(pawn_pos(g, i), o), pawn_color_spec(i)));
    }
    assert forall|i: int| 0 <= i < 16 implies exists|k: int|
        0 <= k < 16 && b[k] == (relative(#[trigger] pawn_pos(g, i), o), pawn_color_spec(i)) by {
        lemma_pawn_at_pos(g, i);
        let q = pawn_pos(g, i);
        let j = choose|j: int| 0 <= j < w.known.len() && w.known[j] == q;
        assert(d.board[j] == (relative(q, o), tile_state(g, q)));
        lemma_board_pawns_to(d.board, j);
        let k = choose|k: int|
            0 <= k < b.len() && (#[trigger] b[k]).0 == d.board[j].0 && color_tile(b[k].1) == d.board[j].1;
        assert(b[k] == (relative(q, o), pawn_color_spec(i)));
    }
}

} // verus!
