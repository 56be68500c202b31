use vstd::prelude::*;

use crate::disjoint_sets::{merged, uf_find, uf_new, uf_roots, uf_union};
use crate::error::OnoroError;
use crate::hex_pos::HexPos;
use crate::move_gen::{connected, lemma_reach_closed, lemma_reach_label, lemma_reach_range, pawns_adjacent, reach};
use crate::onoro::TileState;
use crate::onoro_impl::{has_pawn_at, OnoroImpl};
use crate::packed_idx::PackedIdx;

verus! {

broadcast use PackedIdx::lemma_raw;

/// The ordinal `x + y * w` of the tile of `p` on a board of width `w`.
pub open spec fn tile_ord(p: PackedIdx, w: int) -> int {
    p.sx() + p.sy() * w
}

/// One of the first `n` pawns of `s` is on the tile with ordinal `t`.
pub open spec fn pawn_tile(s: Seq<PackedIdx>, n: int, w: int, t: int) -> bool {
    exists|i: int| 0 <= i < n && #[trigger] tile_ord(s[i], w) == t
}

/// A pawn of the group of pawn 0 is on the tile with ordinal `t`.
pub open spec fn in_group(s: Seq<PackedIdx>, n: int, w: int, t: int) -> bool {
    exists|i: int|
        0 <= i < n && #[trigger] tile_ord(s[i], w) == t && reach(s, n, n as nat).contains(i)
}

/// The offsets to the three neighbors of a tile that each pawn is joined
/// with: left, lower left and below.
pub open spec fn back_dir(d: int) -> (int, int) {
    if d == 0 {
        (-1, 0)
    } else if d == 1 {
        (-1, -1)
    } else {
        (0, -1)
    }
}

/// `b` is on the neighbor of `a` in direction `back_dir(d)`.
pub open spec fn back_neighbor(a: PackedIdx, b: PackedIdx, d: int) -> bool {
    b.sx() == a.sx() + back_dir(d).0 && b.sy() == a.sy() + back_dir(d).1
}

/// The roots `r` of the tiles of a `w x w` board, while pawns are joined
/// with their neighbors: every root is its own root, a set holds either only
/// tiles of the group of pawn 0 or none, and only tiles of pawns are joined.
pub open spec fn uf_inv(r: Seq<usize>, s: Seq<PackedIdx>, n: int, w: int) -> bool {
    &&& r.len() == w * w
    &&& forall|t: int|
        0 <= t < w * w ==> {
            &&& (#[trigger] r[t]) < w * w
            &&& r[r[t] as int] == r[t]
            &&& in_group(s, n, w, r[t] as int) == in_group(s, n, w, t)
            &&& r[t] == t || (pawn_tile(s, n, w, t) && pawn_tile(s, n, w, r[t] as int))
        }
}

/// Every pawn before pawn `i`, and pawn `i` in the directions before `d`,
/// shares its root with the pawn on its neighboring tile.
pub open spec fn joined_upto(r: Seq<usize>, s: Seq<PackedIdx>, n: int, w: int, i: int, d: int) -> bool {
    forall|p: int, q: int, e: int|
        0 <= p < n && 0 <= q < n && 0 <= e < 3 && (p < i || (p == i && e < d))
            && #[trigger] back_neighbor(s[p], s[q], e) ==> r[tile_ord(s[p], w)] == r[tile_ord(
            s[q],
            w,
        )]
}

/// The ordinal of a tile of a `w x w` board is one of its `w * w` tiles.
proof fn lemma_ord_range(x: int, y: int, w: int)
    requires
        0 <= x < w,
        0 <= y < w,
    ensures
        0 <= x + y * w < w * w,
{
    assert(0 <= x + y * w < w * w) by (nonlinear_arith)
        requires
            0 <= x < w,
            0 <= y < w,
    ;
}

/// Positions with x-coordinates below `w` have equal ordinals only if they
/// are equal.
proof fn lemma_ord_eq(p: PackedIdx, q: PackedIdx, w: int)
    requires
        p.sx() < w,
        q.sx() < w,
        tile_ord(p, w) == tile_ord(q, w),
    ensures
        p == q,
{
    let (x1, y1, x2, y2) = (p.sx(), p.sy(), q.sx(), q.sy());
    assert(y1 == y2) by (nonlinear_arith)
        requires
            0 <= x1 < w,
            0 <= x2 < w,
            x1 + y1 * w == x2 + y2 * w,
    {
        if y1 > y2 {
            assert((y1 - y2) * w >= w);
        } else if y1 < y2 {
            assert((y2 - y1) * w >= w);
        }
    }
    p.lemma_coords_eq(q);
}

/// The tile of a pawn is in the group of pawn 0 exactly when the pawn is.
proof fn lemma_in_group_pawn<const N: usize>(o: OnoroImpl<N>, i: int)
    requires
        o.wf(),
        0 <= i < o.n_spec(),
    ensures
        in_group(o.poses(), o.n_spec(), N as int, tile_ord(o.poses()[i], N as int)) == reach(
            o.poses(),
            o.n_spec(),
            o.n_spec() as nat,
        ).contains(i),
        pawn_tile(o.poses(), o.n_spec(), N as int, tile_ord(o.poses()[i], N as int)),
{
    let s = o.poses();
    let n = o.n_spec();
    let w = N as int;
    if in_group(s, n, w, tile_ord(s[i], w)) {
        let j = choose|j: int|
            0 <= j < n && #[trigger] tile_ord(s[j], w) == tile_ord(s[i], w) && reach(
                s,
                n,
                n as nat,
            ).contains(j);
        lemma_ord_eq(s[j], s[i], w);
        if j != i {
            assert(s[if i < j { i } else { j }] != s[if i < j { j } else { i }]);
        }
    }
    assert(tile_ord(s[i], w) == tile_ord(s[i], w));
}

/// Joining two sets whose tiles are both in the group of pawn 0, or both
/// outside of it, keeps the invariant, keeps every two tiles with one root
/// together and gives the two tiles one root.
proof fn lemma_join(
    before: Seq<usize>,
    after: Seq<usize>,
    parent: usize,
    child: usize,
    s: Seq<PackedIdx>,
    n: int,
    w: int,
    a: int,
    b: int,
)
    requires
        uf_inv(before, s, n, w),
        merged(before, after, parent, child),
        0 <= a < w * w,
        0 <= b < w * w,
        (parent == before[a] && child == before[b]) || (parent == before[b] && child == before[a]),
        before[a] != before[b],
        pawn_tile(s, n, w, a),
        pawn_tile(s, n, w, b),
        in_group(s, n, w, a) == in_group(s, n, w, b),
    ensures
        uf_inv(after, s, n, w),
        after[a] == after[b],
        forall|x: int, y: int|
            0 <= x < w * w && 0 <= y < w * w && before[x] == before[y] ==> #[trigger] after[x]
                == #[trigger] after[y],
{
    assert(before[a] < w * w && before[b] < w * w);
    assert(before[parent as int] == parent);
    assert(before[child as int] == child);
    assert(after[parent as int] == parent);
    assert(pawn_tile(s, n, w, parent as int));
    assert(pawn_tile(s, n, w, child as int));
    assert(in_group(s, n, w, parent as int) == in_group(s, n, w, child as int));
    assert forall|t: int| 0 <= t < w * w implies {
        &&& (#[trigger] after[t]) < w * w
        &&& after[after[t] as int] == after[t]
        &&& in_group(s, n, w, after[t] as int) == in_group(s, n, w, t)
        &&& after[t] == t || (pawn_tile(s, n, w, t) && pawn_tile(s, n, w, after[t] as int))
    } by {
        assert(before[t] < w * w);
        let bt = before[t] as int;
        assert(before[bt] == before[t]);
        if before[t] != child {
            assert(after[bt] == before[bt]);
        }
    }
    assert(after[a] == after[b]);
}

/// On a well-formed board the tile of each pawn holds the pawn's color:
/// black for the pawns placed on even turns, white for the others.
pub proof fn lemma_pawn_tile_color<const N: usize>(o: OnoroImpl<N>, i: int)
    requires
        o.wf(),
        0 <= i < o.n_spec(),
    ensures
        o.tile_spec(o.poses()[i].sx(), o.poses()[i].sy()) == if i % 2 == 0 {
            TileState::Black
        } else {
            TileState::White
        },
{
    let s = o.poses();
    let n = o.n_spec();
    let (x, y) = (s[i].sx(), s[i].sy());
    assert(has_pawn_at(s, n, i % 2, x, y));
    if i % 2 == 1 {
        assert forall|j: int| 0 <= j < n && j % 2 == 0 implies !(#[trigger] s[j].sx() == x
            && s[j].sy() == y) by {
            s[j].lemma_coords_eq(s[i]);
            assert(s[if i < j { i } else { j }] != s[if i < j { j } else { i }]);
        }
    }
}

/// Describes a board whose pawns form more than one group.
#[verifier::external_body]
fn pawn_groups_message(groups: usize) -> String {
    format!("Expected 1 contiguous pawn group, but found {}", groups)
}

impl<const N: usize> OnoroImpl<N> {
    /// Checks that the pawns form one group of neighboring pawns. Every
    /// other consistency condition of a board (pawns off of the border, on
    /// distinct tiles, alternating in color, with the recorded sum of
    /// positions and turn parity) is part of `wf`, which every operation
    /// keeps.
    pub fn validate(&self) -> (r: Result<(), OnoroError>)
        requires
            self.wf(),
        ensures
            r is Ok <==> connected(self.poses(), self.n_spec()),
    {
        let n = self.pawns_in_play() as usize;
        let poses = self.pawn_poses();
        let ghost s = self.poses();
        let ghost w = N as int;
        let size = Self::board_size();
        let mut uf = uf_new(size);
        proof {
            let r = uf_roots(uf);
            assert forall|t: int| 0 <= t < w * w implies {
                &&& (#[trigger] r[t]) < w * w
                &&& r[r[t] as int] == r[t]
                &&& in_group(s, n as int, w, r[t] as int) == in_group(s, n as int, w, t)
                &&& r[t] == t || (pawn_tile(s, n as int, w, t) && pawn_tile(
                    s,
                    n as int,
                    w,
                    r[t] as int,
                ))
            } by {}
        }
        let mut i: usize = 0;
        while i < n
            invariant
                self.wf(),
                n == self.n_spec(),
                poses@ == s,
                s == self.poses(),
                w == N,
                size == N * N,
                i <= n,
                uf_inv(uf_roots(uf), s, n as int, w),
                joined_upto(uf_roots(uf), s, n as int, w, i as int, 0),
            decreases n - i,
        {
            let pos = poses[i];
            proof {
                assert(crate::onoro_impl::interior(s[i as int], w));
                lemma_in_group_pawn(*self, i as int);
            }
            let a = Self::hex_pos_ord(&pos.to_hex_pos());
            let neighbors = pos.to_hex_offset().each_top_left_neighbor();
            let mut d: usize = 0;
            while d < 3
                invariant
                    self.wf(),
                    n == self.n_spec(),
                    poses@ == s,
                    s == self.poses(),
                    w == N,
                    size == N * N,
                    i < n,
                    pos == s[i as int],
                    a == tile_ord(pos, w),
                    in_group(s, n as int, w, a as int) == reach(s, n as int, n as nat).contains(
                        i as int,
                    ),
                    pawn_tile(s, n as int, w, a as int),
                    crate::onoro_impl::interior(pos, w),
                    neighbors.len() == 3,
                    forall|e: int|
                        0 <= e < 3 ==> #[trigger] neighbors[e].x == pos.sx() + back_dir(e).0
                            && neighbors[e].y == pos.sy() + back_dir(e).1,
                    d <= 3,
                    uf_inv(uf_roots(uf), s, n as int, w),
                    joined_upto(uf_roots(uf), s, n as int, w, i as int, d as int),
                decreases 3 - d,
            {
                let nb = neighbors[d];
                assert(nb.x == pos.sx() + back_dir(d as int).0);
                let occupied = match self.get_tile_xy(nb.x, nb.y) {
                    TileState::Empty => false,
                    _ => true,
                };
                let ghost before = uf_roots(uf);
                if occupied {
                    proof {
                        assert(has_pawn_at(s, n as int, 0, nb.x as int, nb.y as int) || has_pawn_at(
                            s,
                            n as int,
                            1,
                            nb.x as int,
                            nb.y as int,
                        ));
                    }
                    let ghost j = choose|j: int|
                        0 <= j < n && #[trigger] s[j].sx() == nb.x && s[j].sy() == nb.y;
                    let b = Self::hex_pos_ord(&HexPos::new(nb.x as u32, nb.y as u32));
                    proof {
                        assert(b == tile_ord(s[j], w));
                        assert(pawns_adjacent(s[i as int], s[j]));
                        assert(pawns_adjacent(s[j], s[i as int]));
                        lemma_in_group_pawn(*self, j);
                        if reach(s, n as int, n as nat).contains(i as int) {
                            lemma_reach_closed(s, n as int, i as int, j);
                        }
                        if reach(s, n as int, n as nat).contains(j) {
                            lemma_reach_closed(s, n as int, j, i as int);
                        }
                        lemma_ord_range(pos.sx(), pos.sy(), w);
                        lemma_ord_range(nb.x as int, nb.y as int, w);
                    }
                    let joined = uf_union(&mut uf, a, b);
                    proof {
                        let after = uf_roots(uf);
                        if before[a as int] != before[b as int] {
                            let (parent, child) = choose|parent: usize, child: usize|
                                #![trigger merged(before, after, parent, child)]
                                ((parent == before[a as int] && child == before[b as int]) || (parent
                                    == before[b as int] && child == before[a as int])) && merged(
                                    before,
                                    after,
                                    parent,
                                    child,
                                );
                            lemma_join(before, after, parent, child, s, n as int, w, a as int, b as int);
                        }
                        assert forall|p: int, q: int, e: int|
                            0 <= p < n && 0 <= q < n && 0 <= e < 3 && (p < i || (p == i && e < d + 1))
                                && #[trigger] back_neighbor(s[p], s[q], e) implies after[tile_ord(
                            s[p],
                            w,
                        )] == after[tile_ord(s[q], w)] by {
                            assert(crate::onoro_impl::interior(s[p], w));
                            assert(crate::onoro_impl::interior(s[q], w));
                            lemma_ord_range(s[p].sx(), s[p].sy(), w);
                            lemma_ord_range(s[q].sx(), s[q].sy(), w);
                            if p == i && e == d {
                                s[q].lemma_coords_eq(s[j]);
                                if q != j {
                                    assert(s[if q < j { q } else { j }] != s[if q < j { j } else { q }]);
                                }
                            } else {
                                assert(before[tile_ord(s[p], w)] == before[tile_ord(s[q], w)]);
                            }
                        }
                    }
                } else {
                    proof {
                        assert forall|q: int|
                            0 <= q < n implies !#[trigger] back_neighbor(s[i as int], s[q], d as int) by {
                            if back_neighbor(s[i as int], s[q], d as int) {
                                assert(has_pawn_at(s, n as int, q % 2, nb.x as int, nb.y as int));
                            }
                        }
                    }
                }
                d += 1;
            }
            i += 1;
        }
        // Every pawn now shares its root with each of its neighbors.
        proof {
            assert(crate::onoro_impl::interior(s[0], w));
            lemma_ord_range(s[0].sx(), s[0].sy(), w);
        }
        let root0 = uf_find(&mut uf, Self::hex_pos_ord(&poses[0].to_hex_pos()));
        let ghost roots = uf_roots(uf);
        let mut one_group = true;
        let mut groups: usize = 0;
        let mut k: usize = 0;
        while k < n
            invariant
                self.wf(),
                n == self.n_spec(),
                poses@ == s,
                s == self.poses(),
                w == N,
                size == N * N,
                k <= n,
                groups <= k,
                uf_roots(uf) == roots,
                uf_inv(roots, s, n as int, w),
                joined_upto(roots, s, n as int, w, n as int, 0),
                root0 == roots[tile_ord(s[0], w)],
                one_group == forall|t: int|
                    0 <= t < k ==> #[trigger] roots[tile_ord(s[t], w)] == root0,
            decreases n - k,
        {
            let pk = poses[k];
            proof {
                assert(crate::onoro_impl::interior(s[k as int], w));
                lemma_ord_range(pk.sx(), pk.sy(), w);
            }
            let ak = Self::hex_pos_ord(&pk.to_hex_pos());
            let rk = uf_find(&mut uf, ak);
            assert(rk == roots[tile_ord(s[k as int], w)]);
            if rk != root0 {
                one_group = false;
            }
            assert(one_group == forall|t: int|
                0 <= t < k + 1 ==> #[trigger] roots[tile_ord(s[t], w)] == root0);
            if rk == ak {
                groups += 1;
            }
            k += 1;
        }
        proof {
            let nn = n as int;
            let grp = reach(s, nn, nn as nat);
            lemma_reach_range(s, nn, nn as nat);
            lemma_in_group_pawn(*self, 0);
            if one_group {
                assert forall|j: int| 0 <= j < nn implies #[trigger] grp.contains(j) by {
                    lemma_in_group_pawn(*self, j);
                    assert(roots[tile_ord(s[j], w)] == root0);
                    assert(crate::onoro_impl::interior(s[j], w));
                    lemma_ord_range(s[j].sx(), s[j].sy(), w);
                    assert(crate::onoro_impl::interior(s[0], w));
                    lemma_ord_range(s[0].sx(), s[0].sy(), w);
                }
            } else {
                let lab = |j: int| roots[tile_ord(s[j], w)] as int;
                assert forall|p: int, q: int|
                    0 <= p < nn && 0 <= q < nn && #[trigger] pawns_adjacent(s[p], s[q]) implies lab(p)
                    == lab(q) by {
                    let dx = s[q].sx() - s[p].sx();
                    let dy = s[q].sy() - s[p].sy();
                    if (dx == -1 && dy == 0) || (dx == -1 && dy == -1) || (dx == 0 && dy == -1) {
                        let e: int = if dx == -1 && dy == 0 {
                            0
                        } else if dx == -1 {
                            1
                        } else {
                            2
                        };
                        assert(back_neighbor(s[p], s[q], e));
                    } else {
                        let e: int = if dx == 1 && dy == 0 {
                            0
                        } else if dx == 1 {
                            1
                        } else {
                            2
                        };
                        assert(back_neighbor(s[q], s[p], e));
                    }
                }
                lemma_reach_label(s, nn, lab, nn as nat);
                let t = choose|t: int| 0 <= t < n && #[trigger] roots[tile_ord(s[t], w)] != root0;
                if connected(s, nn) {
                    assert(grp.contains(t));
                    assert(lab(t) == lab(0));
                }
            }
        }
        if one_group {
            Ok(())
        } else {
            Err(OnoroError::new(pawn_groups_message(groups)))
        }
    }
}

} // verus!
