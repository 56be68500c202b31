use vstd::prelude::*;

use crate::error::OnoroError;
use crate::move_gen::legal_move;
use crate::onoro::{Move, PawnColor};
use crate::onoro_view::pawn_color_spec;
use crate::onoro_impl::OnoroImpl;
use crate::packed_idx::PackedIdx;

verus! {

broadcast use vstd::seq_lib::lemma_seq_contains_after_push;

/// A move in terms of positions: where a pawn is placed, or where a pawn is
/// moved from and to.
#[derive(Clone, Copy, Debug, PartialEq, Eq, Structural)]
pub enum OnoroMoveWrapper<I> {
    Phase1 { to: I },
    Phase2 { from: I, to: I },
}

/// A move as coordinates.
pub type TupleMove = OnoroMoveWrapper<(i32, i32)>;

/// The move `m` of `g` in terms of positions.
pub open spec fn wrapper_spec<const N: usize>(g: OnoroImpl<N>, m: Move) -> OnoroMoveWrapper<PackedIdx> {
    match m {
        Move::Phase1Move { to } => OnoroMoveWrapper::Phase1 { to },
        Move::Phase2Move { to, from_idx } => OnoroMoveWrapper::Phase2 { from: g.poses()[from_idx as int], to },
    }
}

/// The coordinates of a position.
pub open spec fn coords_of(p: PackedIdx) -> (i32, i32) {
    (p.sx() as i32, p.sy() as i32)
}

/// A move in terms of positions, as coordinates.
pub open spec fn tuple_of(m: OnoroMoveWrapper<PackedIdx>) -> TupleMove {
    match m {
        OnoroMoveWrapper::Phase1 { to } => OnoroMoveWrapper::Phase1 { to: coords_of(to) },
        OnoroMoveWrapper::Phase2 { from, to } => OnoroMoveWrapper::Phase2 { from: coords_of(from), to: coords_of(to) },
    }
}

impl<const N: usize> OnoroImpl<N> {
    /// The move `m` in terms of positions.
    pub fn to_move_wrapper(&self, m: &Move) -> (r: OnoroMoveWrapper<PackedIdx>)
        requires
            self.wf(),
            m matches Move::Phase2Move { from_idx, .. } ==> from_idx < N,
        ensures
            r == wrapper_spec(*self, *m),
    {
        match *m {
            Move::Phase1Move { to } => OnoroMoveWrapper::Phase1 { to },
            Move::Phase2Move { to, from_idx } => OnoroMoveWrapper::Phase2 {
                from: self.pawn_poses()[from_idx as usize],
                to,
            },
        }
    }
}

/// A move in terms of positions, as coordinates.
fn to_tuple_move(m: OnoroMoveWrapper<PackedIdx>) -> (r: TupleMove)
    ensures
        r == tuple_of(m),
{
    match m {
        OnoroMoveWrapper::Phase1 { to } => OnoroMoveWrapper::Phase1 { to: (to.x() as i32, to.y() as i32) },
        OnoroMoveWrapper::Phase2 { from, to } => OnoroMoveWrapper::Phase2 {
            from: (from.x() as i32, from.y() as i32),
            to: (to.x() as i32, to.y() as i32),
        },
    }
}

/// A move with the coordinates by which moves of different games compare.
#[derive(Clone, Copy, Debug)]
pub struct ComparableMove {
    pub t_move: TupleMove,
    pub original: Move,
}

impl ComparableMove {
    /// The move itself.
    pub fn original(&self) -> (r: Move)
        ensures
            r == self.original,
    {
        self.original
    }
}

impl PartialEq for ComparableMove {
    fn eq(&self, other: &Self) -> (r: bool) {
        match (self.t_move, other.t_move) {
            (OnoroMoveWrapper::Phase1 { to: a }, OnoroMoveWrapper::Phase1 { to: b }) => a.0 == b.0 && a.1 == b.1,
            (
                OnoroMoveWrapper::Phase2 { from: af, to: at },
                OnoroMoveWrapper::Phase2 { from: bf, to: bt },
            ) => af.0 == bf.0 && af.1 == bf.1 && at.0 == bt.0 && at.1 == bt.1,
            _ => false,
        }
    }
}

impl vstd::std_specs::cmp::PartialEqSpecImpl for ComparableMove {
    open spec fn obeys_eq_spec() -> bool {
        true
    }

    open spec fn eq_spec(&self, other: &Self) -> bool {
        self.t_move == other.t_move
    }
}

/// The move `m` of `g` with its coordinates.
pub open spec fn comparable<const N: usize>(g: OnoroImpl<N>, m: Move) -> ComparableMove {
    ComparableMove { t_move: tuple_of(wrapper_spec(g, m)), original: m }
}

/// The key by which moves are ordered: the position placed at, or the
/// position moved from and then the one moved to.
pub open spec fn move_key(t: TupleMove) -> (int, int, int, int) {
    match t {
        OnoroMoveWrapper::Phase1 { to } => (to.0 as int, to.1 as int, 0, 0),
        OnoroMoveWrapper::Phase2 { from, to } => (from.0 as int, from.1 as int, to.0 as int, to.1 as int),
    }
}

/// `a` comes before or with `b`, comparing keys lexicographically.
pub open spec fn key_le(a: (int, int, int, int), b: (int, int, int, int)) -> bool {
    a.0 < b.0 || (a.0 == b.0 && (a.1 < b.1 || (a.1 == b.1 && (a.2 < b.2 || (a.2 == b.2 && a.3 <= b.3)))))
}

/// The moves are in order of their keys.
pub open spec fn sorted_moves(s: Seq<ComparableMove>) -> bool {
    forall|i: int, j: int| 0 <= i < j < s.len() ==> key_le(move_key(#[trigger] s[i].t_move), move_key(#[trigger] s[j].t_move))
}

/// The moves are all placements or all moves of a placed pawn.
pub open spec fn uniform_moves(s: Seq<ComparableMove>) -> bool {
    forall|i: int, j: int|
        0 <= i < s.len() && 0 <= j < s.len() ==> ((#[trigger] s[i].t_move is Phase1) == (#[trigger] s[j].t_move is Phase1))
}

/// Whether `b` comes strictly before `a`.
fn key_lt(b: TupleMove, a: TupleMove) -> (r: bool)
    ensures
        r == !key_le(move_key(a), move_key(b)),
{
    let kb = match b {
        OnoroMoveWrapper::Phase1 { to } => (to.0, to.1, 0i32, 0i32),
        OnoroMoveWrapper::Phase2 { from, to } => (from.0, from.1, to.0, to.1),
    };
    let ka = match a {
        OnoroMoveWrapper::Phase1 { to } => (to.0, to.1, 0i32, 0i32),
        OnoroMoveWrapper::Phase2 { from, to } => (from.0, from.1, to.0, to.1),
    };
    kb.0 < ka.0 || (kb.0 == ka.0 && (kb.1 < ka.1 || (kb.1 == ka.1 && (kb.2 < ka.2 || (kb.2 == ka.2
        && kb.3 < ka.3)))))
}

/// The moves sorted by their keys.
fn sort_moves(moves: Vec<ComparableMove>) -> (r: Vec<ComparableMove>)
    ensures
        sorted_moves(r@),
        r.len() == moves.len(),
        forall|c: ComparableMove| r@.contains(c) <==> moves@.contains(c),
{
    let mut out: Vec<ComparableMove> = Vec::new();
    let mut i: usize = 0;
    while i < moves.len()
        invariant
            i <= moves.len(),
            out.len() == i,
            sorted_moves(out@),
            forall|c: ComparableMove| out@.contains(c) <==> moves@.take(i as int).contains(c),
        decreases moves.len() - i,
    {
        let m = moves[i];
        let mut p: usize = 0;
        while p < out.len() && !key_lt(m.t_move, out[p].t_move)
            invariant
                p <= out.len(),
                forall|j: int| 0 <= j < p ==> key_le(move_key(#[trigger] out@[j].t_move), move_key(m.t_move)),
            decreases out.len() - p,
        {
            p += 1;
        }
        let ghost before = out@;
        out.insert(p, m);
        proof {
            assert forall|a: int, b: int| 0 <= a < b < out.len() implies key_le(
                move_key(#[trigger] out@[a].t_move),
                move_key(#[trigger] out@[b].t_move),
            ) by {
                if b < p {
                    assert(out@[a] == before[a] && out@[b] == before[b]);
                } else if b == p {
                    assert(out@[a] == before[a]);
                } else if a == p {
                    assert(out@[b] == before[b - 1]);
                    if p < before.len() {
                        assert(key_le(move_key(m.t_move), move_key(before[p as int].t_move)));
                        if b - 1 > p {
                            assert(key_le(move_key(before[p as int].t_move), move_key(before[b - 1].t_move)));
                        }
                    }
                } else if a < p {
                    assert(out@[a] == before[a] && out@[b] == before[b - 1]);
                } else {
                    assert(out@[a] == before[a - 1] && out@[b] == before[b - 1]);
                }
            }
            assert(moves@.take(i + 1) =~= moves@.take(i as int).push(m));
            assert forall|c: ComparableMove| out@.contains(c) <==> moves@.take(i + 1).contains(c) by {
                if out@.contains(c) {
                    let k = choose|k: int| 0 <= k < out.len() && out@[k] == c;
                    if k < p {
                        assert(before[k] == c);
                    } else if k > p {
                        assert(before[k - 1] == c);
                    }
                }
                if before.contains(c) {
                    let k = choose|k: int| 0 <= k < before.len() && before[k] == c;
                    if k < p {
                        assert(out@[k] == c);
                    } else {
                        assert(out@[k + 1] == c);
                    }
                }
                if c == m {
                    assert(out@[p as int] == c);
                }
            }
        }
        i += 1;
    }
    proof {
        assert(moves@.take(moves.len() as int) =~= moves@);
    }
    out
}

/// The moves of `g`, with their coordinates, sorted by their keys. Fails if
/// the moves are not all placements or all moves of a placed pawn, which
/// never happens.
pub fn ordered_moves<const N: usize>(onoro: &OnoroImpl<N>) -> (r: Result<Vec<ComparableMove>, OnoroError>)
    requires
        onoro.wf(),
    ensures
        r is Ok,
        sorted_moves(r->Ok_0@),
        uniform_moves(r->Ok_0@),
        forall|m: Move| legal_move(*onoro, m) <==> r->Ok_0@.contains(#[trigger] comparable(*onoro, m)),
        forall|k: int|
            0 <= k < r->Ok_0.len() ==> legal_move(*onoro, (#[trigger] r->Ok_0@[k]).original) && r->Ok_0@[k]
                == comparable(*onoro, r->Ok_0@[k].original),
{
    let moves = onoro.each_move();
    let mut cm: Vec<ComparableMove> = Vec::new();
    let mut k: usize = 0;
    while k < moves.len()
        invariant
            onoro.wf(),
            k <= moves.len(),
            cm.len() == k,
            forall|m: Move| moves@.contains(m) <==> legal_move(*onoro, m),
            forall|j: int| 0 <= j < k ==> #[trigger] cm@[j] == comparable(*onoro, moves@[j]),
        decreases moves.len() - k,
    {
        let m = moves[k];
        assert(moves@.contains(m));
        let w = onoro.to_move_wrapper(&m);
        cm.push(ComparableMove { t_move: to_tuple_move(w), original: m });
        k += 1;
    }
    // Every move is legal, so all are placements exactly in the first phase.
    proof {
        assert forall|j: int| 0 <= j < cm.len() implies (#[trigger] cm@[j].t_move is Phase1)
            == onoro.in_phase1_spec() by {
            assert(moves@.contains(moves@[j]));
        }
    }
    if cm.len() > 0 {
        let first_p1 = match cm[0].t_move {
            OnoroMoveWrapper::Phase1 { .. } => true,
            OnoroMoveWrapper::Phase2 { .. } => false,
        };
        let mut j: usize = 1;
        while j < cm.len()
            invariant
                1 <= j <= cm.len(),
                first_p1 == (cm@[0].t_move is Phase1),
                forall|i: int| 0 <= i < cm.len() ==> (#[trigger] cm@[i].t_move is Phase1) == onoro.in_phase1_spec(),
            decreases cm.len() - j,
        {
            let p1 = match cm[j].t_move {
                OnoroMoveWrapper::Phase1 { .. } => true,
                OnoroMoveWrapper::Phase2 { .. } => false,
            };
            if p1 != first_p1 {
                return Err(OnoroError::new("All moves must be uniformly phase 1 or phase 2".to_owned()));
            }
            j += 1;
        }
    }
    let ghost unsorted = cm@;
    proof {
        assert forall|m: Move| legal_move(*onoro, m) <==> unsorted.contains(#[trigger] comparable(*onoro, m)) by {
            if legal_move(*onoro, m) {
                let j = choose|j: int| 0 <= j < moves.len() && moves@[j] == m;
                assert(unsorted[j] == comparable(*onoro, m));
            }
            if unsorted.contains(comparable(*onoro, m)) {
                let j = choose|j: int| 0 <= j < unsorted.len() && unsorted[j] == comparable(*onoro, m);
                assert(moves@.contains(moves@[j]));
            }
        }
    }
    let sorted = sort_moves(cm);
    proof {
        assert forall|k: int| 0 <= k < sorted.len() implies legal_move(*onoro, (#[trigger] sorted@[k]).original)
            && sorted@[k] == comparable(*onoro, sorted@[k].original) by {
            assert(sorted@.contains(sorted@[k]));
            let j = choose|j: int| 0 <= j < unsorted.len() && unsorted[j] == sorted@[k];
            assert(moves@.contains(moves@[j]));
        }
        assert forall|a: int, b: int| 0 <= a < sorted.len() && 0 <= b < sorted.len() implies ((
        #[trigger] sorted@[a].t_move is Phase1) == (#[trigger] sorted@[b].t_move is Phase1)) by {
            assert(sorted@.contains(sorted@[a]));
            assert(sorted@.contains(sorted@[b]));
            let ja = choose|j: int| 0 <= j < unsorted.len() && unsorted[j] == sorted@[a];
            let jb = choose|j: int| 0 <= j < unsorted.len() && unsorted[j] == sorted@[b];
        }
    }
    Ok(sorted)
}

/// The smallest x-coordinate of a move.
pub open spec fn move_min_x(t: TupleMove) -> int {
    match t {
        OnoroMoveWrapper::Phase1 { to } => to.0 as int,
        OnoroMoveWrapper::Phase2 { from, to } => if from.0 <= to.0 {
            from.0 as int
        } else {
            to.0 as int
        },
    }
}

/// The smallest y-coordinate of a move.
pub open spec fn move_min_y(t: TupleMove) -> int {
    match t {
        OnoroMoveWrapper::Phase1 { to } => to.1 as int,
        OnoroMoveWrapper::Phase2 { from, to } => if from.1 <= to.1 {
            from.1 as int
        } else {
            to.1 as int
        },
    }
}

/// `mx` and `my` are the smallest coordinates among the legal moves of `g`.
pub open spec fn moves_min<const N: usize>(g: OnoroImpl<N>, mx: int, my: int) -> bool {
    &&& exists|m: Move| legal_move(g, m) && #[trigger] move_min_x(comparable(g, m).t_move) == mx
    &&& exists|m: Move| legal_move(g, m) && #[trigger] move_min_y(comparable(g, m).t_move) == my
    &&& forall|m: Move| legal_move(g, m) ==> mx <= #[trigger] move_min_x(comparable(g, m).t_move)
    &&& forall|m: Move| legal_move(g, m) ==> my <= #[trigger] move_min_y(comparable(g, m).t_move)
}

/// The move with its coordinates moved by `(-mx, -my)`.
pub open spec fn translated(c: ComparableMove, mx: int, my: int) -> ComparableMove {
    ComparableMove {
        t_move: match c.t_move {
            OnoroMoveWrapper::Phase1 { to } => OnoroMoveWrapper::Phase1 { to: ((to.0 - mx) as i32, (to.1 - my) as i32) },
            OnoroMoveWrapper::Phase2 { from, to } => OnoroMoveWrapper::Phase2 {
                from: ((from.0 - mx) as i32, (from.1 - my) as i32),
                to: ((to.0 - mx) as i32, (to.1 - my) as i32),
            },
        },
        original: c.original,
    }
}

/// Every coordinate of the move is on a board of width 16.
pub open spec fn small_move(t: TupleMove) -> bool {
    match t {
        OnoroMoveWrapper::Phase1 { to } => 0 <= to.0 < 16 && 0 <= to.1 < 16,
        OnoroMoveWrapper::Phase2 { from, to } => 0 <= from.0 < 16 && 0 <= from.1 < 16 && 0 <= to.0 < 16
            && 0 <= to.1 < 16,
    }
}

proof fn lemma_comparable_small<const N: usize>(g: OnoroImpl<N>, m: Move)
    ensures
        small_move(comparable(g, m).t_move),
{
    match m {
        Move::Phase1Move { to } => {
            to.lemma_raw();
        },
        Move::Phase2Move { to, from_idx } => {
            to.lemma_raw();
            g.poses()[from_idx as int].lemma_raw();
        },
    }
}

/// The smallest x and the smallest y among the coordinates of the moves.
fn min_coords(moves: &Vec<ComparableMove>) -> (r: (i32, i32))
    requires
        moves.len() > 0,
        forall|j: int| 0 <= j < moves.len() ==> small_move(#[trigger] moves@[j].t_move),
    ensures
        0 <= r.0 < 16,
        0 <= r.1 < 16,
        exists|j: int| 0 <= j < moves.len() && r.0 == move_min_x(#[trigger] moves@[j].t_move),
        exists|j: int| 0 <= j < moves.len() && r.1 == move_min_y(#[trigger] moves@[j].t_move),
        forall|j: int|
            0 <= j < moves.len() ==> r.0 <= move_min_x(#[trigger] moves@[j].t_move) && r.1 <= move_min_y(
                moves@[j].t_move,
            ),
{
    let mut min_x: i32 = 16;
    let mut min_y: i32 = 16;
    let ghost mut jx: int = 0;
    let ghost mut jy: int = 0;
    let mut k: usize = 0;
    while k < moves.len()
        invariant
            k <= moves.len(),
            forall|j: int| 0 <= j < moves.len() ==> small_move(#[trigger] moves@[j].t_move),
            0 <= min_x <= 16,
            0 <= min_y <= 16,
            forall|j: int|
                0 <= j < k ==> min_x <= move_min_x(#[trigger] moves@[j].t_move) && min_y <= move_min_y(
                    moves@[j].t_move,
                ),
            k > 0 ==> 0 <= jx < k && min_x == move_min_x(moves@[jx].t_move),
            k > 0 ==> 0 <= jy < k && min_y == move_min_y(moves@[jy].t_move),
        decreases moves.len() - k,
    {
        let t = moves[k].t_move;
        assert(small_move(moves@[k as int].t_move));
        let (x, y) = match t {
            OnoroMoveWrapper::Phase1 { to } => (to.0, to.1),
            OnoroMoveWrapper::Phase2 { from, to } => (
                if from.0 <= to.0 {
                    from.0
                } else {
                    to.0
                },
                if from.1 <= to.1 {
                    from.1
                } else {
                    to.1
                },
            ),
        };
        assert(x == move_min_x(moves@[k as int].t_move) && y == move_min_y(moves@[k as int].t_move));
        if k == 0 || x < min_x {
            min_x = x;
            proof {
                jx = k as int;
            }
        }
        if k == 0 || y < min_y {
            min_y = y;
            proof {
                jy = k as int;
            }
        }
        k += 1;
    }
    (min_x, min_y)
}

/// The moves with their coordinates moved by `(-mx, -my)`.
fn translate_moves(moves: &Vec<ComparableMove>, mx: i32, my: i32) -> (r: Vec<ComparableMove>)
    requires
        0 <= mx < 16,
        0 <= my < 16,
        forall|j: int| 0 <= j < moves.len() ==> small_move(#[trigger] moves@[j].t_move),
    ensures
        r.len() == moves.len(),
        forall|j: int| 0 <= j < moves.len() ==> #[trigger] r@[j] == translated(moves@[j], mx as int, my as int),
{
    let mut out: Vec<ComparableMove> = Vec::new();
    let mut k: usize = 0;
    while k < moves.len()
        invariant
            k <= moves.len(),
            out.len() == k,
            0 <= mx < 16,
            0 <= my < 16,
            forall|j: int| 0 <= j < moves.len() ==> small_move(#[trigger] moves@[j].t_move),
            forall|j: int| 0 <= j < k ==> #[trigger] out@[j] == translated(moves@[j], mx as int, my as int),
        decreases moves.len() - k,
    {
        let c = moves[k];
        assert(small_move(moves@[k as int].t_move));
        let t = match c.t_move {
            OnoroMoveWrapper::Phase1 { to } => OnoroMoveWrapper::Phase1 { to: (to.0 - mx, to.1 - my) },
            OnoroMoveWrapper::Phase2 { from, to } => OnoroMoveWrapper::Phase2 {
                from: (from.0 - mx, from.1 - my),
                to: (to.0 - mx, to.1 - my),
            },
        };
        out.push(ComparableMove { t_move: t, original: c.original });
        k += 1;
    }
    out
}

/// The translated moves stay sorted, and are the legal moves translated.
proof fn lemma_translated_facts<const N: usize>(
    g: OnoroImpl<N>,
    ordered: Seq<ComparableMove>,
    out: Seq<ComparableMove>,
    mx: int,
    my: int,
)
    requires
        sorted_moves(ordered),
        uniform_moves(ordered),
        out.len() == ordered.len(),
        forall|j: int| 0 <= j < ordered.len() ==> #[trigger] out[j] == translated(ordered[j], mx, my),
        forall|j: int| 0 <= j < ordered.len() ==> small_move(#[trigger] ordered[j].t_move),
        0 <= mx < 16,
        0 <= my < 16,
        forall|m: Move| legal_move(g, m) <==> ordered.contains(#[trigger] comparable(g, m)),
        forall|k: int|
            0 <= k < ordered.len() ==> legal_move(g, (#[trigger] ordered[k]).original) && ordered[k]
                == comparable(g, ordered[k].original),
    ensures
        sorted_moves(out),
        forall|m: Move| legal_move(g, m) <==> out.contains(#[trigger] translated(comparable(g, m), mx, my)),
        forall|k: int|
            0 <= k < out.len() ==> legal_move(g, (#[trigger] out[k]).original) && out[k] == translated(
                comparable(g, out[k].original),
                mx,
                my,
            ),
{
    assert forall|a: int, b: int| 0 <= a < b < out.len() implies key_le(
        move_key(#[trigger] out[a].t_move),
        move_key(#[trigger] out[b].t_move),
    ) by {
        assert(key_le(move_key(ordered[a].t_move), move_key(ordered[b].t_move)));
        assert((ordered[a].t_move is Phase1) == (ordered[b].t_move is Phase1));
        assert(small_move(ordered[a].t_move) && small_move(ordered[b].t_move));
        assert(out[a] == translated(ordered[a], mx, my));
        assert(out[b] == translated(ordered[b], mx, my));
    }
    assert forall|m: Move| legal_move(g, m) <==> out.contains(#[trigger] translated(comparable(g, m), mx, my)) by {
        if legal_move(g, m) {
            let j = choose|j: int| 0 <= j < ordered.len() && ordered[j] == comparable(g, m);
            assert(out[j] == translated(comparable(g, m), mx, my));
        }
        if out.contains(translated(comparable(g, m), mx, my)) {
            let j = choose|j: int| 0 <= j < out.len() && out[j] == translated(comparable(g, m), mx, my);
            assert(out[j] == translated(ordered[j], mx, my));
            assert(ordered[j].original == m);
        }
    }
    assert forall|k: int| 0 <= k < out.len() implies legal_move(g, (#[trigger] out[k]).original) && out[k]
        == translated(comparable(g, out[k].original), mx, my) by {
        assert(out[k] == translated(ordered[k], mx, my));
    }
}

/// The moves that can be made from this position, sorted and normalized
/// with respect to translation: their coordinates are moved so that the
/// smallest x and the smallest y among them are 0.
pub fn normalized_ordered_moves<const N: usize>(onoro: &OnoroImpl<N>) -> (r: Result<Vec<ComparableMove>, OnoroError>)
    requires
        onoro.wf(),
        exists|m: Move| legal_move(*onoro, m),
    ensures
        r is Ok,
        exists|mx: int, my: int|
            #![trigger moves_min(*onoro, mx, my)]
            moves_min(*onoro, mx, my) && (forall|m: Move|
                legal_move(*onoro, m) <==> r->Ok_0@.contains(#[trigger] translated(comparable(*onoro, m), mx, my)))
                && (forall|k: int|
                0 <= k < r->Ok_0.len() ==> legal_move(*onoro, (#[trigger] r->Ok_0@[k]).original) && r->Ok_0@[k]
                    == translated(comparable(*onoro, r->Ok_0@[k].original), mx, my)),
        sorted_moves(r->Ok_0@),
{
    let ordered = match ordered_moves(onoro) {
        Ok(o) => o,
        Err(e) => {
            return Err(e);
        },
    };
    let ghost g = *onoro;
    let ghost wit = choose|m: Move| legal_move(g, m);
    assert(ordered@.contains(comparable(g, wit)));
    proof {
        assert forall|j: int| 0 <= j < ordered.len() implies small_move(#[trigger] ordered@[j].t_move) by {
            let c = ordered@[j];
            lemma_comparable_small(g, c.original);
        }
    }
    let (min_x, min_y) = min_coords(&ordered);
    proof {
        let jx = choose|j: int| 0 <= j < ordered.len() && min_x == move_min_x(#[trigger] ordered@[j].t_move);
        let jy = choose|j: int| 0 <= j < ordered.len() && min_y == move_min_y(#[trigger] ordered@[j].t_move);
        assert(move_min_x(comparable(g, ordered@[jx].original).t_move) == min_x);
        assert(move_min_y(comparable(g, ordered@[jy].original).t_move) == min_y);
        assert forall|m: Move| legal_move(g, m) implies min_x <= #[trigger] move_min_x(comparable(g, m).t_move) by {
            let j = choose|j: int| 0 <= j < ordered.len() && ordered@[j] == comparable(g, m);
        }
        assert forall|m: Move| legal_move(g, m) implies min_y <= #[trigger] move_min_y(comparable(g, m).t_move) by {
            let j = choose|j: int| 0 <= j < ordered.len() && ordered@[j] == comparable(g, m);
        }
        assert(moves_min(g, min_x as int, min_y as int));
    }
    let out = translate_moves(&ordered, min_x, min_y);
    proof {
        lemma_translated_facts(g, ordered@, out@, min_x as int, min_y as int);
    }
    Ok(out)
}

/// `m` is the smallest x-coordinate of the pawns of `g`.
pub open spec fn is_pawn_min_x<const N: usize>(g: OnoroImpl<N>, m: int) -> bool {
    &&& exists|i: int| 0 <= i < g.n_spec() && #[trigger] g.poses()[i].sx() == m
    &&& forall|i: int| 0 <= i < g.n_spec() ==> m <= #[trigger] g.poses()[i].sx()
}

/// `m` is the smallest y-coordinate of the pawns of `g`.
pub open spec fn is_pawn_min_y<const N: usize>(g: OnoroImpl<N>, m: int) -> bool {
    &&& exists|i: int| 0 <= i < g.n_spec() && #[trigger] g.poses()[i].sy() == m
    &&& forall|i: int| 0 <= i < g.n_spec() ==> m <= #[trigger] g.poses()[i].sy()
}

/// The pawns of `g` with their colors, at positions relative to the smallest
/// x and the smallest y among them, in the order of the pawns.
pub open spec fn pawn_map_spec<const N: usize>(g: OnoroImpl<N>) -> Seq<((i32, i32), PawnColor)> {
    let mx = choose|m: int| is_pawn_min_x(g, m);
    let my = choose|m: int| is_pawn_min_y(g, m);
    Seq::new(
        g.n_spec() as nat,
        |i: int| (((g.poses()[i].sx() - mx) as i32, (g.poses()[i].sy() - my) as i32), pawn_color_spec(i)),
    )
}

/// The pawns of `g` with their colors, at positions relative to the
/// smallest x and the smallest y among them.
pub fn pawn_map<const N: usize>(onoro: &OnoroImpl<N>) -> (r: Vec<((i32, i32), PawnColor)>)
    requires
        onoro.wf(),
    ensures
        r@ == pawn_map_spec(*onoro),
{
    let ghost g = *onoro;
    let pawns = onoro.pawns();
    let mut min_x: u32 = pawns[0].pos.x();
    let mut min_y: u32 = pawns[0].pos.y();
    let mut k: usize = 1;
    while k < pawns.len()
        invariant
            1 <= k <= pawns.len(),
            pawns.len() == g.n_spec(),
            forall|j: int| 0 <= j < pawns.len() ==> (#[trigger] pawns[j]).pos == g.poses()[j] && pawns[j].color == pawn_color_spec(j),
            exists|j: int| 0 <= j < k && #[trigger] g.poses()[j].sx() == min_x,
            exists|j: int| 0 <= j < k && #[trigger] g.poses()[j].sy() == min_y,
            forall|j: int| 0 <= j < k ==> min_x <= #[trigger] g.poses()[j].sx() && min_y <= g.poses()[j].sy(),
        decreases pawns.len() - k,
    {
        assert(pawns[k as int].pos == g.poses()[k as int]);
        if pawns[k].pos.x() < min_x {
            min_x = pawns[k].pos.x();
        }
        if pawns[k].pos.y() < min_y {
            min_y = pawns[k].pos.y();
        }
        k += 1;
    }
    proof {
        let cx = choose|m: int| is_pawn_min_x(g, m);
        let cy = choose|m: int| is_pawn_min_y(g, m);
        assert(is_pawn_min_x(g, min_x as int));
        assert(is_pawn_min_y(g, min_y as int));
        let a = choose|j: int| 0 <= j < g.n_spec() && #[trigger] g.poses()[j].sx() == cx;
        let b = choose|j: int| 0 <= j < g.n_spec() && #[trigger] g.poses()[j].sy() == cy;
        let c = choose|j: int| 0 <= j < g.n_spec() && #[trigger] g.poses()[j].sx() == min_x;
        let d = choose|j: int| 0 <= j < g.n_spec() && #[trigger] g.poses()[j].sy() == min_y;
        assert(cx <= g.poses()[c].sx() && min_x <= g.poses()[a].sx());
        assert(cy <= g.poses()[d].sy() && min_y <= g.poses()[b].sy());
    }
    let mut out: Vec<((i32, i32), PawnColor)> = Vec::new();
    let mut k: usize = 0;
    while k < pawns.len()
        invariant
            k <= pawns.len(),
            out.len() == k,
            pawns.len() == g.n_spec(),
            min_x as int == choose|m: int| is_pawn_min_x(g, m),
            min_y as int == choose|m: int| is_pawn_min_y(g, m),
            forall|j: int| 0 <= j < pawns.len() ==> (#[trigger] pawns[j]).pos == g.poses()[j] && pawns[j].color == pawn_color_spec(j),
            forall|j: int| 0 <= j < pawns.len() ==> min_x <= #[trigger] g.poses()[j].sx() && min_y <= g.poses()[j].sy(),
            forall|j: int| 0 <= j < k ==> #[trigger] out@[j] == pawn_map_spec(g)[j],
        decreases pawns.len() - k,
    {
        assert(pawns[k as int].pos == g.poses()[k as int]);
        let x = (pawns[k].pos.x() - min_x) as i32;
        let y = (pawns[k].pos.y() - min_y) as i32;
        out.push(((x, y), pawns[k].color));
        k += 1;
    }
    proof {
        assert(out@ =~= pawn_map_spec(g));
    }
    out
}

/// A game compared with others by its pawns up to translation.
pub struct OnoroCmp<'a, const N: usize>(pub &'a OnoroImpl<N>);

impl<'a, const N: usize> OnoroCmp<'a, N> {
    /// Whether the two games have the same pawns, of the same colors, up to
    /// translation.
    pub fn same_pawns<const M: usize>(&self, other: &OnoroCmp<'_, M>) -> (r: bool)
        requires
            self.0.wf(),
            other.0.wf(),
        ensures
            r == (forall|e: ((i32, i32), PawnColor)|
                pawn_map_spec(*self.0).contains(e) <==> pawn_map_spec(*other.0).contains(e)),
    {
        let a = pawn_map(self.0);
        let b = pawn_map(other.0);
        let r = contains_all(&a, &b) && contains_all(&b, &a);
        proof {
            if !r {
                if !contains_all_spec(a@, b@) {
                    let i = choose|i: int| 0 <= i < a.len() && !b@.contains(#[trigger] a@[i]);
                    assert(a@.contains(a@[i]));
                } else {
                    let i = choose|i: int| 0 <= i < b.len() && !a@.contains(#[trigger] b@[i]);
                    assert(b@.contains(b@[i]));
                }
            }
        }
        r
    }
}

/// Every entry of `a` is in `b`.
pub open spec fn contains_all_spec(a: Seq<((i32, i32), PawnColor)>, b: Seq<((i32, i32), PawnColor)>) -> bool {
    forall|i: int| 0 <= i < a.len() ==> b.contains(#[trigger] a[i])
}

fn contains_all(a: &Vec<((i32, i32), PawnColor)>, b: &Vec<((i32, i32), PawnColor)>) -> (r: bool)
    ensures
        r == contains_all_spec(a@, b@),
{
    let mut i: usize = 0;
    while i < a.len()
        invariant
            i <= a.len(),
            forall|j: int| 0 <= j < i ==> b@.contains(#[trigger] a@[j]),
        decreases a.len() - i,
    {
        let e = a[i];
        let mut found = false;
        let mut k: usize = 0;
        while k < b.len()
            invariant
                k <= b.len(),
                found ==> b@.contains(e),
                !found ==> forall|j: int| 0 <= j < k ==> b@[j] != e,
            decreases b.len() - k,
        {
            let f = b[k];
            if f.0.0 == e.0.0 && f.0.1 == e.0.1 && f.1 == e.1 {
                assert(b@[k as int] == e);
                found = true;
            }
            k += 1;
        }
        if !found {
            return false;
        }
        i += 1;
    }
    true
}

} // verus!
